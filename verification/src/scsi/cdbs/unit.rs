//! RESERVE UNIT(0x16) and RELEASE UNIT(0x17), from SCSI-2 9.2.11 / 9.2.12

use crate::scsi::{cdbs, Cdb, Command, CommandData, DataPhase, Error};
use vstd::prelude::*;

verus! {

/// The descriptor block of RESERVE UNIT or RELEASE UNIT: the third-party bit and device in
/// the low five bits of byte 1.
pub open spec fn unit_cdb(opcode: u8, lun: u8, third_party: Option<u8>, control: u8) -> Seq<u8> {
    seq![
        opcode,
        (cdbs::lun_bits(lun) + match third_party {
            Some(device) => 0x10 + device % 8 * 2,
            None => 0,
        }) as u8,
        0x00u8,
        0x00u8,
        0x00u8,
        control,
    ]
}

/// Byte 1 of the descriptor block.
fn unit_flags(lun: u8, third_party: Option<u8>) -> (r: u8)
    ensures
        r == unit_cdb(0, lun, third_party, 0)[1],
{
    match third_party {
        Some(device) => lun % 8 * 32 + (0x10 + device % 8 * 2),
        None => lun % 8 * 32,
    }
}

/// RESERVE UNIT - claims exclusive access to the unit. No data phase.
pub struct ReserveUnit {
    /// Logical unit number (3 bits)
    pub lun: u8,
    /// Device on whose behalf the unit is claimed (3 bits), if not the sender
    pub third_party: Option<u8>,
    /// Control byte.
    pub control: u8,
}

impl ReserveUnit {
    pub fn new(lun: u8, third_party: Option<u8>, control: u8) -> (r: Self)
        ensures
            r == (ReserveUnit { lun, third_party, control }),
    {
        ReserveUnit { lun, third_party, control }
    }
}

impl Default for ReserveUnit {
    /// Unit 0, for the sender itself.
    fn default() -> (r: Self)
        ensures
            r == (ReserveUnit { lun: 0, third_party: None, control: 0 }),
    {
        ReserveUnit { lun: 0, third_party: None, control: 0 }
    }
}

impl Command for ReserveUnit {
    type Response = ();
    type Cdb = Cdb<6>;

    open spec fn cdb_bytes(&self) -> Seq<u8> {
        unit_cdb(0x16, self.lun, self.third_party, self.control)
    }

    open spec fn phase(&self) -> DataPhase {
        DataPhase::NoData
    }

    open spec fn decodes(&self, data: Seq<u8>, response: Result<(), Error>) -> bool {
        response == Ok::<(), Error>(())
    }

    fn cdb(&self) -> (r: Cdb<6>) {
        let r = Cdb([0x16, unit_flags(self.lun, self.third_party), 0x00, 0x00, 0x00, self.control]);
        assert(r.0@ =~= self.cdb_bytes());
        r
    }

    fn data(&self) -> (r: CommandData<'_>) {
        CommandData::NoData
    }

    fn decode(&self, _data: &[u8]) -> (r: Result<(), Error>) {
        Ok(())
    }
}

/// RELEASE UNIT - gives up exclusive access to the unit. No data phase.
pub struct ReleaseUnit {
    /// Logical unit number (3 bits)
    pub lun: u8,
    /// Device on whose behalf the unit is claimed (3 bits), if not the sender
    pub third_party: Option<u8>,
    /// Control byte.
    pub control: u8,
}

impl ReleaseUnit {
    pub fn new(lun: u8, third_party: Option<u8>, control: u8) -> (r: Self)
        ensures
            r == (ReleaseUnit { lun, third_party, control }),
    {
        ReleaseUnit { lun, third_party, control }
    }
}

impl Default for ReleaseUnit {
    /// Unit 0, for the sender itself.
    fn default() -> (r: Self)
        ensures
            r == (ReleaseUnit { lun: 0, third_party: None, control: 0 }),
    {
        ReleaseUnit { lun: 0, third_party: None, control: 0 }
    }
}

impl Command for ReleaseUnit {
    type Response = ();
    type Cdb = Cdb<6>;

    open spec fn cdb_bytes(&self) -> Seq<u8> {
        unit_cdb(0x17, self.lun, self.third_party, self.control)
    }

    open spec fn phase(&self) -> DataPhase {
        DataPhase::NoData
    }

    open spec fn decodes(&self, data: Seq<u8>, response: Result<(), Error>) -> bool {
        response == Ok::<(), Error>(())
    }

    fn cdb(&self) -> (r: Cdb<6>) {
        let r = Cdb([0x17, unit_flags(self.lun, self.third_party), 0x00, 0x00, 0x00, self.control]);
        assert(r.0@ =~= self.cdb_bytes());
        r
    }

    fn data(&self) -> (r: CommandData<'_>) {
        CommandData::NoData
    }

    fn decode(&self, _data: &[u8]) -> (r: Result<(), Error>) {
        Ok(())
    }
}

} // verus!
