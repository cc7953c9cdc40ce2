//! SCAN(0x1B), from SCSI-2 15.2.2

use crate::scsi::{bytes, Cdb, Command, CommandData, DataPhase, Error};
use vstd::prelude::*;

verus! {

/// SCAN - starts acquisition for a set of channels.
///
/// Must follow a [`SetWindow`](super::SetWindow). Byte 4 is the transfer length,
/// which for the Coolscan equals the number of channel-id bytes in the data-out
/// payload; the payload lists the channels to acquire: `01 02 03` for an RGB
/// pass, `09 01 02 03` to prepend the IR channel on a calibration pass. After
/// SCAN returns GOOD the image is retrieved with READ.
pub struct Scan {
    /// Channel ids to scan, sent as the data-out payload.
    pub channels: Vec<u8>,
}

impl Scan {
    pub fn new(channels: Vec<u8>) -> (r: Self)
        ensures
            r == (Scan { channels }),
    {
        Self { channels }
    }
}

/// The SCAN descriptor block for `n` channels; of the count the low 8 bits.
pub open spec fn scan_cdb(n: nat) -> Seq<u8> {
    seq![0x1Bu8, 0x00u8, 0x00u8, 0x00u8, bytes::byte_of(n as int, 0), 0x00u8]
}

impl Command for Scan {
    type Response = ();
    type Cdb = Cdb<6>;

    open spec fn cdb_bytes(&self) -> Seq<u8> {
        scan_cdb(self.channels@.len())
    }

    open spec fn phase(&self) -> DataPhase {
        DataPhase::Write(self.channels@)
    }

    open spec fn decodes(&self, data: Seq<u8>, response: Result<(), Error>) -> bool {
        response == Ok::<(), Error>(())
    }

    fn cdb(&self) -> (r: Cdb<6>) {
        let r = Cdb(
            [
                0x1B,  // opcode
                0x00,
                0x00,
                0x00,
                (self.channels.len() % 0x100) as u8,  // transfer length = channel count
                0x00,  // control
            ],
        );
        assert(r.0@ =~= self.cdb_bytes());
        r
    }

    fn data(&self) -> (r: CommandData<'_>) {
        CommandData::Write(self.channels.as_slice())
    }

    fn decode(&self, _data: &[u8]) -> (r: Result<(), Error>) {
        Ok(())
    }
}

} // verus!
