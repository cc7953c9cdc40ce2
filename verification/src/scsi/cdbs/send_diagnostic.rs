//! SEND DIAGNOSTIC(0x1D), from SCSI-2 8.2.1

use crate::scsi::{Cdb, Command, CommandData, DataPhase, Error};
use vstd::prelude::*;

verus! {

/// SEND DIAGNOSTIC with the SelfTest bit set.
///
/// NikonScan sends the same CDB (`1D 04 00 00 00 00`) at several points in a
/// scan; the firmware picks the action from its own state (self-test on init,
/// pre-scan calibration, lamp-off after a scan), so the host just issues it.
/// No parameter list, so no data phase.
#[derive(Debug, Default)]
pub struct SendDiagnostic;

impl SendDiagnostic {
    pub fn new() -> (r: Self)
        ensures
            r == SendDiagnostic,
    {
        SendDiagnostic
    }
}

/// The descriptor block, the same every time.
pub open spec fn send_diagnostic_cdb() -> Seq<u8> {
    seq![0x1Du8, 0x04u8, 0x00u8, 0x00u8, 0x00u8, 0x00u8]
}

impl Command for SendDiagnostic {
    type Response = ();
    type Cdb = Cdb<6>;

    open spec fn cdb_bytes(&self) -> Seq<u8> {
        send_diagnostic_cdb()
    }

    open spec fn phase(&self) -> DataPhase {
        DataPhase::NoData
    }

    open spec fn decodes(&self, data: Seq<u8>, response: Result<(), Error>) -> bool {
        response == Ok::<(), Error>(())
    }

    fn cdb(&self) -> (r: Cdb<6>) {
        let r = Cdb(
            [
                0x1D,  // opcode
                0x04,  // SelfTest=1 (bit 2)
                0x00,  // reserved
                0x00,  // parameter list length (MSB)
                0x00,  // parameter list length (LSB)
                0x00,  // control
            ],
        );
        assert(r.0@ =~= self.cdb_bytes());
        r
    }

    fn data(&self) -> (r: CommandData<'_>) {
        CommandData::NoData
    }

    fn decode(&self, _data: &[u8]) -> (r: Result<(), Error>) {
        Ok(())
    }
}

} // verus!
