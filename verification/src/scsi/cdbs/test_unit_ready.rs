//! TEST UNIT READY(0x00), from SCSI-2 8.2.16

use crate::scsi::{Cdb, Command, CommandData, DataPhase, Error};
use vstd::prelude::*;

verus! {

/// TEST UNIT READY - GOOD when the unit is ready, else a CHECK CONDITION whose sense
/// data says what it is doing. No data phase.
#[derive(Debug, Default)]
pub struct TestUnitReady;

impl TestUnitReady {
    pub fn new() -> (r: Self)
        ensures
            r == TestUnitReady,
    {
        TestUnitReady
    }
}

/// The descriptor block, the same every time.
pub open spec fn test_unit_ready_cdb() -> Seq<u8> {
    seq![0x00u8, 0x00u8, 0x00u8, 0x00u8, 0x00u8, 0x00u8]
}

impl Command for TestUnitReady {
    type Response = ();
    type Cdb = Cdb<6>;

    open spec fn cdb_bytes(&self) -> Seq<u8> {
        test_unit_ready_cdb()
    }

    open spec fn phase(&self) -> DataPhase {
        DataPhase::NoData
    }

    open spec fn decodes(&self, data: Seq<u8>, response: Result<(), Error>) -> bool {
        response == Ok::<(), Error>(())
    }

    fn cdb(&self) -> (r: Cdb<6>) {
        let r = Cdb(
            [
                0x00,  // opcode
                0x00,
                0x00,
                0x00,
                0x00,
                0x00,  // control
            ],
        );
        assert(r.0@ =~= self.cdb_bytes());
        r
    }

    fn data(&self) -> (r: CommandData<'_>) {
        CommandData::NoData
    }

    fn decode(&self, _data: &[u8]) -> (r: Result<(), Error>) {
        Ok(())
    }
}

} // verus!
