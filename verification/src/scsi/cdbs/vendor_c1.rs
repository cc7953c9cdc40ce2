//! VENDOR 0xC1 - Nikon control trigger.

use crate::scsi::{Cdb, Command, CommandData, DataPhase, Error};
use vstd::prelude::*;

verus! {

/// VENDOR C1 - fires the operation whose parameters a preceding VENDOR E0 wrote
/// (the `E0 -> C1 -> E1` cycle). Opcode-only, no data phase.
#[derive(Debug, Default)]
pub struct VendorC1;

impl VendorC1 {
    pub fn new() -> (r: Self)
        ensures
            r == VendorC1,
    {
        VendorC1
    }
}

/// The descriptor block, the same every time.
pub open spec fn vendor_c1_cdb() -> Seq<u8> {
    seq![0xC1u8, 0x00u8, 0x00u8, 0x00u8, 0x00u8, 0x00u8]
}

impl Command for VendorC1 {
    type Response = ();
    type Cdb = Cdb<6>;

    open spec fn cdb_bytes(&self) -> Seq<u8> {
        vendor_c1_cdb()
    }

    open spec fn phase(&self) -> DataPhase {
        DataPhase::NoData
    }

    open spec fn decodes(&self, data: Seq<u8>, response: Result<(), Error>) -> bool {
        response == Ok::<(), Error>(())
    }

    fn cdb(&self) -> (r: Cdb<6>) {
        let r = Cdb(
            [
                0xC1,  // opcode
                0x00,
                0x00,
                0x00,
                0x00,
                0x00,
            ],
        );
        assert(r.0@ =~= self.cdb_bytes());
        r
    }

    fn data(&self) -> (r: CommandData<'_>) {
        CommandData::NoData
    }

    fn decode(&self, _data: &[u8]) -> (r: Result<(), Error>) {
        Ok(())
    }
}

} // verus!
