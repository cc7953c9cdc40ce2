//! VENDOR 0xE0 - Nikon control write.

use crate::scsi::{bytes, Cdb, Command, CommandData, DataPhase, Error};
use vstd::prelude::*;

verus! {

/// VENDOR E0 - writes control parameters to the scanner (focus, exposure, lamp,
/// CCD setup, ...). The sub-command byte selects the register; C1 then triggers
/// the operation (the `E0 -> C1 -> E1` cycle). The data-out payload holds the
/// register value (empty for trigger-only sub-commands like 0x80 lamp on/off).
pub struct VendorE0 {
    pub sub: u8,
    pub payload: Vec<u8>,
}

impl VendorE0 {
    pub fn new(sub: u8, payload: Vec<u8>) -> (r: Self)
        ensures
            r == (VendorE0 { sub, payload }),
    {
        Self { sub, payload }
    }
}

/// The VENDOR E0 descriptor block for `len` payload bytes; of the length the low 24 bits.
pub open spec fn vendor_e0_cdb(sub: u8, len: nat) -> Seq<u8> {
    seq![
        0xE0u8,
        0x00u8,
        sub,
        0x00u8,
        0x00u8,
        0x00u8,
        bytes::byte_of(len as int, 2),
        bytes::byte_of(len as int, 1),
        bytes::byte_of(len as int, 0),
        0x00u8,
    ]
}

impl Command for VendorE0 {
    type Response = ();
    type Cdb = Cdb<10>;

    open spec fn cdb_bytes(&self) -> Seq<u8> {
        vendor_e0_cdb(self.sub, self.payload@.len())
    }

    open spec fn phase(&self) -> DataPhase {
        DataPhase::Write(self.payload@)
    }

    open spec fn decodes(&self, data: Seq<u8>, response: Result<(), Error>) -> bool {
        response == Ok::<(), Error>(())
    }

    fn cdb(&self) -> (r: Cdb<10>) {
        let len: usize = self.payload.len();
        let r = Cdb(
            [
                0xE0,  // opcode
                0x00,
                self.sub,  // sub-command / register id
                0x00,
                0x00,
                0x00,
                (len / 0x1_0000 % 0x100) as u8,
                (len / 0x100 % 0x100) as u8,
                (len % 0x100) as u8,
                0x00,  // control
            ],
        );
        assert(r.0@ =~= self.cdb_bytes());
        r
    }

    fn data(&self) -> (r: CommandData<'_>) {
        CommandData::Write(self.payload.as_slice())
    }

    fn decode(&self, _data: &[u8]) -> (r: Result<(), Error>) {
        Ok(())
    }
}

} // verus!
