//! VENDOR 0xE1 - Nikon sensor/status read.

use crate::scsi::{bytes, Cdb, Command, CommandData, DataPhase, Error};
use vstd::prelude::*;

verus! {

/// VENDOR E1 - reads sensor/status registers (motor position, exposure, focus,
/// lamp, CCD setup). Data-in counterpart to [`VendorE0`](super::VendorE0) and
/// the result side of the `E0 -> C1 -> E1` cycle. Read-only: it moves nothing.
/// The firmware rejects a requested length above 13 bytes (sense 0x50).
pub struct VendorE1 {
    pub sub: u8,
    pub allocation_length: u32,
}

impl VendorE1 {
    pub fn new(sub: u8, allocation_length: u32) -> (r: Self)
        ensures
            r == (VendorE1 { sub, allocation_length }),
    {
        Self { sub, allocation_length }
    }
}

/// The VENDOR E1 descriptor block; of the allocation length the low 24 bits.
pub open spec fn vendor_e1_cdb(sub: u8, allocation_length: u32) -> Seq<u8> {
    seq![
        0xE1u8,
        0x00u8,
        sub,
        0x00u8,
        0x00u8,
        0x00u8,
        bytes::byte_of(allocation_length as int, 2),
        bytes::byte_of(allocation_length as int, 1),
        bytes::byte_of(allocation_length as int, 0),
        0x00u8,
    ]
}

impl Command for VendorE1 {
    type Response = Vec<u8>;
    type Cdb = Cdb<10>;

    open spec fn cdb_bytes(&self) -> Seq<u8> {
        vendor_e1_cdb(self.sub, self.allocation_length)
    }

    open spec fn phase(&self) -> DataPhase {
        DataPhase::Read(self.allocation_length as nat)
    }

    open spec fn decodes(&self, data: Seq<u8>, response: Result<Vec<u8>, Error>) -> bool {
        response matches Ok(bytes) && bytes@ == data
    }

    fn cdb(&self) -> (r: Cdb<10>) {
        let len: u32 = self.allocation_length;
        let r = Cdb(
            [
                0xE1,  // opcode
                0x00,
                self.sub,  // sub-command / register id
                0x00,
                0x00,
                0x00,
                (len / 0x1_0000 % 0x100) as u8,
                (len / 0x100 % 0x100) as u8,
                (len % 0x100) as u8,
                0x00,  // control
            ],
        );
        assert(r.0@ =~= self.cdb_bytes());
        r
    }

    fn data(&self) -> (r: CommandData<'_>) {
        CommandData::Read(self.allocation_length as usize)
    }

    fn decode(&self, data: &[u8]) -> (r: Result<Vec<u8>, Error>) {
        Ok(vstd::slice::slice_to_vec(data))
    }
}

} // verus!
