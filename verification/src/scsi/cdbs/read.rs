//! READ(10) for SCSI-2 scanner devices, from 15.2.4

use crate::scsi::{bytes, cdbs, Cdb, Command, CommandData, DataPhase, Error};
use vstd::prelude::*;

verus! {

/// SCSI-2 scanner READ(10)
///
/// DTC/DTQ key what kind of read operation this really is and is vendor-specific
pub struct Read {
    /// Logical unit number (3 bits)
    pub lun: u8,
    /// Data-type code
    pub dtc: DataTypeCode,
    /// Data-type qualifier
    pub dtq: u16,
    /// Transfer length in bytes (really u24)
    pub transfer_length: u32,
    /// Control byte. Bits 7-6 are vendor-specific.
    pub control: u8,
}

impl Read {
    pub fn new(lun: u8, dtc: DataTypeCode, dtq: u16, transfer_length: u32, control: u8) -> (r: Self)
        ensures
            r == (Read { lun, dtc, dtq, transfer_length, control }),
    {
        Read { lun, dtc, dtq, transfer_length, control }
    }
}

/// What kind of data a READ or WRITE moves.
#[derive(Debug, Copy, Clone, PartialEq, Eq)]
pub enum DataTypeCode {
    Image,
    HalftoneMask,
    GammaFunction,
    Vendor(u8),
}

impl DataTypeCode {
    /// The code's byte in a descriptor block.
    pub open spec fn byte(self) -> u8 {
        match self {
            DataTypeCode::Image => 0x00,
            DataTypeCode::HalftoneMask => 0x02,
            DataTypeCode::GammaFunction => 0x03,
            DataTypeCode::Vendor(x) => x,
        }
    }

    pub fn to_byte(self) -> (r: u8)
        ensures
            r == self.byte(),
    {
        match self {
            DataTypeCode::Image => 0x00,
            DataTypeCode::HalftoneMask => 0x02,
            DataTypeCode::GammaFunction => 0x03,
            DataTypeCode::Vendor(x) => x,
        }
    }
}

/// The READ(10) descriptor block; of the transfer length the low 24 bits.
pub open spec fn read_cdb(
    lun: u8,
    dtc: DataTypeCode,
    dtq: u16,
    transfer_length: u32,
    control: u8,
) -> Seq<u8> {
    seq![
        0x28u8,
        cdbs::lun_bits(lun),
        dtc.byte(),
        0x00u8,
        bytes::byte_of(dtq as int, 1),
        bytes::byte_of(dtq as int, 0),
        bytes::byte_of(transfer_length as int, 2),
        bytes::byte_of(transfer_length as int, 1),
        bytes::byte_of(transfer_length as int, 0),
        control,
    ]
}

impl Command for Read {
    type Response = Vec<u8>;
    type Cdb = Cdb<10>;

    open spec fn cdb_bytes(&self) -> Seq<u8> {
        read_cdb(self.lun, self.dtc, self.dtq, self.transfer_length, self.control)
    }

    open spec fn phase(&self) -> DataPhase {
        DataPhase::Read(self.transfer_length as nat)
    }

    open spec fn decodes(&self, data: Seq<u8>, response: Result<Vec<u8>, Error>) -> bool {
        response matches Ok(bytes) && bytes@ == data
    }

    fn cdb(&self) -> (r: Cdb<10>) {
        let len: u32 = self.transfer_length;
        let r = Cdb(
            [
                0x28,  // opcode
                self.lun % 8 * 32,
                self.dtc.to_byte(),
                0x00,  // reserved
                (self.dtq / 0x100) as u8,
                (self.dtq % 0x100) as u8,
                (len / 0x1_0000 % 0x100) as u8,
                (len / 0x100 % 0x100) as u8,
                (len % 0x100) as u8,
                self.control,
            ],
        );
        assert(r.0@ =~= self.cdb_bytes());
        r
    }

    fn data(&self) -> (r: CommandData<'_>) {
        CommandData::Read(self.transfer_length as usize)
    }

    fn decode(&self, data: &[u8]) -> (r: Result<Vec<u8>, Error>) {
        Ok(vstd::slice::slice_to_vec(data))
    }
}

} // verus!
