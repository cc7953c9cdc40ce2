//! WRITE(10) for SCSI-2 scanner devices, the data-out counterpart of READ(10).

use super::DataTypeCode;
use crate::scsi::{bytes, cdbs, Cdb, Command, CommandData, DataPhase, Error};
use vstd::prelude::*;

verus! {

/// SCSI-2 scanner WRITE(10)
///
/// Mirrors [`Read`](super::Read) but sends data host->scanner: the same DTC/DTQ
/// select what is written (gamma LUT, calibration, ...), and the transfer length
/// is the payload size. Control byte is caller-supplied; unlike READ (which uses
/// the `0x80` vendor flag) WRITE uses `0x00` on this hardware.
pub struct Write {
    /// Logical unit number (3 bits)
    pub lun: u8,
    /// Data-type code
    pub dtc: DataTypeCode,
    /// Data-type qualifier
    pub dtq: u16,
    /// Data-out payload; its length is the CDB transfer length.
    pub payload: Vec<u8>,
    /// Control byte.
    pub control: u8,
}

impl Write {
    pub fn new(lun: u8, dtc: DataTypeCode, dtq: u16, payload: Vec<u8>, control: u8) -> (r: Self)
        ensures
            r == (Write { lun, dtc, dtq, payload, control }),
    {
        Write { lun, dtc, dtq, payload, control }
    }
}

/// The WRITE(10) descriptor block for `len` payload bytes; of the length the low 24 bits.
pub open spec fn write_cdb(lun: u8, dtc: DataTypeCode, dtq: u16, len: nat, control: u8) -> Seq<u8> {
    seq![
        0x2Au8,
        cdbs::lun_bits(lun),
        dtc.byte(),
        0x00u8,
        bytes::byte_of(dtq as int, 1),
        bytes::byte_of(dtq as int, 0),
        bytes::byte_of(len as int, 2),
        bytes::byte_of(len as int, 1),
        bytes::byte_of(len as int, 0),
        control,
    ]
}

impl Command for Write {
    type Response = ();
    type Cdb = Cdb<10>;

    open spec fn cdb_bytes(&self) -> Seq<u8> {
        write_cdb(self.lun, self.dtc, self.dtq, self.payload@.len(), self.control)
    }

    open spec fn phase(&self) -> DataPhase {
        DataPhase::Write(self.payload@)
    }

    open spec fn decodes(&self, data: Seq<u8>, response: Result<(), Error>) -> bool {
        response == Ok::<(), Error>(())
    }

    fn cdb(&self) -> (r: Cdb<10>) {
        let len: usize = self.payload.len();
        let r = Cdb(
            [
                0x2A,  // opcode
                self.lun % 8 * 32,
                self.dtc.to_byte(),
                0x00,  // reserved
                (self.dtq / 0x100) as u8,
                (self.dtq % 0x100) as u8,
                (len / 0x1_0000 % 0x100) as u8,
                (len / 0x100 % 0x100) as u8,
                (len % 0x100) as u8,
                self.control,
            ],
        );
        assert(r.0@ =~= self.cdb_bytes());
        r
    }

    fn data(&self) -> (r: CommandData<'_>) {
        CommandData::Write(self.payload.as_slice())
    }

    fn decode(&self, _data: &[u8]) -> (r: Result<(), Error>) {
        Ok(())
    }
}

} // verus!
