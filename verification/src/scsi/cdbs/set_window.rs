//! SET WINDOW(0x24), from SCSI-2 15.2.5

use crate::scsi::{bytes, Cdb, Command, CommandData, DataPhase, Error};
use vstd::prelude::*;

verus! {

/// SET WINDOW - configures scan geometry, resolution, bit depth and mode.
///
/// Required before every SCAN. The data-out payload is an 8-byte window
/// parameter header followed by one or more window descriptors; this type is a
/// thin CDB wrapper over that already-built payload. Constructing a valid
/// descriptor is the caller's job: its field layout is Nikon-specific and only
/// partly verified, so it lives with the scanner, not here.
///
/// Control byte is `0x80`, the Nikon vendor flag (not the SCSI-standard `0x00`).
pub struct SetWindow {
    /// Window parameter header + descriptor(s), sent verbatim.
    pub payload: Vec<u8>,
}

impl SetWindow {
    pub fn new(payload: Vec<u8>) -> (r: Self)
        ensures
            r == (SetWindow { payload }),
    {
        Self { payload }
    }
}

/// The SET WINDOW descriptor block for `len` payload bytes; of the length the low 24 bits.
pub open spec fn set_window_cdb(len: nat) -> Seq<u8> {
    seq![
        0x24u8,
        0x00u8,
        0x00u8,
        0x00u8,
        0x00u8,
        0x00u8,
        bytes::byte_of(len as int, 2),
        bytes::byte_of(len as int, 1),
        bytes::byte_of(len as int, 0),
        0x80u8,
    ]
}

impl Command for SetWindow {
    type Response = ();
    type Cdb = Cdb<10>;

    open spec fn cdb_bytes(&self) -> Seq<u8> {
        set_window_cdb(self.payload@.len())
    }

    open spec fn phase(&self) -> DataPhase {
        DataPhase::Write(self.payload@)
    }

    open spec fn decodes(&self, data: Seq<u8>, response: Result<(), Error>) -> bool {
        response == Ok::<(), Error>(())
    }

    fn cdb(&self) -> (r: Cdb<10>) {
        let len: usize = self.payload.len();
        let r = Cdb(
            [
                0x24,  // opcode
                0x00,
                0x00,
                0x00,
                0x00,
                0x00,
                (len / 0x1_0000 % 0x100) as u8,
                (len / 0x100 % 0x100) as u8,
                (len % 0x100) as u8,
                0x80,  // Nikon vendor control flag
            ],
        );
        assert(r.0@ =~= self.cdb_bytes());
        r
    }

    fn data(&self) -> (r: CommandData<'_>) {
        CommandData::Write(self.payload.as_slice())
    }

    fn decode(&self, _data: &[u8]) -> (r: Result<(), Error>) {
        Ok(())
    }
}

} // verus!
