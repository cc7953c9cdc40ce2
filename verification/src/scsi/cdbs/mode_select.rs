//! MODE SELECT(6) (0x15), from SCSI-2 8.2.8

use crate::scsi::{bytes, cdbs, Cdb, Command, CommandData, DataPhase, Error};
use vstd::prelude::*;

verus! {

/// MODE SELECT(6) - sets operating parameters from the mode pages in its payload.
pub struct ModeSelect {
    /// Logical unit number (3 bits)
    pub lun: u8,
    /// Page format: the payload holds mode pages
    pub page_format: bool,
    /// Save the pages beyond a power cycle
    pub save_pages: bool,
    /// Parameter list, sent verbatim; its length is the CDB parameter list length.
    pub payload: Vec<u8>,
    /// Control byte.
    pub control: u8,
}

impl ModeSelect {
    pub fn new(
        lun: u8,
        page_format: bool,
        save_pages: bool,
        payload: Vec<u8>,
        control: u8,
    ) -> (r: Self)
        ensures
            r == (ModeSelect { lun, page_format, save_pages, payload, control }),
    {
        ModeSelect { lun, page_format, save_pages, payload, control }
    }
}

/// The MODE SELECT(6) descriptor block for `len` payload bytes; of the length the low 8 bits.
pub open spec fn mode_select_cdb(
    lun: u8,
    page_format: bool,
    save_pages: bool,
    len: nat,
    control: u8,
) -> Seq<u8> {
    seq![
        0x15u8,
        (cdbs::lun_bits(lun) + if page_format { 0x10int } else { 0 } + if save_pages {
            0x01int
        } else {
            0
        }) as u8,
        0x00u8,
        0x00u8,
        bytes::byte_of(len as int, 0),
        control,
    ]
}

impl Command for ModeSelect {
    type Response = ();
    type Cdb = Cdb<6>;

    open spec fn cdb_bytes(&self) -> Seq<u8> {
        mode_select_cdb(
            self.lun,
            self.page_format,
            self.save_pages,
            self.payload@.len(),
            self.control,
        )
    }

    open spec fn phase(&self) -> DataPhase {
        DataPhase::Write(self.payload@)
    }

    open spec fn decodes(&self, data: Seq<u8>, response: Result<(), Error>) -> bool {
        response == Ok::<(), Error>(())
    }

    fn cdb(&self) -> (r: Cdb<6>) {
        let page_format: u8 = if self.page_format { 0x10 } else { 0x00 };
        let save_pages: u8 = if self.save_pages { 0x01 } else { 0x00 };
        let r = Cdb(
            [
                0x15,  // opcode
                self.lun % 8 * 32 + page_format + save_pages,
                0x00,  // reserved
                0x00,  // reserved
                (self.payload.len() % 0x100) as u8,  // parameter list length
                self.control,
            ],
        );
        assert(r.0@ =~= self.cdb_bytes());
        r
    }

    fn data(&self) -> (r: CommandData<'_>) {
        CommandData::Write(self.payload.as_slice())
    }

    fn decode(&self, _data: &[u8]) -> (r: Result<(), Error>) {
        Ok(())
    }
}

} // verus!
