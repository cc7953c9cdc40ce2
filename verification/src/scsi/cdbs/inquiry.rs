//! INQUIRY(0x12), from SCSI-2 8.2.5: the standard identity and the vital product data pages.

use crate::scsi::{Cdb, Command, CommandData, DataPhase, Error};
use crate::text;
use vstd::prelude::*;

verus! {

/// Bytes of the standard INQUIRY data up to and with the product revision.
pub const INQUIRY_LEN: u8 = 36;

/// INQUIRY - asks the device who it is.
#[derive(Debug, Default)]
pub struct Inquiry;

impl Inquiry {
    pub fn new() -> (r: Self)
        ensures
            r == Inquiry,
    {
        Inquiry
    }
}

/// The identity in standard INQUIRY data.
#[derive(Debug, Clone, PartialEq, Eq)]
pub struct InquiryResponse {
    /// Vendor identification
    pub vendor: String,
    /// Product identification
    pub product: String,
    /// Product revision level
    pub revision: String,
}

/// The INQUIRY descriptor block; with a page, the block that asks for that page.
pub open spec fn inquiry_cdb(page: Option<u8>, allocation_length: u8) -> Seq<u8> {
    seq![
        0x12u8,
        if page is Some { 0x01u8 } else { 0x00u8 },
        match page {
            Some(code) => code,
            None => 0x00u8,
        },
        0x00u8,
        allocation_length,
        0x00u8,
    ]
}

impl Command for Inquiry {
    type Response = InquiryResponse;
    type Cdb = Cdb<6>;

    open spec fn cdb_bytes(&self) -> Seq<u8> {
        inquiry_cdb(None, INQUIRY_LEN)
    }

    open spec fn phase(&self) -> DataPhase {
        DataPhase::Read(INQUIRY_LEN as nat)
    }

    open spec fn decodes(&self, data: Seq<u8>, response: Result<InquiryResponse, Error>) -> bool {
        if data.len() < INQUIRY_LEN {
            response == Err::<InquiryResponse, Error>(
                Error::InvalidResponse("INQUIRY response shorter than the standard 36 bytes"),
            )
        } else {
            &&& response matches Ok(identity)
            &&& identity.vendor@ == text::padded_field(data.subrange(8, 16))
            &&& identity.product@ == text::padded_field(data.subrange(16, 32))
            &&& identity.revision@ == text::padded_field(data.subrange(32, 36))
        }
    }

    fn cdb(&self) -> (r: Cdb<6>) {
        let r = Cdb([0x12, 0x00, 0x00, 0x00, INQUIRY_LEN, 0x00]);
        assert(r.0@ =~= self.cdb_bytes());
        r
    }

    fn data(&self) -> (r: CommandData<'_>) {
        CommandData::Read(INQUIRY_LEN as usize)
    }

    fn decode(&self, data: &[u8]) -> (r: Result<InquiryResponse, Error>) {
        if data.len() < INQUIRY_LEN as usize {
            return Err(
                Error::InvalidResponse("INQUIRY response shorter than the standard 36 bytes"),
            );
        }
        Ok(
            InquiryResponse {
                vendor: text::read_padded_field(vstd::slice::slice_subrange(data, 8, 16)),
                product: text::read_padded_field(vstd::slice::slice_subrange(data, 16, 32)),
                revision: text::read_padded_field(vstd::slice::slice_subrange(data, 32, 36)),
            },
        )
    }
}

/// INQUIRY with the EVPD bit: asks for one vital product data page.
#[derive(Debug, Clone, Copy)]
pub struct VpdInquiry {
    /// Page code
    pub page: u8,
    /// Bytes we are willing to receive, the 4-byte page header among them
    pub allocation_length: u8,
}

impl VpdInquiry {
    pub fn new(page: u8, allocation_length: u8) -> (r: Self)
        ensures
            r == (VpdInquiry { page, allocation_length }),
    {
        VpdInquiry { page, allocation_length }
    }
}

/// A vital product data page without its 4-byte header.
#[derive(Debug, Clone, PartialEq, Eq)]
pub struct VpdPage {
    pub page_code: u8,
    pub data: Vec<u8>,
}

/// What the page in a response holds after its header: as many bytes as the header's length
/// byte says, or as many as came.
pub open spec fn vpd_data(response: Seq<u8>) -> Seq<u8> {
    let end = 4 + response[3];
    response.subrange(4, if end <= response.len() { end as int } else { response.len() as int })
}

impl Command for VpdInquiry {
    type Response = VpdPage;
    type Cdb = Cdb<6>;

    open spec fn cdb_bytes(&self) -> Seq<u8> {
        inquiry_cdb(Some(self.page), self.allocation_length)
    }

    open spec fn phase(&self) -> DataPhase {
        DataPhase::Read(self.allocation_length as nat)
    }

    open spec fn decodes(&self, data: Seq<u8>, response: Result<VpdPage, Error>) -> bool {
        if data.len() < 4 {
            response == Err::<VpdPage, Error>(
                Error::InvalidResponse("VPD page shorter than the 4-byte header"),
            )
        } else {
            &&& response matches Ok(page)
            &&& page.page_code == data[1]
            &&& page.data@ == vpd_data(data)
        }
    }

    fn cdb(&self) -> (r: Cdb<6>) {
        let r = Cdb([0x12, 0x01, self.page, 0x00, self.allocation_length, 0x00]);
        assert(r.0@ =~= self.cdb_bytes());
        r
    }

    fn data(&self) -> (r: CommandData<'_>) {
        CommandData::Read(self.allocation_length as usize)
    }

    fn decode(&self, data: &[u8]) -> (r: Result<VpdPage, Error>) {
        if data.len() < 4 {
            return Err(Error::InvalidResponse("VPD page shorter than the 4-byte header"));
        }
        let end: usize = 4 + data[3] as usize;
        let end: usize = if end <= data.len() { end } else { data.len() };
        Ok(
            VpdPage {
                page_code: data[1],
                data: vstd::slice::slice_to_vec(vstd::slice::slice_subrange(data, 4, end)),
            },
        )
    }
}

} // verus!
