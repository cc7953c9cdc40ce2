//! The commands the scanners understand, one module per command.

use crate::scsi::bytes;
use vstd::prelude::*;

pub mod inquiry;
pub mod mode_select;
pub mod read;
pub mod scan;
pub mod send_diagnostic;
pub mod set_window;
pub mod test_unit_ready;
pub mod unit;
pub mod vendor_c1;
pub mod vendor_e0;
pub mod vendor_e1;
pub mod window;
pub mod write;

pub use inquiry::{Inquiry, InquiryResponse, VpdInquiry, VpdPage};
pub use mode_select::ModeSelect;
pub use read::{DataTypeCode, Read};
pub use scan::Scan;
pub use send_diagnostic::SendDiagnostic;
pub use set_window::SetWindow;
pub use test_unit_ready::TestUnitReady;
pub use unit::{ReleaseUnit, ReserveUnit};
pub use vendor_c1::VendorC1;
pub use vendor_e0::VendorE0;
pub use vendor_e1::VendorE1;
pub use window::{
    CompressionType, GetWindow, GetWindowHeader, GetWindowResponse, ImageCompositionCode,
    PaddingType, WindowDescriptor,
};
pub use write::Write;

verus! {

/// A logical unit number in the top three bits of a byte.
pub open spec fn lun_bits(lun: u8) -> u8 {
    (lun % 8 * 32) as u8
}

/// The number that three bytes of a descriptor block spell, most significant first.
pub open spec fn long_length(cdb: Seq<u8>, i: int) -> int {
    cdb[i] * 65536 + cdb[i + 1] * 256 + cdb[i + 2]
}

/// Descriptor blocks say how long their data is: in three bytes, or in one, as far as these hold
/// it.
pub proof fn lemma_lengths(lun: u8, dtc: DataTypeCode, dtq: u16, len: u32, id: u8, control: u8)
    ensures
        long_length(read::read_cdb(lun, dtc, dtq, len, control), 6) == len % 16777216,
        long_length(write::write_cdb(lun, dtc, dtq, len as nat, control), 6) == len % 16777216,
        long_length(set_window::set_window_cdb(len as nat), 6) == len % 16777216,
        long_length(window::get_window_cdb(lun, true, id, len, control), 6) == len % 16777216,
        long_length(window::get_window_cdb(lun, false, id, len, control), 6) == len % 16777216,
        long_length(vendor_e0::vendor_e0_cdb(id, len as nat), 6) == len % 16777216,
        long_length(vendor_e1::vendor_e1_cdb(id, len), 6) == len % 16777216,
        scan::scan_cdb(len as nat)[4] == len % 256,
        mode_select::mode_select_cdb(lun, true, false, len as nat, control)[4] == len % 256,
{
    lemma_three_bytes(len);
    assert(long_length(read::read_cdb(lun, dtc, dtq, len, control), 6) == three_bytes(len));
    assert(long_length(write::write_cdb(lun, dtc, dtq, len as nat, control), 6) == three_bytes(len));
    assert(long_length(set_window::set_window_cdb(len as nat), 6) == three_bytes(len));
    assert(long_length(window::get_window_cdb(lun, true, id, len, control), 6) == three_bytes(len));
    assert(long_length(window::get_window_cdb(lun, false, id, len, control), 6) == three_bytes(len));
    assert(long_length(vendor_e0::vendor_e0_cdb(id, len as nat), 6) == three_bytes(len));
    assert(long_length(vendor_e1::vendor_e1_cdb(id, len), 6) == three_bytes(len));
}

/// The number that the three low bytes of a length spell.
#[verifier::opaque]
spec fn three_bytes(len: u32) -> int {
    bytes::byte_of(len as int, 2) * 65536 + bytes::byte_of(len as int, 1) * 256 + bytes::byte_of(
        len as int,
        0,
    )
}

/// Three bytes hold a length but for what exceeds them.
proof fn lemma_three_bytes(len: u32)
    ensures
        three_bytes(len) == len % 16777216,
        three_bytes(len) == bytes::byte_of(len as int, 2) * 65536 + bytes::byte_of(len as int, 1)
            * 256 + bytes::byte_of(len as int, 0),
{
    reveal(three_bytes);
}

/// Reading and writing name the logical unit in the top three bits of byte 1, what kind of data
/// it is in byte 2, and which of that kind in bytes 4 and 5; byte 9 is the control byte.
pub proof fn lemma_transfer_fields(
    lun: u8,
    dtc: DataTypeCode,
    dtq: u16,
    len: u32,
    control: u8,
)
    ensures
        ({
            let r = read::read_cdb(lun, dtc, dtq, len, control);
            let w = write::write_cdb(lun, dtc, dtq, len as nat, control);
            &&& r.len() == 10 && w.len() == 10
            &&& r[0] == 0x28 && w[0] == 0x2A
            &&& lun < 8 ==> r[1] == lun * 32 && w[1] == lun * 32
            &&& r[2] == w[2] && (dtc matches DataTypeCode::Vendor(code) ==> r[2] == code)
            &&& dtc is Image ==> r[2] == 0
            &&& dtc is HalftoneMask ==> r[2] == 2
            &&& dtc is GammaFunction ==> r[2] == 3
            &&& r[3] == 0 && w[3] == 0
            &&& r[4] * 256 + r[5] == dtq && w[4] * 256 + w[5] == dtq
            &&& r[9] == control && w[9] == control
        }),
{
}

} // verus!
