//! Film-adapter detection.

use nkscan::scanners::ls50::holder::Holder;
use nkscan::scsi::cdbs::VpdPage;

fn page(data: Vec<u8>) -> VpdPage {
    VpdPage {
        page_code: Holder::SUPPORTED_PAGES_CODE,
        data,
    }
}

/// Standard pages always present.
const STD: [u8; 8] = [0x00, 0x01, 0x10, 0x40, 0x41, 0x50, 0x51, 0x52];

fn list(extra: &[u8]) -> VpdPage {
    let mut d = STD.to_vec();
    d.extend_from_slice(extra);
    page(d)
}

#[test]
fn bare_mount_is_none() {
    assert_eq!(
        Holder::from_supported_pages(&list(&[0xF8, 0xFA, 0xFB, 0xFC])),
        Holder::NoAdapter
    );
}

#[test]
fn strip() {
    assert_eq!(
        Holder::from_supported_pages(&list(&[0x43, 0x44, 0xE2])),
        Holder::Strip
    );
}

#[test]
fn mount_without_e2() {
    assert_eq!(Holder::from_supported_pages(&list(&[0x46])), Holder::Mount);
}

#[test]
fn feeder_is_mount_page_plus_e2() {
    assert_eq!(
        Holder::from_supported_pages(&list(&[0x46, 0xE2])),
        Holder::Feeder
    );
}

#[test]
fn six_strip() {
    assert_eq!(
        Holder::from_supported_pages(&list(&[0x47, 0xE2])),
        Holder::SixStrip
    );
}

#[test]
fn format_240() {
    assert_eq!(
        Holder::from_supported_pages(&list(&[0x45, 0xF1])),
        Holder::Format240
    );
}

#[test]
fn sa21_strip_feeder_real_capture() {
    // Real page-0x00 list, LS-50 + SA-21 feeder (captured 2026-07-22): 0x46 + 0xE2
    // → Feeder, base pages 0xF8/0xFB/0xFC present alongside.
    let real = page(vec![
        0x00, 0x01, 0x40, 0x41, 0x46, 0x50, 0x51, 0x60, 0x61, 0xC1, 0xD1, 0xE1, 0xF0, 0xF8,
        0xE2, 0xFB, 0xFC,
    ]);
    assert_eq!(Holder::from_supported_pages(&real), Holder::Feeder);
}

#[test]
fn wrong_page_code_is_unknown() {
    let mut p = list(&[0x43]);
    p.page_code = 0x01;
    assert_eq!(Holder::from_supported_pages(&p), Holder::Unknown);
}

#[test]
fn no_recognized_page_is_unknown() {
    assert_eq!(Holder::from_supported_pages(&list(&[])), Holder::Unknown);
}

#[test]
fn order_of_pages_does_not_matter() {
    assert_eq!(
        Holder::from_supported_pages(&page(vec![0xE2, 0x46, 0x00])),
        Holder::from_supported_pages(&page(vec![0x00, 0x46, 0xE2, 0x46]))
    );
}

#[test]
fn holders_have_names() {
    assert_eq!(Holder::NoAdapter.name(), "None");
    assert_eq!(Holder::Mount.name(), "Mount");
    assert_eq!(Holder::Strip.name(), "Strip");
    assert_eq!(Holder::SixStrip.name(), "SixStrip");
    assert_eq!(Holder::Format240.name(), "Format240");
    assert_eq!(Holder::Feeder.name(), "Feeder");
    assert_eq!(Holder::Unknown.name(), "Unknown");
}
