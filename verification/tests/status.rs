//! Readiness states.

use nkscan::scanners::ls50::status::Status;
use nkscan::scsi::{Error, SenseData};

fn sense(key: u8, asc: u8, ascq: u8) -> SenseData {
    SenseData {
        key,
        asc,
        ascq,
        ili: false,
        deferred: false,
    }
}

#[test]
fn recognizes_initializing() {
    assert_eq!(
        Status::from_sense(&sense(0x02, 0x04, 0x01)),
        Some(Status::Initializing)
    );
}

#[test]
fn recognizes_needs_init() {
    assert_eq!(
        Status::from_sense(&sense(0x02, 0x04, 0x02)),
        Some(Status::NeedsInit)
    );
}

#[test]
fn recognizes_no_film() {
    assert_eq!(
        Status::from_sense(&sense(0x02, 0x3A, 0x00)),
        Some(Status::NoFilm)
    );
}

#[test]
fn recognizes_ejecting() {
    assert_eq!(
        Status::from_sense(&sense(0x02, 0x05, 0x00)),
        Some(Status::Ejecting)
    );
}

#[test]
fn recognizes_cold_start_unit_attentions() {
    // Real cold start drains these in order before GOOD.
    assert_eq!(
        Status::from_sense(&sense(0x06, 0x29, 0x00)),
        Some(Status::Reset)
    );
    assert_eq!(
        Status::from_sense(&sense(0x06, 0x28, 0x00)),
        Some(Status::MediumChanged)
    );
    assert_eq!(
        Status::from_sense(&sense(0x06, 0x3F, 0x03)),
        Some(Status::HolderChanged)
    );
}

#[test]
fn ls9000_reset_code_is_not_a_state_here() {
    // 06/3F/04 is the LS-9000's reset code, not the LS-50's.
    assert_eq!(Status::from_sense(&sense(0x06, 0x3F, 0x04)), None);
}

#[test]
fn unrecognized_sense_is_not_a_state() {
    assert_eq!(Status::from_sense(&sense(0x05, 0x24, 0x00)), None);
}

#[test]
fn states_are_told_from_outcomes() {
    assert_eq!(Status::from_outcome(Ok(())), Ok(Status::Ready));
    let failed = |sense| Error::Status { status: 0x02, sense };
    assert_eq!(
        Status::from_outcome(Err(failed(Some(sense(0x02, 0x05, 0x00))))),
        Ok(Status::Ejecting)
    );
    assert_eq!(Status::from_outcome(Err(failed(None))), Err(failed(None)));
    let link = Error::Link("gone".into());
    assert_eq!(Status::from_outcome(Err(link.clone())), Err(link));
}

#[test]
fn states_have_names() {
    for status in [
        Status::Ready,
        Status::Initializing,
        Status::NeedsInit,
        Status::NoFilm,
        Status::Ejecting,
        Status::Reset,
        Status::MediumChanged,
        Status::HolderChanged,
    ] {
        assert_eq!(status.name(), format!("{status:?}"));
    }
}
