//! The LS-50's geometry, state and adapter.

use nkscan::scanners::ls50::holder::Holder;
use nkscan::scanners::ls50::status::Status;
use nkscan::scanners::ls50::{parse_caps, AdapterCaps, Ls50, ScanSettings};
use nkscan::scsi::cdbs::VpdPage;
use nkscan::scsi::{DataDirection, Error, SenseData, Transport};

/// In-test transport: TUR from `tur_sense` (`None` = GOOD), INQUIRY/EVPD from
/// `vpd` raw bytes.
struct MockTransport {
    tur_sense: Option<SenseData>,
    vpd: Vec<u8>,
}

impl Transport for MockTransport {
    fn execute(
        &mut self,
        cdb: &[u8],
        _direction: DataDirection,
        data: &mut [u8],
        _sense: &mut [u8],
    ) -> Result<(), Error> {
        match cdb[0] {
            0x00 => match self.tur_sense {
                None => Ok(()),
                Some(sense) => Err(Error::Status {
                    status: 0x02,
                    sense: Some(sense),
                }),
            },
            0x12 => {
                let n = self.vpd.len().min(data.len());
                data[..n].copy_from_slice(&self.vpd[..n]);
                Ok(())
            }
            other => panic!("unexpected opcode {other:#04x}"),
        }
    }

    fn pause(&mut self, _millis: u64) {}
}

/// Build a VPD page 0x00 response: 4-byte header + supported-page codes.
fn vpd_page0(codes: &[u8]) -> Vec<u8> {
    let mut v = vec![0x06, 0x00, 0x00, codes.len() as u8];
    v.extend_from_slice(codes);
    v
}

#[test]
fn geometry_snaps_dpi_to_grid() {
    let s = ScanSettings {
        dpi: 300,
        infrared: false,
        samples: 1,
        autoexposure: false,
        autofocus: false,
        caps: AdapterCaps::default(),
    };
    assert_eq!(s.res(), 307);
    assert_eq!(s.output_dims(), (303, 458));
    assert_eq!(s.native_dims(), (3939, 5954));
    assert_eq!(s.n_colors(), 3);
    // 3 planes * even(303)=304 * 2 bytes/sample = 1824 -> block-padded to 2048.
    assert_eq!(s.bytes_per_line(), 2048);
    assert_eq!(s.expected_bytes(), 2048 * 458);
}

#[test]
fn infrared_adds_a_fourth_plane() {
    let s = ScanSettings {
        dpi: 300,
        infrared: true,
        samples: 1,
        autoexposure: false,
        autofocus: false,
        caps: AdapterCaps::default(),
    };
    // 4 planes: 4 * 304 * 2 = 2432 -> block-padded to 2560.
    assert_eq!(s.output_dims(), (303, 458));
    assert_eq!(s.n_colors(), 4);
    assert_eq!(s.bytes_per_line(), 2560);
    assert_eq!(s.expected_bytes(), 2560 * 458);
}

#[test]
fn status_ready_on_good() {
    let mut s = Ls50::new(MockTransport {
        tur_sense: None,
        vpd: vec![],
    });
    assert_eq!(s.status().unwrap(), Status::Ready);
}

#[test]
fn status_classifies_no_film() {
    let mut s = Ls50::new(MockTransport {
        tur_sense: Some(SenseData {
            key: 0x02,
            asc: 0x3A,
            ascq: 0x00,
            ili: false,
            deferred: false,
        }),
        vpd: vec![],
    });
    assert_eq!(s.status().unwrap(), Status::NoFilm);
}

#[test]
fn status_propagates_real_errors() {
    // An unmapped sense triple must surface as an error, not a state.
    let mut s = Ls50::new(MockTransport {
        tur_sense: Some(SenseData {
            key: 0x05,
            asc: 0x24,
            ascq: 0x00,
            ili: false,
            deferred: false,
        }),
        vpd: vec![],
    });
    assert!(s.status().is_err());
}

#[test]
fn holder_decodes_from_vpd() {
    let mut s = Ls50::new(MockTransport {
        tur_sense: None,
        vpd: vpd_page0(&[0x00, 0x01, 0x43, 0x44, 0xE2]),
    });
    assert_eq!(s.holder().unwrap(), Holder::Strip);
}

#[test]
fn parse_caps_reads_geometry_and_frames() {
    // Header-stripped page 0xc1 (SANE offset - 4): boundaryx BE32 @32, resy_max
    // BE16 @38, boundaryy BE32 @54, n_frames @71. native = boundary - 1.
    let mut data = vec![0u8; 83];
    data[32..36].copy_from_slice(&3946u32.to_be_bytes());
    data[38..40].copy_from_slice(&4000u16.to_be_bytes());
    data[54..58].copy_from_slice(&5959u32.to_be_bytes());
    data[71] = 6;
    let page = VpdPage {
        page_code: 0xC1,
        data,
    };
    assert_eq!(
        parse_caps(&page),
        AdapterCaps {
            n_frames: 6,
            base_res: 4000,
            native_x: 3945,
            native_y: 5958,
        }
    );
}

#[test]
fn parse_caps_falls_back_when_short_or_zero() {
    // Too short and all-zero pages both yield the defaults (zeros are filtered).
    let short = VpdPage {
        page_code: 0xC1,
        data: vec![0u8; 10],
    };
    let zeros = VpdPage {
        page_code: 0xC1,
        data: vec![0u8; 83],
    };
    assert_eq!(parse_caps(&short), AdapterCaps::default());
    assert_eq!(parse_caps(&zeros), AdapterCaps::default());
}

#[test]
fn geometry_follows_caps() {
    // Non-default native area flows through pitch/output/native dims.
    let s = ScanSettings {
        dpi: 4000,
        infrared: false,
        samples: 1,
        autoexposure: false,
        autofocus: false,
        caps: AdapterCaps {
            n_frames: 0,
            base_res: 4000,
            native_x: 2000,
            native_y: 4000,
        },
    };
    assert_eq!(s.pitch(), 1); // 4000 / 4000
    assert_eq!(s.output_dims(), (2000, 4000)); // native / pitch
    assert_eq!(s.native_dims(), (2000, 4000));
}

fn at_dpi(dpi: u16) -> ScanSettings {
    ScanSettings {
        dpi,
        infrared: false,
        samples: 1,
        autoexposure: false,
        autofocus: false,
        caps: AdapterCaps::default(),
    }
}

#[test]
fn pitch_is_the_nearest_grid_step() {
    // 4000 / 1600 = 2.5 rounds up, 4000 / 1601 rounds down.
    assert_eq!(at_dpi(1600).pitch(), 3);
    assert_eq!(at_dpi(1601).pitch(), 2);
    assert_eq!(at_dpi(9000).pitch(), 1);
    assert_eq!(at_dpi(2).pitch(), 2000);
    assert_eq!(at_dpi(0).pitch(), u32::MAX);
    let mut none = at_dpi(0);
    none.caps.base_res = 0;
    assert_eq!(none.pitch(), 1);
}

#[test]
fn window_covers_whole_pixels_only() {
    let s = at_dpi(1333);
    assert_eq!(s.pitch(), 3);
    assert_eq!(s.output_dims(), (1315, 1986));
    assert_eq!(s.native_dims(), (3945, 5958));
    assert_eq!(s.res(), 1333);
}

#[test]
fn geometry_that_does_not_fit_is_told() {
    let mut s = at_dpi(4000);
    assert!(s.fits());
    s.caps.native_x = u32::MAX - 1;
    s.caps.native_y = u32::MAX - 1;
    assert!(!s.fits());
    assert!(at_dpi(300).strip_fits(6, 7));
    assert!(!at_dpi(300).strip_fits(u32::MAX, 0));
    assert!(!at_dpi(300).strip_fits(1, u32::MAX));
    let mut flat = at_dpi(300);
    flat.caps.native_x = 0;
    assert!(!flat.strip_fits(1, 0));
    assert!(flat.strip_fits(0, 0));
}

#[test]
fn identity_is_read_from_inquiry() {
    let mut vpd = vec![0u8; 36];
    vpd[8..16].copy_from_slice(b"Nikon   ");
    vpd[16..32].copy_from_slice(b"LS-50 ED        ");
    vpd[32..36].copy_from_slice(b"2.03");
    let mut s = Ls50::new(MockTransport {
        tur_sense: None,
        vpd,
    });
    let identity = s.inquiry().unwrap();
    assert_eq!(identity.vendor, "Nikon");
    assert_eq!(identity.product, "LS-50 ED");
    assert_eq!(identity.revision, "2.03");
}

#[test]
fn caps_are_read_from_their_page() {
    let mut vpd = vec![0u8; 87];
    vpd[1] = 0xC1;
    vpd[3] = 83;
    vpd[36..40].copy_from_slice(&2001u32.to_be_bytes());
    vpd[42..44].copy_from_slice(&2900u16.to_be_bytes());
    vpd[58..62].copy_from_slice(&4001u32.to_be_bytes());
    vpd[75] = 4;
    let mut s = Ls50::new(MockTransport {
        tur_sense: None,
        vpd,
    });
    assert_eq!(
        s.caps(),
        AdapterCaps {
            n_frames: 4,
            base_res: 2900,
            native_x: 2000,
            native_y: 4000,
        }
    );
}
