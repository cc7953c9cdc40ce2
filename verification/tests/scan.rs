//! The LS-50 scan drive, against scripted devices.

use nkscan::scanners::ls50::decode::PlanarDecoder;
use nkscan::scanners::ls50::scan::{
    autofocus_payload, build_gamma_lut, build_window, channels, pitch_native, EXPOSURE_10NS,
    IR_CHANNEL,
};
use nkscan::scanners::ls50::status::Status;
use nkscan::scanners::ls50::{AdapterCaps, Ls50, ScanError, ScanSettings};
use nkscan::scsi::cdbs::{GetWindow, ImageCompositionCode};
use nkscan::scsi::{Command, CommandData, DataDirection, Error, SenseData, Transport};

/// Samples to their big-endian wire bytes (2 bytes each), as the scanner sends.
fn be_line(samples: &[u16]) -> Vec<u8> {
    samples.iter().flat_map(|s| s.to_be_bytes()).collect()
}

/// Scripts the scan exchange: SET WINDOW asserts the scan-mode byte (0x01/0x20) and
/// per-pass exposure, SCAN returns GOOD, READ returns one padded line until exhausted
/// (then end-of-data). A channel-selected GET WINDOW serves `measured_exposure`.
struct ScanMock {
    image: Vec<u8>,
    cursor: usize,
    /// Logical bytes per line; the mock returns one line per READ, padded to
    /// the requested block length, as the scanner does.
    line_len: usize,
    wrote_lut: bool,
    set_windows: usize,
    scans: u32,
    /// Per-channel exposure the real (non-AE) pass must carry in SET WINDOW.
    expect_exposure: [u32; 3],
    /// Firmware-measured exposure served by a channel-selected GET WINDOW;
    /// `None` = no autoexposure in play.
    measured_exposure: Option<[u32; 3]>,
    /// The last `E0 0xA0` autofocus data-out payload seen, if any.
    af_payload: Option<Vec<u8>>,
}

impl Transport for ScanMock {
    fn execute(
        &mut self,
        cdb: &[u8],
        _direction: DataDirection,
        data: &mut [u8],
        _sense: &mut [u8],
    ) -> Result<(), Error> {
        match cdb[0] {
            // TUR / RESERVE / RELEASE / SEND DIAG / MODE SELECT / E1 / C1
            0x00 | 0x16 | 0x17 | 0x1D | 0x15 | 0xE1 | 0xC1 => Ok(()),
            // VENDOR E0: capture the autofocus (sub 0xA0) data-out payload.
            0xE0 => {
                if cdb[2] == 0xA0 {
                    self.af_payload = Some(data.to_vec());
                }
                Ok(())
            }
            // INQUIRY / EVPD adapter-detection: any header-sized response.
            0x12 => {
                data.fill(0);
                Ok(())
            }
            // WRITE(10) gamma LUT — uploaded before SET WINDOW.
            0x2A => {
                self.wrote_lut = true;
                Ok(())
            }
            // SET WINDOW: scan-mode byte 0x01 (normal) or 0x20 (AE pass). Only the
            // real pass (0x01) carries the exposure under test; the AE pass isn't
            // asserted (it just seeds the fixed default).
            0x24 => {
                let d = &data[8..];
                assert!(
                    matches!(d[42], 0x01 | 0x20),
                    "SET WINDOW #{} scan-mode byte {:#04x}",
                    self.set_windows,
                    d[42]
                );
                if d[42] == 0x01 {
                    let exp = u32::from_be_bytes(d[46..50].try_into().unwrap());
                    let want = self
                        .expect_exposure
                        .get(self.set_windows)
                        .copied()
                        .unwrap_or(0);
                    assert_eq!(exp, want, "SET WINDOW #{} exposure", self.set_windows);
                }
                self.set_windows += 1;
                Ok(())
            }
            // SCAN — the gamma LUT must have been uploaded first. Each SCAN is a
            // fresh pass: rewind the image and the window counter so a strip
            // drains one image per frame.
            0x1B => {
                assert!(self.wrote_lut, "SCAN issued before the gamma LUT");
                self.scans += 1;
                self.cursor = 0;
                self.set_windows = 0;
                Ok(())
            }
            // GET WINDOW: 8-byte header (descriptor_length at bytes 6..7) + one
            // 50-byte descriptor. A channel-selected read (Single bit, byte1=0x01)
            // serves the measured exposure at descriptor offset 46..50 (raw 54..58);
            // the generic read-back is 0.
            0x25 => {
                data.fill(0);
                if data.len() >= 58 {
                    data[6..8].copy_from_slice(&50u16.to_be_bytes());
                    if cdb[1] == 0x01 {
                        if let Some(measured) = self.measured_exposure {
                            let v = measured
                                .get((cdb[5] as usize).wrapping_sub(1))
                                .copied()
                                .unwrap_or(0);
                            data[54..58].copy_from_slice(&v.to_be_bytes());
                        }
                    }
                }
                Ok(())
            }
            0x28 => match cdb[2] {
                0x00 => {
                    if self.cursor >= self.image.len() {
                        return Err(Error::Status {
                            status: 0x02,
                            sense: Some(SenseData {
                                key: 0x0b,
                                asc: 0x3e,
                                ascq: 0x00,
                                ili: false,
                                deferred: false,
                            }),
                        });
                    }
                    // One padded line per read: `line_len` real bytes into the
                    // (larger) block-padded request buffer.
                    let end = (self.cursor + self.line_len).min(self.image.len());
                    let n = end - self.cursor;
                    data[..n].copy_from_slice(&self.image[self.cursor..end]);
                    self.cursor = end;
                    Ok(())
                }
                other => panic!("unexpected DTC {other:#04x}"),
            },
            other => panic!("unexpected opcode {other:#04x}"),
        }
    }

    fn pause(&mut self, _millis: u64) {}
}

#[test]
fn scan_decodes_rgb_frame() {
    // dpi 2 -> logical 1x2: two lines of one RGB pixel each. Planar, width 1 ->
    // plane padded to 2 samples: R@0 G@2 B@4 per line, 2 wire bytes/sample.
    let image = [be_line(&[1, 0, 1, 0, 1]), be_line(&[2, 0, 2, 0, 2])].concat();
    let mut s = Ls50::new(ScanMock {
        image,
        cursor: 0,
        line_len: 10, // 5 samples x 2 bytes (last pad sample omitted)
        wrote_lut: false,
        set_windows: 0,
        scans: 0,
        expect_exposure: EXPOSURE_10NS,
        measured_exposure: None,
        af_payload: None,
    });
    let frame = s
        .scan(&ScanSettings {
            dpi: 2,
            infrared: false,
            samples: 1,
            autoexposure: false,
            autofocus: false,
            caps: AdapterCaps::default(),
        })
        .unwrap();
    assert_eq!(frame.rgb.dimensions(), (1, 2));
    assert!(frame.ir.is_none());
    assert_eq!(frame.rgb.get_pixel(0, 0), [1u16, 1, 1]);
    assert_eq!(frame.rgb.get_pixel(0, 1), [2u16, 2, 2]);
}

#[test]
fn scan_decodes_rgbi_frame() {
    // dpi 2 -> logical 1x2; infrared -> four planes per line: R G B I, each
    // width 1 padded to 2 samples. Last pad sample omitted -> 7 samples/line.
    let image = [
        be_line(&[1, 0, 1, 0, 1, 0, 90]), // line 0 -> rgb (1,1,1), ir 90
        be_line(&[2, 0, 2, 0, 2, 0, 91]), // line 1 -> rgb (2,2,2), ir 91
    ]
    .concat();
    let mut s = Ls50::new(ScanMock {
        image,
        cursor: 0,
        line_len: 14,
        wrote_lut: false,
        set_windows: 0,
        scans: 0,
        expect_exposure: EXPOSURE_10NS,
        measured_exposure: None,
        af_payload: None,
    });
    let frame = s
        .scan(&ScanSettings {
            dpi: 2,
            infrared: true,
            samples: 1,
            autoexposure: false,
            autofocus: false,
            caps: AdapterCaps::default(),
        })
        .unwrap();
    assert_eq!(frame.rgb.dimensions(), (1, 2));
    assert_eq!(frame.rgb.get_pixel(0, 0), [1u16, 1, 1]);
    assert_eq!(frame.rgb.get_pixel(0, 1), [2u16, 2, 2]);
    let ir = frame.ir.expect("IR plane captured");
    assert_eq!(ir.dimensions(), (1, 2));
    assert_eq!(ir.get_pixel(0, 0), 90u16);
    assert_eq!(ir.get_pixel(0, 1), 91u16);
}

#[test]
fn scan_measures_and_applies_exposure() {
    // AE pre-pass (d[42]=0x20) measures, read back via channel-selected GET WINDOW;
    // the real pass carries the measured values (mock asserts them).
    let measured = [1111u32, 2222, 3333];
    let image = [be_line(&[1, 0, 1, 0, 1]), be_line(&[2, 0, 2, 0, 2])].concat();
    let mut s = Ls50::new(ScanMock {
        image,
        cursor: 0,
        line_len: 10,
        wrote_lut: false,
        set_windows: 0,
        scans: 0,
        expect_exposure: measured,
        measured_exposure: Some(measured),
        af_payload: None,
    });
    let frame = s
        .scan(&ScanSettings {
            dpi: 2,
            infrared: false,
            samples: 1,
            autoexposure: true,
            autofocus: false,
            caps: AdapterCaps::default(),
        })
        .unwrap();
    assert_eq!(frame.rgb.dimensions(), (1, 2));
}

#[test]
fn build_window_descriptor_layout() {
    let settings = ScanSettings {
        dpi: 300,
        infrared: false,
        samples: 1,
        autoexposure: false,
        autofocus: false,
        caps: AdapterCaps::default(),
    };
    let payload = build_window(&settings, 0x01, Some(120_000), 0, false);
    assert_eq!(payload.len(), 58); // 8-byte header + 50-byte descriptor
    assert_eq!(
        &payload[..8],
        &[0x00, 0x00, 0x00, 0x00, 0x00, 0x00, 0x00, 0x32]
    );
    let d = &payload[8..];
    let (native_w, native_h) = settings.native_dims();
    assert_eq!(d[0], 0x01); // channel
    assert_eq!(d[1], 0x00);
    assert_eq!(u16::from_be_bytes([d[2], d[3]]), settings.res());
    assert_eq!(u16::from_be_bytes([d[4], d[5]]), settings.res());
    assert_eq!(&d[6..14], &[0u8; 8]); // x/y offset = full-frame origin
    assert_eq!(u32::from_be_bytes(d[14..18].try_into().unwrap()), native_w);
    assert_eq!(u32::from_be_bytes(d[18..22].try_into().unwrap()), native_h);
    assert_eq!(d[25], 0x05); // RGB
    assert_eq!(d[26], 0x0E); // 14-bit
    assert_eq!(d[40], 0x00);
    assert_eq!(d[41], 0x81); // 0x80 | positive
    assert_eq!(d[42], 0x01); // 1 sample
    assert_eq!(&d[43..46], &[0x02, 0x02, 0xff]);
    assert_eq!(u32::from_be_bytes(d[46..50].try_into().unwrap()), 120_000);

    // IR / no exposure -> zeroed exposure field.
    let ir = build_window(&settings, IR_CHANNEL, None, 0, false);
    assert_eq!(&ir[8..][46..50], &[0u8; 4]);
}

#[test]
fn build_window_ae_mode() {
    // AE pass sets the scan-mode byte to 0x20; normal is 0x01.
    let settings = ScanSettings {
        dpi: 300,
        infrared: false,
        samples: 1,
        autoexposure: true,
        autofocus: false,
        caps: AdapterCaps::default(),
    };
    let d = &build_window(&settings, 0x01, Some(120_000), 0, true)[8..];
    assert_eq!(d[42], 0x20);
    let normal = &build_window(&settings, 0x01, Some(120_000), 0, false)[8..];
    assert_eq!(normal[42], 0x01);
}

#[test]
fn build_window_encodes_multisample() {
    // Multi-sample count is a literal N at d[42]; the single-sample bytes around
    // it stay put.
    let settings = ScanSettings {
        dpi: 300,
        infrared: false,
        samples: 4,
        autoexposure: false,
        autofocus: false,
        caps: AdapterCaps::default(),
    };
    let d = &build_window(&settings, 0x01, Some(120_000), 0, false)[8..];
    assert_eq!(d[42], 0x04); // literal 4x
    assert_eq!(d[40], 0x00);
    assert_eq!(d[43], 0x02);
}

#[test]
fn frame_pitch_is_38_mm() {
    // 38.0 mm at 4000 native dpi: 38.0 * 4000 / 25.4 = 5984.25 -> 5984.
    assert_eq!(pitch_native(), 5984);
}

#[test]
fn build_window_writes_y_offset() {
    let settings = ScanSettings {
        dpi: 300,
        infrared: false,
        samples: 1,
        autoexposure: false,
        autofocus: false,
        caps: AdapterCaps::default(),
    };
    let payload = build_window(&settings, 0x01, Some(120_000), 5984, false);
    let d = &payload[8..];
    assert_eq!(&d[6..10], &[0u8; 4]); // x offset stays at the origin
    assert_eq!(u32::from_be_bytes(d[10..14].try_into().unwrap()), 5984); // y offset
}

#[test]
fn boundary_cmd_declares_all_frames() {
    struct NullTransport;
    impl Transport for NullTransport {
        fn execute(
            &mut self,
            _: &[u8],
            _: DataDirection,
            _: &mut [u8],
            _: &mut [u8],
        ) -> Result<(), Error> {
            unreachable!("boundary_cmd builds a CDB without touching the transport")
        }

        fn pause(&mut self, _millis: u64) {}
    }
    let s = Ls50::new(NullTransport);
    let settings = ScanSettings {
        dpi: 4000,
        infrared: false,
        samples: 1,
        autoexposure: false,
        autofocus: false,
        caps: AdapterCaps::default(),
    };
    let pitch = pitch_native();

    let descriptor = |i: u32, subframe: u32| {
        let ystart = i * pitch + subframe;
        let mut d = Vec::new();
        d.extend_from_slice(&ystart.to_be_bytes()); // Ystart
        d.extend_from_slice(&0u32.to_be_bytes()); // Xstart
        d.extend_from_slice(&(ystart + pitch - 1).to_be_bytes()); // Yend
        d.extend_from_slice(&3944u32.to_be_bytes()); // Xend = native_x - 1 (3945 - 1)
        d
    };

    // Single frame: header len = 4 + 16 = 20 (0x14), count 1, one descriptor.
    let mut one = vec![0x00, 0x14, 0x01, 0x01];
    one.extend(descriptor(0, 0));
    assert!(
        matches!(s.boundary_cmd(&settings, 1, 0).data(), CommandData::Write(p) if p == one)
    );

    // Six frames: len = 4 + 96 = 100 (0x64), count 6, six descriptors one pitch
    // apart, all shifted by the subframe offset.
    let mut six = vec![0x00, 0x64, 0x06, 0x06];
    for i in 0..6 {
        six.extend(descriptor(i, 7));
    }
    assert!(
        matches!(s.boundary_cmd(&settings, 6, 7).data(), CommandData::Write(p) if p == six)
    );
}

#[test]
fn scan_strip_yields_a_frame_per_request() {
    // Each SCAN rewinds the mock image, so a 3-frame strip decodes the same
    // 1x2 frame three times.
    let image = [be_line(&[1, 0, 1, 0, 1]), be_line(&[2, 0, 2, 0, 2])].concat();
    let mut s = Ls50::new(ScanMock {
        image,
        cursor: 0,
        line_len: 10,
        wrote_lut: false,
        set_windows: 0,
        scans: 0,
        expect_exposure: EXPOSURE_10NS,
        measured_exposure: None,
        af_payload: None,
    });
    let frames = s
        .scan_strip(
            &ScanSettings {
                dpi: 2,
                infrared: false,
                samples: 1,
                autoexposure: false,
                autofocus: false,
                caps: AdapterCaps::default(),
            },
            3,
            0,
        )
        .unwrap();
    assert_eq!(frames.len(), 3);
    for f in &frames {
        assert_eq!(f.rgb.dimensions(), (1, 2));
        assert_eq!(f.rgb.get_pixel(0, 0), [1u16, 1, 1]);
        assert_eq!(f.rgb.get_pixel(0, 1), [2u16, 2, 2]);
    }
}

#[test]
fn autofocus_payload_layout() {
    // 00 + focusX u32 BE + focusY u32 BE, 9 bytes (SANE cs3_autofocus).
    let p = autofocus_payload(0x0000_07B4, 0x0000_0BA3);
    assert_eq!(p, [0x00, 0x00, 0x00, 0x07, 0xB4, 0x00, 0x00, 0x0B, 0xA3]);
}

#[test]
fn scan_autofocus_targets_frame_centre() {
    // dpi 2 -> native (2000, 4000); centre = (width/2, yoffset + height/2)
    // = (1000, 2000). Autofocus issues E0 0xA0 with that centre on the real pass.
    let image = [be_line(&[1, 0, 1, 0, 1]), be_line(&[2, 0, 2, 0, 2])].concat();
    let mut s = Ls50::new(ScanMock {
        image,
        cursor: 0,
        line_len: 10,
        wrote_lut: false,
        set_windows: 0,
        scans: 0,
        expect_exposure: EXPOSURE_10NS,
        measured_exposure: None,
        af_payload: None,
    });
    s.scan(&ScanSettings {
        dpi: 2,
        infrared: false,
        samples: 1,
        autoexposure: false,
        autofocus: true,
        caps: AdapterCaps::default(),
    })
    .unwrap();
    assert_eq!(
        s.transport().af_payload,
        Some(autofocus_payload(1000, 2000))
    );
}

fn sense(key: u8, asc: u8, ascq: u8) -> Error {
    Error::Status {
        status: 0x02,
        sense: Some(SenseData {
            key,
            asc,
            ascq,
            ili: false,
            deferred: false,
        }),
    }
}

/// A device that records what it is asked, and answers TEST UNIT READY, SCAN, READ, SET WINDOW,
/// WRITE and the vendor commands from scripts: each answer once, the last one for good.
struct Device {
    asked: Vec<(Vec<u8>, Vec<u8>)>,
    pauses: Vec<u64>,
    pages: Vec<u8>,
    tur: Vec<Option<Error>>,
    scan: Vec<Option<Error>>,
    read: Vec<Option<Error>>,
    set_window: Vec<Option<Error>>,
    write: Vec<Option<Error>>,
    trigger: Vec<Option<Error>>,
    release: Option<Error>,
    reserve: Option<Error>,
    descriptor_length: u16,
}

impl Device {
    fn ready() -> Self {
        Device {
            asked: vec![],
            pauses: vec![],
            pages: vec![0x00, 0x43],
            tur: vec![None],
            scan: vec![None],
            read: vec![None],
            set_window: vec![None],
            write: vec![None],
            trigger: vec![None],
            release: None,
            reserve: None,
            descriptor_length: 50,
        }
    }

    fn opcodes(&self) -> Vec<u8> {
        self.asked.iter().map(|(cdb, _)| cdb[0]).collect()
    }
}

/// The next answer of a script.
fn next(script: &mut Vec<Option<Error>>) -> Result<(), Error> {
    let answer = if script.len() > 1 {
        script.remove(0)
    } else {
        script[0].clone()
    };
    match answer {
        None => Ok(()),
        Some(err) => Err(err),
    }
}

impl Transport for Device {
    fn execute(
        &mut self,
        cdb: &[u8],
        _direction: DataDirection,
        data: &mut [u8],
        _sense: &mut [u8],
    ) -> Result<(), Error> {
        self.asked.push((cdb.to_vec(), data.to_vec()));
        match cdb[0] {
            0x00 => next(&mut self.tur),
            0x12 => {
                if cdb[2] == 0x00 && data.len() >= 4 + self.pages.len() {
                    data[3] = self.pages.len() as u8;
                    data[4..4 + self.pages.len()].copy_from_slice(&self.pages);
                }
                Ok(())
            }
            0x16 => self.reserve.clone().map_or(Ok(()), Err),
            0x17 => self.release.clone().map_or(Ok(()), Err),
            0x1B => next(&mut self.scan),
            0x24 => next(&mut self.set_window),
            0x25 => {
                data[6..8].copy_from_slice(&self.descriptor_length.to_be_bytes());
                data[54..58].copy_from_slice(&777u32.to_be_bytes());
                Ok(())
            }
            0x28 => {
                for (i, byte) in data.iter_mut().enumerate() {
                    *byte = i as u8;
                }
                next(&mut self.read)
            }
            0x2A => next(&mut self.write),
            0xE0 | 0xC1 | 0x1D => next(&mut self.trigger),
            _ => Ok(()),
        }
    }

    fn pause(&mut self, millis: u64) {
        self.pauses.push(millis);
    }
}

fn settings() -> ScanSettings {
    ScanSettings {
        dpi: 2,
        infrared: false,
        samples: 1,
        autoexposure: false,
        autofocus: false,
        caps: AdapterCaps::default(),
    }
}

#[test]
fn scan_sends_everything_in_order() {
    let mut s = Ls50::new(Device::ready());
    let frame = s.scan(&settings()).unwrap();
    assert_eq!(frame.rgb.dimensions(), (1, 2));
    // Bytes 0 and 1, 4 and 5, 8 and 9 of each line.
    assert_eq!(frame.rgb.get_pixel(0, 0), [0x0001u16, 0x0405, 0x0809]);
    assert_eq!(
        s.transport().opcodes(),
        vec![
            0x00, // settled
            0x12, // holder
            0x16, // reserve
            0x12, 0x12, 0x12, 0x12, 0x12, 0x12, // probe
            0x15, // mode
            0x1D, 0xE0, 0xC1, // home
            0x00, // ready
            0x2A, // boundary
            0xE0, 0xC1, 0x00, // focus parked
            0x2A, 0x2A, 0x2A, // gamma tables
            0x24, 0x24, 0x24, // windows
            0x25, 0x25, 0x25, 0x00, // read back
            0x1B, // scan
            0x00, 0x28, 0x00, 0x28, // lines
            0x17, // release
        ]
    );
    assert!(s.transport().pauses.is_empty());
}

#[test]
fn probes_and_mode_are_fixed() {
    let mut s = Ls50::new(Device::ready());
    s.scan(&settings()).unwrap();
    let asked = &s.transport().asked;
    let pages: Vec<(u8, u8)> = asked[3..9].iter().map(|(cdb, _)| (cdb[2], cdb[4])).collect();
    assert_eq!(
        pages,
        vec![(0x00, 23), (0xD1, 28), (0xC1, 87), (0xE1, 39), (0xF0, 53), (0xF8, 17)]
    );
    assert_eq!(
        asked[9].1,
        vec![0, 0, 0, 8, 0, 0, 0, 0, 0, 0, 0, 1, 3, 6, 0, 0, 0x0F, 0xA0, 0, 0]
    );
    assert_eq!(asked[11].0[2], 0x80);
    assert_eq!(asked[15].0[2], 0xC1);
    assert_eq!(asked[15].1, vec![0u8; 9]);
    // Gamma tables: channel in the high byte of the qualifier.
    assert_eq!(&asked[18].0[4..6], &[1, 1]);
    assert_eq!(&asked[20].0[4..6], &[3, 1]);
    assert_eq!(asked[18].1.len(), 32768);
}

#[test]
fn no_film_moves_nothing() {
    let mut device = Device::ready();
    device.tur = vec![Some(sense(0x06, 0x29, 0x00)), Some(sense(0x02, 0x3A, 0x00))];
    let mut s = Ls50::new(device);
    assert!(matches!(
        s.scan(&settings()),
        Err(ScanError::NotReady(Status::NoFilm))
    ));
    assert_eq!(s.transport().opcodes(), vec![0x00, 0x00]);
    assert_eq!(s.transport().pauses, vec![250]);
    assert!(matches!(
        s.scan_strip(&settings(), 2, 0),
        Err(ScanError::NotReady(Status::NoFilm))
    ));
    assert_eq!(s.transport().opcodes(), vec![0x00, 0x00, 0x00]);
}

#[test]
fn feeder_is_not_homed() {
    let mut device = Device::ready();
    device.pages = vec![0x00, 0x46, 0xE2];
    let mut s = Ls50::new(device);
    s.scan(&settings()).unwrap();
    let opcodes = s.transport().opcodes();
    let boundary = opcodes.iter().position(|op| *op == 0x2A).unwrap();
    assert_eq!(
        opcodes[..boundary],
        [0x00, 0x12, 0x16, 0x12, 0x12, 0x12, 0x12, 0x12, 0x12, 0x15, 0x00]
    );
}

#[test]
fn settling_gives_up() {
    let mut device = Device::ready();
    device.tur = vec![Some(sense(0x02, 0x04, 0x01))];
    let mut s = Ls50::new(device);
    assert!(matches!(
        s.scan(&settings()),
        Err(ScanError::NotReady(Status::Initializing))
    ));
    assert_eq!(s.transport().asked.len(), 100);
    assert_eq!(s.transport().pauses, vec![250; 100]);
}

#[test]
fn needs_init_is_settled_but_not_ready() {
    let mut device = Device::ready();
    device.tur = vec![Some(sense(0x02, 0x04, 0x02))];
    let mut s = Ls50::new(device);
    assert!(matches!(
        s.scan(&settings()),
        Err(ScanError::NotReady(Status::NeedsInit))
    ));
    // One poll to settle, and a hundred to wait for readiness; nothing is armed.
    assert_eq!(s.transport().pauses, vec![250; 100]);
    assert!(!s.transport().opcodes().contains(&0x2A));
    assert!(!s.transport().opcodes().contains(&0x17));
}

#[test]
fn unknown_state_is_an_error() {
    let mut device = Device::ready();
    device.tur = vec![Some(sense(0x05, 0x24, 0x00))];
    let mut s = Ls50::new(device);
    assert!(matches!(s.scan(&settings()), Err(ScanError::Scsi(_))));
    assert_eq!(s.transport().asked.len(), 1);
}

#[test]
fn busy_scan_is_retried() {
    let busy = Some(sense(0x02, 0x04, 0x01));
    let mut device = Device::ready();
    device.scan = vec![busy.clone(), busy.clone(), None];
    let mut s = Ls50::new(device);
    assert!(s.scan(&settings()).is_ok());
    assert_eq!(s.transport().pauses, vec![500, 500]);
}

#[test]
fn scan_that_stays_busy_fails_and_releases() {
    let mut device = Device::ready();
    device.scan = vec![Some(sense(0x02, 0x04, 0x01))];
    let mut s = Ls50::new(device);
    assert!(matches!(
        s.scan(&settings()),
        Err(ScanError::ScanNotReady(30))
    ));
    assert_eq!(s.transport().pauses, vec![500; 30]);
    assert_eq!(s.transport().opcodes().last(), Some(&0x17));
}

#[test]
fn pending_line_is_read_again() {
    let mut device = Device::ready();
    device.read = vec![
        Some(sense(0x02, 0x04, 0x01)),
        Some(sense(0x05, 0x2C, 0x00)),
        None,
    ];
    let mut s = Ls50::new(device);
    let frame = s.scan(&settings()).unwrap();
    assert_eq!(frame.rgb.dimensions(), (1, 2));
    assert_eq!(s.transport().pauses, vec![200, 200]);
}

#[test]
fn line_that_stays_pending_fails() {
    let mut device = Device::ready();
    device.read = vec![Some(sense(0x05, 0x2C, 0x00))];
    let mut s = Ls50::new(device);
    assert!(matches!(
        s.scan(&settings()),
        Err(ScanError::ScanNotReady(600))
    ));
    assert_eq!(s.transport().pauses, vec![200; 599]);
    assert_eq!(s.transport().opcodes().last(), Some(&0x17));
}

#[test]
fn end_of_data_ends_the_frame() {
    let mut device = Device::ready();
    device.read = vec![None, Some(sense(0x0B, 0x3E, 0x00))];
    let mut s = Ls50::new(device);
    let frame = s.scan(&settings()).unwrap();
    assert_eq!(frame.rgb.dimensions(), (1, 1));
}

#[test]
fn frame_without_lines_is_no_data() {
    let mut device = Device::ready();
    device.read = vec![Some(sense(0x0B, 0x3E, 0x00))];
    let mut s = Ls50::new(device);
    assert!(matches!(s.scan(&settings()), Err(ScanError::NoData)));
    assert_eq!(s.transport().opcodes().last(), Some(&0x17));
    assert!(matches!(
        s.scan_strip(&settings(), 2, 0),
        Err(ScanError::NoData)
    ));
}

#[test]
fn link_failure_stops_the_scan() {
    let gone = Error::Link("gone".into());
    let mut device = Device::ready();
    device.read = vec![None, Some(gone.clone())];
    let mut s = Ls50::new(device);
    assert!(matches!(s.scan(&settings()), Err(ScanError::Scsi(err)) if err == gone));
    let mut device = Device::ready();
    device.trigger = vec![Some(gone.clone())];
    let mut s = Ls50::new(device);
    assert!(matches!(s.scan(&settings()), Err(ScanError::Scsi(err)) if err == gone));
    assert_eq!(s.transport().opcodes().last(), Some(&0x1D));
}

#[test]
fn busy_triggers_are_tolerated() {
    let mut device = Device::ready();
    device.trigger = vec![Some(sense(0x02, 0x04, 0x01))];
    device.release = Some(sense(0x05, 0x20, 0x00));
    let mut s = Ls50::new(device);
    assert!(s.scan(&settings()).is_ok());
}

#[test]
fn refused_gamma_table_stops_the_scan() {
    let mut device = Device::ready();
    // The declaration of the strip may be refused, a gamma table may not.
    device.write = vec![Some(sense(0x05, 0x26, 0x00)), None, Some(sense(0x05, 0x26, 0x00))];
    let mut s = Ls50::new(device);
    assert!(matches!(s.scan(&settings()), Err(ScanError::Scsi(_))));
    assert!(!s.transport().opcodes().contains(&0x24));
    assert!(!s.transport().opcodes().contains(&0x1B));
    assert_eq!(s.transport().opcodes().last(), Some(&0x17));
}

#[test]
fn recovered_window_is_accepted() {
    let mut device = Device::ready();
    device.set_window = vec![Some(sense(0x01, 0x37, 0x00))];
    assert!(Ls50::new(device).scan(&settings()).is_ok());
    let mut device = Device::ready();
    device.set_window = vec![None, Some(sense(0x05, 0x26, 0x00))];
    let mut s = Ls50::new(device);
    assert!(matches!(s.scan(&settings()), Err(ScanError::Scsi(_))));
    assert!(!s.transport().opcodes().contains(&0x1B));
}

#[test]
fn measured_exposure_goes_into_the_windows() {
    let mut with_ae = settings();
    with_ae.autoexposure = true;
    with_ae.infrared = true;
    let mut s = Ls50::new(Device::ready());
    s.scan(&with_ae).unwrap();
    let windows: Vec<(u8, u8, u32)> = s
        .transport()
        .asked
        .iter()
        .filter(|(cdb, _)| cdb[0] == 0x24)
        .map(|(_, data)| {
            let exposure = [data[54], data[55], data[56], data[57]];
            (data[8], data[50], u32::from_be_bytes(exposure))
        })
        .collect();
    assert_eq!(
        windows,
        vec![
            (1, 0x20, 120_000),
            (2, 0x20, 120_000),
            (3, 0x20, 100_000),
            (1, 0x01, 777),
            (2, 0x01, 777),
            (3, 0x01, 777),
            (9, 0x01, 0),
        ]
    );
}

#[test]
fn exposure_needs_a_whole_descriptor() {
    let mut with_ae = settings();
    with_ae.autoexposure = true;
    let mut device = Device::ready();
    device.descriptor_length = 39;
    assert!(matches!(
        Ls50::new(device).scan(&with_ae),
        Err(ScanError::Scsi(Error::InvalidResponse(_)))
    ));
    // Descriptors without the field, or longer than the answer, hold no exposure.
    for length in [40u16, 49, 51] {
        let mut device = Device::ready();
        device.descriptor_length = length;
        let mut s = Ls50::new(device);
        s.scan(&with_ae).unwrap();
        let last = s.transport().asked.iter().rev().find(|(cdb, _)| cdb[0] == 0x24);
        assert_eq!(last.unwrap().1[54..58], [0u8; 4]);
    }
}

#[test]
fn strip_frames_are_a_pitch_apart() {
    let mut s = Ls50::new(Device::ready());
    let frames = s.scan_strip(&settings(), 3, 7).unwrap();
    assert_eq!(frames.len(), 3);
    let starts: Vec<u32> = s
        .transport()
        .asked
        .iter()
        .filter(|(cdb, _)| cdb[0] == 0x24)
        .map(|(_, data)| u32::from_be_bytes([data[18], data[19], data[20], data[21]]))
        .collect();
    assert_eq!(
        starts,
        vec![7, 7, 7, 5991, 5991, 5991, 11975, 11975, 11975]
    );
    assert_eq!(s.transport().opcodes().iter().filter(|op| **op == 0x17).count(), 1);
}

#[test]
fn empty_strip_is_prepared_and_released() {
    let mut s = Ls50::new(Device::ready());
    assert!(s.scan_strip(&settings(), 0, 0).unwrap().is_empty());
    assert_eq!(s.transport().opcodes().last(), Some(&0x17));
    assert!(!s.transport().opcodes().contains(&0x1B));
}

#[test]
fn eject_sends_everything_in_order() {
    let mut device = Device::ready();
    device.tur = vec![Some(sense(0x02, 0x05, 0x00)), Some(sense(0x02, 0x3A, 0x00))];
    let mut s = Ls50::new(device);
    assert!(s.eject().is_ok());
    assert_eq!(s.transport().opcodes(), vec![0x16, 0xE0, 0xC1, 0x00, 0x00, 0x17]);
    assert_eq!(s.transport().asked[1].0[2], 0xD0);
    assert_eq!(s.transport().asked[1].1, vec![0u8; 13]);
    assert_eq!(s.transport().pauses, vec![250]);
}

#[test]
fn eject_needs_the_reservation() {
    let mut device = Device::ready();
    device.reserve = Some(sense(0x05, 0x20, 0x00));
    let mut s = Ls50::new(device);
    assert!(matches!(s.eject(), Err(ScanError::Scsi(_))));
    assert_eq!(s.transport().opcodes(), vec![0x16]);
}

#[test]
fn claims_are_reserve_and_release() {
    let mut s = Ls50::new(Device::ready());
    assert!(s.reserve().is_ok());
    assert!(s.release().is_ok());
    assert_eq!(s.transport().opcodes(), vec![0x16, 0x17]);
}

#[test]
fn infrared_is_the_last_channel() {
    let mut s = settings();
    assert_eq!(channels(&s), vec![1, 2, 3]);
    s.infrared = true;
    assert_eq!(channels(&s), vec![1, 2, 3, 9]);
}

#[test]
fn gamma_lut_is_identity() {
    let lut = build_gamma_lut();
    assert_eq!(lut.len(), 32768);
    for i in 0..16384usize {
        assert_eq!(u16::from_be_bytes([lut[2 * i], lut[2 * i + 1]]), i as u16);
    }
}

#[test]
fn no_samples_count_as_one() {
    let mut s = settings();
    s.samples = 0;
    assert_eq!(build_window(&s, 1, None, 0, false)[50], 1);
}

#[test]
fn scanning_never_ejects() {
    let mut all = settings();
    all.autoexposure = true;
    all.autofocus = true;
    all.infrared = true;
    let mut s = Ls50::new(Device::ready());
    s.scan(&all).unwrap();
    s.scan_strip(&all, 2, 0).unwrap();
    assert!(s
        .transport()
        .asked
        .iter()
        .all(|(cdb, _)| cdb[0] != 0xE0 || cdb[2] != 0xD0));
}

#[test]
fn measuring_reads_no_image_and_uploads_no_table() {
    let mut all = settings();
    all.autoexposure = true;
    all.autofocus = true;
    let mut s = Ls50::new(Device::ready());
    s.scan(&all).unwrap();
    let asked = &s.transport().asked;
    let opcodes = s.transport().opcodes();
    let first = opcodes.iter().position(|op| *op == 0x2A).unwrap();
    let second = first + 1 + opcodes[first + 1..].iter().position(|op| *op == 0x2A).unwrap();
    // From one declaration of the strip to the next: the measurement.
    assert_eq!(asked[first].0[2], 0x88);
    assert_eq!(asked[second].0[2], 0x88);
    assert_eq!(
        opcodes[first..second],
        [
            0x2A, 0xE0, 0xC1, 0x00, // parked, not focused
            0x24, 0x24, 0x24, 0x25, 0x25, 0x25, 0x00, // windows
            0x1B, 0x00, // scan
            0x25, 0x25, 0x25, // exposures
        ]
    );
    assert_eq!(asked[first + 1].0[2], 0xC1);
    assert!(asked[second + 2].0[0] == 0xE0 && asked[second + 2].0[2] == 0xA0);
}

#[test]
fn set_window_reads_back_as_it_was_set() {
    let s = settings();
    let payload = build_window(&s, 0x02, Some(4321), 5984, false);
    let cmd = GetWindow::new(0, true, 0x02, 58, 0);
    let descriptors = cmd.decode(&payload).unwrap();
    assert_eq!(descriptors.len(), 1);
    let d = &descriptors[0];
    assert_eq!(d.id, 0x02);
    assert!(!d.auto);
    assert_eq!((d.x_resolution, d.y_resolution), (s.res(), s.res()));
    assert_eq!((d.x_upper_left, d.y_upper_left), (0, 5984));
    assert_eq!((d.width, d.length), s.native_dims());
    assert_eq!(d.composition, ImageCompositionCode::Rgb);
    assert_eq!(d.bits_per_pixel, 14);
    assert_eq!(d.vendor[2], 1);
    assert_eq!(d.vendor[6..10], 4321u32.to_be_bytes());
}

#[test]
fn questions_move_nothing() {
    let mut s = Ls50::new(Device::ready());
    s.status().unwrap();
    s.holder().unwrap();
    s.caps();
    s.inquiry().unwrap();
    assert_eq!(s.transport().opcodes(), vec![0x00, 0x12, 0x12, 0x12]);
}

#[test]
fn every_read_follows_a_ready_poll() {
    let mut device = Device::ready();
    device.read = vec![Some(sense(0x02, 0x04, 0x01)), None, Some(sense(0x05, 0x2C, 0x00)), None];
    let mut s = Ls50::new(device);
    let frame = s.scan(&settings()).unwrap();
    assert_eq!(frame.rgb.dimensions(), (1, 2));
    let asked = &s.transport().asked;
    let mut reads = 0;
    for i in 0..asked.len() {
        if asked[i].0[0] == 0x28 {
            reads += 1;
            assert_eq!(asked[i - 1].0[0], 0x00);
            assert_eq!(asked[i].0[2], 0x00);
            assert_eq!(asked[i].1.len(), settings().bytes_per_line());
        }
    }
    assert_eq!(reads, 4);
}

#[test]
fn every_line_has_its_own_tries() {
    // 599 vain tries for the first line, one that gives it, and none for the second.
    let mut device = Device::ready();
    device.read = vec![Some(sense(0x02, 0x04, 0x01)); 599];
    device.read.push(None);
    device.read.push(Some(sense(0x02, 0x04, 0x01)));
    let mut s = Ls50::new(device);
    assert!(matches!(
        s.scan(&settings()),
        Err(ScanError::ScanNotReady(600))
    ));
    let reads = s.transport().opcodes().iter().filter(|op| **op == 0x28).count();
    assert_eq!(reads, 599 + 1 + 600);
    assert_eq!(s.transport().pauses, vec![200; 599 + 599]);
}

/// The opcodes of preparing a scanner that is ready and has no feeder.
const PREPARING: [u8; 14] = [
    0x00, 0x12, 0x16, 0x12, 0x12, 0x12, 0x12, 0x12, 0x12, 0x15, 0x1D, 0xE0, 0xC1, 0x00,
];

/// Settings with frames so long that the middle of a frame can lie beyond the last place while
/// its bounds do not.
fn long_frames() -> ScanSettings {
    let mut long = settings();
    long.autofocus = true;
    long.caps.native_y = 16000;
    long
}

/// Settings whose frames no memory holds.
fn huge_frames() -> ScanSettings {
    let mut huge = settings();
    huge.dpi = 4000;
    huge.caps.native_x = u32::MAX;
    huge.caps.native_y = u32::MAX;
    huge
}

#[test]
fn geometry_that_fits_is_scanned() {
    let mut s = Ls50::new(Device::ready());
    let frame = s.try_scan_at(&settings(), 7).unwrap().unwrap();
    assert_eq!(frame.rgb.dimensions(), (1, 2));
    let tried = s.transport().asked.clone();
    let mut other = Ls50::new(Device::ready());
    other.scan_at(&settings(), 7).unwrap();
    assert_eq!(tried, other.transport().asked);
    let mut s = Ls50::new(Device::ready());
    assert_eq!(s.try_scan_strip(&settings(), 3, 7).unwrap().unwrap().len(), 3);
    let mut other = Ls50::new(Device::ready());
    other.scan_strip(&settings(), 3, 7).unwrap();
    assert_eq!(s.transport().asked, other.transport().asked);
}

#[test]
fn no_film_comes_before_the_geometry() {
    let mut device = Device::ready();
    device.tur = vec![Some(sense(0x02, 0x3A, 0x00))];
    let mut s = Ls50::new(device);
    for unfit in [settings(), long_frames(), huge_frames()] {
        assert!(matches!(
            s.try_scan_at(&unfit, u32::MAX),
            Err(ScanError::NotReady(Status::NoFilm))
        ));
        assert!(matches!(
            s.try_scan_strip(&unfit, 2, u32::MAX),
            Err(ScanError::NotReady(Status::NoFilm))
        ));
    }
    assert_eq!(s.transport().opcodes(), vec![0x00; 6]);
}

#[test]
fn bounds_that_do_not_fit_end_the_scan_once_prepared() {
    let mut with_ae = settings();
    with_ae.autoexposure = true;
    let ended = [&PREPARING[..], &[0x17]].concat();
    let mut s = Ls50::new(Device::ready());
    assert!(s.try_scan_at(&with_ae, u32::MAX).unwrap().is_none());
    assert_eq!(s.transport().opcodes(), ended);
    let mut s = Ls50::new(Device::ready());
    assert!(s.try_scan_strip(&with_ae, 2, u32::MAX - 5983).unwrap().is_none());
    assert_eq!(s.transport().opcodes(), ended);
    with_ae.caps.native_x = 0;
    let mut s = Ls50::new(Device::ready());
    assert!(s.try_scan_strip(&with_ae, 1, 0).unwrap().is_none());
    assert_eq!(s.transport().opcodes(), ended);
}

#[test]
fn frame_too_large_for_memory_ends_the_scan() {
    let mut huge = huge_frames();
    huge.autoexposure = true;
    assert!(!huge.fits());
    // A single frame needs its memory before the exposure is measured, a strip after.
    let mut s = Ls50::new(Device::ready());
    assert!(s.try_scan_at(&huge, 0).unwrap().is_none());
    assert_eq!(s.transport().opcodes(), [&PREPARING[..], &[0x17]].concat());
    let mut s = Ls50::new(Device::ready());
    assert!(s.try_scan_strip(&huge, 2, 0).unwrap().is_none());
    let opcodes = s.transport().opcodes();
    assert_eq!(opcodes.iter().filter(|op| **op == 0x1B).count(), 1);
    assert!(!opcodes.contains(&0x28));
    assert_eq!(opcodes.last(), Some(&0x17));
    let gone = Error::Link("gone".into());
    let mut device = Device::ready();
    device.scan = vec![Some(gone.clone())];
    let mut s = Ls50::new(device);
    assert!(matches!(s.try_scan_strip(&huge, 2, 0), Err(ScanError::Scsi(err)) if err == gone));
    assert_eq!(s.transport().opcodes().last(), Some(&0x17));
}

#[test]
fn middle_that_does_not_fit_ends_the_scan_after_the_exposure() {
    let mut long = long_frames();
    long.autoexposure = true;
    let last = u32::MAX - 5983;
    assert!(long.bounds_fit(1, last) && !long.middle_fits(0, last) && !long.strip_fits(1, last));
    let mut s = Ls50::new(Device::ready());
    assert!(s.try_scan_at(&long, last).unwrap().is_none());
    let opcodes = s.transport().opcodes();
    assert_eq!(opcodes.iter().filter(|op| **op == 0x1B).count(), 1);
    assert!(!opcodes.contains(&0x28));
    assert_eq!(opcodes.last(), Some(&0x17));
    let gone = Error::Link("gone".into());
    let mut device = Device::ready();
    device.scan = vec![Some(gone.clone())];
    let mut s = Ls50::new(device);
    assert!(matches!(s.try_scan_at(&long, last), Err(ScanError::Scsi(err)) if err == gone));
    // Without autofocus nothing asks for the middle.
    long.autofocus = false;
    assert!(Ls50::new(Device::ready()).try_scan_at(&long, last).unwrap().is_some());
}

#[test]
fn frames_before_a_middle_that_does_not_fit_are_scanned() {
    let long = long_frames();
    let start = u32::MAX - 2 * 5984 + 1;
    assert_eq!(long.frames_in_reach(2, start), 1);
    assert_eq!(long.frames_in_reach(2, 0), 2);
    let mut s = Ls50::new(Device::ready());
    assert!(s.try_scan_strip(&long, 2, start).unwrap().is_none());
    let opcodes = s.transport().opcodes();
    assert_eq!(opcodes.iter().filter(|op| **op == 0x1B).count(), 1);
    assert_eq!(opcodes.iter().filter(|op| **op == 0x28).count(), 8);
    assert_eq!(opcodes.iter().filter(|op| **op == 0x17).count(), 1);
    let mut device = Device::ready();
    device.read = vec![Some(sense(0x0B, 0x3E, 0x00))];
    let mut s = Ls50::new(device);
    assert!(matches!(
        s.try_scan_strip(&long, 2, start),
        Err(ScanError::NoData)
    ));
    assert_eq!(s.transport().opcodes().last(), Some(&0x17));
}

#[test]
fn scanner_is_given_back_once() {
    let mut all = settings();
    all.autoexposure = true;
    all.autofocus = true;
    let mut s = Ls50::new(Device::ready());
    s.scan(&all).unwrap();
    s.scan_strip(&all, 3, 0).unwrap();
    let opcodes = s.transport().opcodes();
    assert_eq!(opcodes.iter().filter(|op| **op == 0x17).count(), 2);
    assert_eq!(opcodes.last(), Some(&0x17));
}

#[test]
fn drain_reads_whole_lines_when_they_are_ready() {
    let mut device = Device::ready();
    device.tur = vec![Some(sense(0x02, 0x04, 0x01)), None];
    device.read = vec![Some(sense(0x05, 0x2C, 0x00)), None];
    let mut s = Ls50::new(device);
    let mut dec = PlanarDecoder::new(&settings()).unwrap();
    s.drain_image(&settings(), &mut dec).unwrap();
    assert_eq!(
        s.transport().opcodes(),
        vec![0x00, 0x00, 0x28, 0x00, 0x28, 0x00, 0x28]
    );
    assert_eq!(s.transport().pauses, vec![200, 200]);
    assert_eq!(s.transport().asked[2].1.len(), settings().bytes_per_line());
    let mut device = Device::ready();
    device.tur = vec![Some(sense(0x02, 0x04, 0x01))];
    let mut s = Ls50::new(device);
    let mut dec = PlanarDecoder::new(&settings()).unwrap();
    assert!(matches!(
        s.drain_image(&settings(), &mut dec),
        Err(ScanError::ScanNotReady(600))
    ));
    assert_eq!(s.transport().opcodes(), vec![0x00; 600]);
}

/// A device that hands the last window back as it was set.
struct Echo {
    window: Vec<u8>,
    asked: Vec<u8>,
}

impl Transport for Echo {
    fn execute(
        &mut self,
        cdb: &[u8],
        _direction: DataDirection,
        data: &mut [u8],
        _sense: &mut [u8],
    ) -> Result<(), Error> {
        self.asked = cdb.to_vec();
        data.copy_from_slice(&self.window);
        Ok(())
    }

    fn pause(&mut self, _millis: u64) {}
}

#[test]
fn exposure_reads_back_as_it_was_set() {
    for (channel, exposure) in [(1u8, Some(120_000u32)), (3, Some(u32::MAX)), (9, None)] {
        let mut s = Ls50::new(Echo {
            window: build_window(&settings(), channel, exposure, 5984, false),
            asked: vec![],
        });
        assert_eq!(s.get_window_exposure(channel).unwrap(), exposure.unwrap_or(0));
        assert_eq!(
            s.transport().asked,
            vec![0x25, 0x01, 0, 0, 0, channel, 0, 0, 0x3A, 0x00]
        );
    }
}
