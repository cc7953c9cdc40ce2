//! Flag values, file names and the dispatch to a device.

use clap::{Arg, Command as Clap};
use nkscan::cli::device::{ls50_settings, Backend, Error as DeviceError};
use nkscan::cli::output::{frame_path, ir_path, suffix};
use nkscan::cli::{log_level, parse_samples, ScanCommon};
use nkscan::scanners::ls50::status::Status;
use nkscan::scanners::ls50::{AdapterCaps, Ls50, ScanError};
use nkscan::scsi::{DataDirection, Error, SenseData, Transport};

fn common() -> ScanCommon {
    ScanCommon {
        output: "scan.tiff".into(),
        ir: true,
        dpi: 2000,
        samples: 1,
        ae: true,
        af: true,
        // 1.5 mm
        offset: 236,
    }
}

#[test]
fn ls50_settings_maps_flags() {
    let caps = AdapterCaps::default();
    let s = ls50_settings(&common(), caps);
    assert_eq!(s.dpi, 2000);
    assert!(s.infrared);
    assert_eq!(s.samples, 1);
    assert!(s.autoexposure);
    assert!(s.autofocus);
    assert_eq!(s.caps, caps);
}

#[test]
fn samples_over_one_rejected() {
    assert!(parse_samples("1").is_ok());
    assert!(parse_samples("2").is_err());
    assert!(parse_samples("x").is_err());
    let samples = Arg::new("samples").long("samples").value_parser(parse_samples);
    let nkscan = Clap::new("nkscan").subcommand(Clap::new("scan").arg(samples));
    assert!(nkscan
        .try_get_matches_from(["nkscan", "scan", "--samples", "4"])
        .is_err());
}

#[test]
fn sample_counts_are_decimal_bytes() {
    let only_one = "only --samples 1 works: the multi-pass scan never streams";
    let no_number = "expected a number";
    for (text, why) in [
        ("0", only_one),
        ("255", only_one),
        ("+4", only_one),
        ("256", no_number),
        ("99999999999999999999", no_number),
        ("", no_number),
        ("+", no_number),
        ("-1", no_number),
        (" 1", no_number),
        ("1x", no_number),
    ] {
        assert_eq!(parse_samples(text), Err(why.into()), "{text}");
        assert_ne!(text.parse::<u8>(), Ok(1));
        assert_eq!(text.parse::<u8>().is_ok(), why == only_one);
    }
    assert_eq!(parse_samples("+1"), Ok(1));
    assert_eq!(parse_samples("001"), Ok(1));
}

#[test]
fn suffix_goes_before_extension() {
    assert_eq!(suffix("scan.tiff", "_ir"), "scan_ir.tiff");
    assert_eq!(suffix("scan.tiff", "_00"), "scan_00.tiff");
}

#[test]
fn suffix_preserves_directory() {
    assert_eq!(suffix("out/scan.tiff", "_00"), "out/scan_00.tiff");
}

#[test]
fn suffix_without_extension_appends() {
    assert_eq!(suffix("scan", "_ir"), "scan_ir");
}

/// The suffix as std's paths give it.
fn std_suffix(path: &str, s: &str) -> String {
    let path = std::path::Path::new(path);
    let named = match path.extension() {
        Some(ext) => {
            let mut name = path.file_stem().unwrap_or_default().to_os_string();
            name.push(s);
            name.push(".");
            name.push(ext);
            path.with_file_name(name)
        }
        None => {
            let mut name = path.as_os_str().to_os_string();
            name.push(s);
            std::path::PathBuf::from(name)
        }
    };
    named.to_str().unwrap().to_string()
}

#[test]
fn suffix_agrees_with_std_paths() {
    let pieces = ["", "/", ".", "..", "a", ".a", "a.b", "a.b.c", "b.", "//", "/./", "./"];
    for first in pieces {
        for second in pieces {
            for third in pieces {
                for fourth in pieces {
                    let path = format!("{first}{second}{third}{fourth}");
                    assert_eq!(suffix(&path, "_x"), std_suffix(&path, "_x"), "{path:?}");
                }
            }
        }
    }
}

#[test]
fn frames_are_numbered() {
    assert_eq!(frame_path("scan.tiff", 0, true), "scan_00.tiff");
    assert_eq!(frame_path("out/scan.tiff", 7, true), "out/scan_07.tiff");
    assert_eq!(frame_path("scan", 12, true), "scan_12");
    assert_eq!(frame_path("scan.tiff", 123, true), "scan_123.tiff");
    assert_eq!(frame_path("scan.tiff", 3, false), "scan.tiff");
    assert_eq!(ir_path("out/scan_07.tiff"), "out/scan_07_ir.tiff");
}

#[test]
fn numbered_paths_differ() {
    let mut paths: Vec<String> = (0..200).map(|k| frame_path("s.tiff", k, true)).collect();
    paths.sort();
    paths.dedup();
    assert_eq!(paths.len(), 200);
}

#[test]
fn verbosity_is_a_log_level() {
    assert_eq!(log_level(0), "warn");
    assert_eq!(log_level(1), "info");
    assert_eq!(log_level(2), "debug");
    assert_eq!(log_level(3), "trace");
    assert_eq!(log_level(255), "trace");
}

/// A scanner with `n_frames` frames in it that answers every READ with a line of ones.
struct Scanner {
    n_frames: u8,
    boundary_x: u32,
    film: bool,
    scans: u32,
}

fn scanner(n_frames: u8) -> Backend<Scanner> {
    Backend::Ls50(Ls50::new(Scanner {
        n_frames,
        boundary_x: 11,
        film: true,
        scans: 0,
    }))
}

impl Transport for Scanner {
    fn execute(
        &mut self,
        cdb: &[u8],
        _direction: DataDirection,
        data: &mut [u8],
        _sense: &mut [u8],
    ) -> Result<(), Error> {
        match (cdb[0], cdb[1], cdb.get(2)) {
            (0x00, _, _) if !self.film => Err(Error::Status {
                status: 0x02,
                sense: Some(SenseData {
                    key: 0x02,
                    asc: 0x3A,
                    ascq: 0x00,
                    ili: false,
                    deferred: false,
                }),
            }),
            (0x12, 0, _) => {
                data[8..16].copy_from_slice(b"Nikon   ");
                data[16..32].copy_from_slice(b"LS-50 ED        ");
                data[32..36].copy_from_slice(b"1.02");
                Ok(())
            }
            (0x12, 1, Some(0x00)) => {
                data[3] = 2;
                data[4..6].copy_from_slice(&[0x46, 0xE2]);
                Ok(())
            }
            (0x12, 1, Some(0xC1)) => {
                data[3] = 83;
                data[36..40].copy_from_slice(&self.boundary_x.to_be_bytes());
                data[42..44].copy_from_slice(&4000u16.to_be_bytes());
                data[58..62].copy_from_slice(&21u32.to_be_bytes());
                data[75] = self.n_frames;
                Ok(())
            }
            (0x1B, _, _) => {
                self.scans += 1;
                Ok(())
            }
            (0x28, _, _) => {
                data.fill(1);
                Ok(())
            }
            _ => Ok(()),
        }
    }

    fn pause(&mut self, _millis: u64) {}
}

fn flags() -> ScanCommon {
    ScanCommon {
        output: "scan.tiff".into(),
        ir: false,
        dpi: 400,
        samples: 1,
        ae: false,
        af: false,
        offset: 0,
    }
}

#[test]
fn info_shows_identity_holder_and_caps() {
    assert_eq!(
        scanner(6).info().unwrap(),
        "Nikon LS-50 ED rev 1.02\nholder: Feeder\ncaps: AdapterCaps { n_frames: 6, \
         base_res: 4000, native_x: 10, native_y: 20 }"
    );
    let caps = AdapterCaps {
        n_frames: 6,
        base_res: 4000,
        native_x: 10,
        native_y: 20,
    };
    let mut text = String::new();
    caps.push_to(&mut text);
    assert_eq!(text, format!("{caps:?}"));
}

#[test]
fn status_shows_the_state() {
    assert_eq!(scanner(1).status().unwrap(), "Ready");
}

#[test]
fn watch_reports_changes_only() {
    let mut backend = scanner(1);
    let mut last = String::new();
    assert_eq!(backend.watch(&mut last).unwrap(), Some("Ready".into()));
    assert_eq!(backend.watch(&mut last).unwrap(), None);
    last = "NoFilm".into();
    assert_eq!(backend.watch(&mut last).unwrap(), Some("Ready".into()));
    assert_eq!(last, "Ready");
}

#[test]
fn scan_uses_the_adapter_geometry() {
    let frames = scanner(6).scan(&flags()).unwrap();
    assert_eq!(frames.len(), 1);
    assert_eq!(frames[0].rgb.dimensions(), (1, 2));
    assert_eq!(frames[0].rgb.get_pixel(0, 1), [0x0101u16; 3]);
}

#[test]
fn strip_takes_the_sensed_count() {
    assert_eq!(scanner(4).scan_strip(&flags(), None).unwrap().len(), 4);
    assert_eq!(scanner(4).scan_strip(&flags(), Some(2)).unwrap().len(), 2);
}

#[test]
fn strip_needs_frames() {
    assert_eq!(
        scanner(0).scan_strip(&flags(), None).err(),
        Some(DeviceError::NoFrames)
    );
    assert_eq!(
        scanner(4).scan_strip(&flags(), Some(0)).err(),
        Some(DeviceError::NoFrames)
    );
}

#[test]
fn impossible_geometry_is_refused() {
    let mut far = flags();
    far.offset = u32::MAX;
    assert!(matches!(
        scanner(1).scan(&far).err(),
        Some(DeviceError::Geometry(_))
    ));
    assert!(matches!(
        scanner(1).scan_strip(&far, None).err(),
        Some(DeviceError::Geometry(_))
    ));
    let mut flat = Backend::Ls50(Ls50::new(Scanner {
        n_frames: 1,
        boundary_x: 1,
        film: true,
        scans: 0,
    }));
    assert!(matches!(
        flat.scan(&flags()).err(),
        Some(DeviceError::Geometry(_))
    ));
}

#[test]
fn scan_failures_are_passed_on() {
    let mut empty = Backend::Ls50(Ls50::new(Scanner {
        n_frames: 1,
        boundary_x: 11,
        film: false,
        scans: 0,
    }));
    assert!(matches!(
        empty.scan(&flags()).err(),
        Some(DeviceError::Scan(ScanError::NotReady(_)))
    ));
    assert_eq!(empty.status().unwrap(), "NoFilm");
    assert!(empty.eject().is_ok());
}

#[test]
fn impossible_geometry_is_refused_only_once_prepared() {
    let mut far = flags();
    far.offset = u32::MAX;
    let mut empty = Backend::Ls50(Ls50::new(Scanner {
        n_frames: 1,
        boundary_x: 11,
        film: false,
        scans: 0,
    }));
    assert_eq!(
        empty.scan(&far).err(),
        Some(DeviceError::Scan(ScanError::NotReady(Status::NoFilm)))
    );
    assert_eq!(
        empty.scan_strip(&far, Some(3)).err(),
        Some(DeviceError::Scan(ScanError::NotReady(Status::NoFilm)))
    );
    assert_eq!(
        empty.scan_strip(&far, Some(0)).err(),
        Some(DeviceError::NoFrames)
    );
}
