//! Interleave-block image streams, as the LS-9000 sends them.

use nkscan::scanners::ls9000ed::decode::{Error, FrameDecoder, InterleaveDecoder};
use nkscan::scanners::ls9000ed::{CcdMode, Dpi, Multisample, ScanSettings, Window};

fn settings(ccd_mode: CcdMode, width: u32, height: u32) -> ScanSettings {
    ScanSettings {
        ccd_mode,
        ir: false,
        dpi: Dpi::_4000,
        multisample: Multisample::X1,
        window: Window::centred(0, height, width),
    }
}

/// Samples to their big-endian wire bytes.
fn be(samples: &[u16]) -> Vec<u8> {
    samples.iter().flat_map(|s| s.to_be_bytes()).collect()
}

/// `n` samples that count up from 0.
fn counting(n: u16) -> Vec<u8> {
    be(&(0..n).collect::<Vec<u16>>())
}

#[test]
fn geometry_of_three_lines() {
    let s = settings(CcdMode::ThreeLine, 36, 2);
    assert_eq!(s.output_dims(), Some((36, 2)));
    assert_eq!(s.stages(), Some(12));
    assert_eq!(s.ccd_block(), 12);
    assert_eq!(s.lines(), 3);
    assert_eq!(s.readouts(), 3);
    assert_eq!(s.expected_bytes(), Some(12 * 3 * 2 * 3 * 2));
}

#[test]
fn geometry_follows_the_resolution() {
    for (dpi, step, block) in [
        (Dpi::_4000, 1, 12),
        (Dpi::_2000, 2, 6),
        (Dpi::_1333, 3, 4),
        (Dpi::_333, 12, 1),
    ] {
        let mut s = settings(CcdMode::ThreeLine, 72, 24);
        s.dpi = dpi;
        assert_eq!(dpi.divisor(), step);
        assert_eq!(s.ccd_block(), block);
        assert_eq!(s.output_dims(), Some((72 / step, 24 / step)));
    }
}

#[test]
fn readouts_count_samples_and_infrared() {
    let mut s = settings(CcdMode::SingleLine, 1, 1);
    for (multisample, n) in [
        (Multisample::X1, 1),
        (Multisample::X2, 2),
        (Multisample::X4, 4),
        (Multisample::X8, 8),
        (Multisample::X16, 16),
    ] {
        s.multisample = multisample;
        s.ir = false;
        assert_eq!(multisample.count(), n);
        assert_eq!(s.readouts(), 3 * n);
        s.ir = true;
        assert_eq!(s.readouts(), 3 * n + 1);
    }
}

#[test]
fn columns_run_line_after_line() {
    // One block of 12 stage positions: 36 columns, 3 readouts of 3 lines each.
    let mut dec = InterleaveDecoder::new(&settings(CcdMode::ThreeLine, 36, 1)).unwrap();
    dec.push(&counting(108)).unwrap();
    let frame = dec.finish().unwrap().to_owned();
    assert_eq!(frame.rgb.dimensions(), (36, 1));
    for col in 0..36u16 {
        let base = col % 12 * 9 + col / 12;
        assert_eq!(frame.rgb.get_pixel(col as u32, 0), [base, base + 3, base + 6]);
    }
    assert!(frame.ir.is_none());
}

#[test]
fn sensor_bar_reads_bottom_up() {
    let mut dec = InterleaveDecoder::new(&settings(CcdMode::SingleLine, 2, 3)).unwrap();
    dec.push(&counting(18)).unwrap();
    let frame = dec.finish().unwrap().to_owned();
    assert_eq!(frame.rgb.dimensions(), (2, 3));
    assert_eq!(frame.rgb.get_pixel(0, 0), [2u16, 5, 8]);
    assert_eq!(frame.rgb.get_pixel(0, 2), [0u16, 3, 6]);
    assert_eq!(frame.rgb.get_pixel(1, 1), [10u16, 13, 16]);
}

#[test]
fn readings_are_averaged_and_infrared_is_the_fourth_readout() {
    let mut s = settings(CcdMode::SingleLine, 1, 1);
    s.multisample = Multisample::X2;
    s.ir = true;
    let mut dec = InterleaveDecoder::new(&s).unwrap();
    dec.push(&be(&[10, 20, 65535, 99, 13, 20, 65535])).unwrap();
    let frame = dec.finish().unwrap().to_owned();
    assert_eq!(frame.rgb.get_pixel(0, 0), [11u16, 20, 65535]);
    let ir = frame.ir.unwrap();
    assert_eq!(ir.dimensions(), (1, 1));
    assert_eq!(ir.get_pixel(0, 0), 99);
}

#[test]
fn tall_frames_are_tiled() {
    // More sensor pixels than one tile holds.
    let height = 600u16;
    let mut dec = InterleaveDecoder::new(&settings(CcdMode::SingleLine, 1, 600)).unwrap();
    dec.push(&counting(3 * height)).unwrap();
    let frame = dec.finish().unwrap().to_owned();
    for y in 0..height {
        let p = height - 1 - y;
        assert_eq!(
            frame.rgb.get_pixel(0, y as u32),
            [p, height + p, 2 * height + p]
        );
    }
}

#[test]
fn split_pushes_decode_as_one() {
    let data = counting(216);
    let mut whole = InterleaveDecoder::new(&settings(CcdMode::ThreeLine, 72, 1)).unwrap();
    whole.push(&data).unwrap();
    let whole = whole.finish().unwrap().to_owned();
    let mut split = InterleaveDecoder::new(&settings(CcdMode::ThreeLine, 72, 1)).unwrap();
    for chunk in data.chunks(7) {
        split.push(chunk).unwrap();
    }
    let split = split.finish().unwrap().to_owned();
    assert_eq!(whole.rgb.samples, split.rgb.samples);
}

#[test]
fn indivisible_windows_are_refused() {
    let mut s = settings(CcdMode::ThreeLine, 36, 3);
    s.dpi = Dpi::_2000;
    assert_eq!(s.output_dims(), None);
    assert_eq!(s.expected_bytes(), None);
    assert!(matches!(
        InterleaveDecoder::new(&s),
        Err(Error::IndivisibleWindow)
    ));
    // The columns do not make whole stage positions.
    let s = settings(CcdMode::ThreeLine, 37, 1);
    assert_eq!(s.stages(), None);
    assert!(matches!(
        InterleaveDecoder::new(&s),
        Err(Error::IndivisibleWindow)
    ));
}

#[test]
fn unaligned_stages_are_refused() {
    assert!(matches!(
        InterleaveDecoder::new(&settings(CcdMode::ThreeLine, 39, 1)),
        Err(Error::UnalignedStageExtent {
            stages: 13,
            block: 12
        })
    ));
}

#[test]
fn stream_has_to_be_exact() {
    let mut dec = InterleaveDecoder::new(&settings(CcdMode::SingleLine, 1, 1)).unwrap();
    dec.push(&[0; 5]).unwrap();
    assert!(matches!(
        dec.finish(),
        Err(Error::LengthMismatch {
            got: 5,
            expected: 6
        })
    ));
    assert_eq!(
        dec.push(&[0; 2]),
        Err(Error::LengthMismatch {
            got: 7,
            expected: 6
        })
    );
    assert!(matches!(dec.finish(), Err(Error::LengthMismatch { got: 7, .. })));
    dec.reset();
    dec.push(&be(&[7, 8, 9])).unwrap();
    assert_eq!(dec.finish().unwrap().rgb.samples, [7u16, 8, 9]);
}
