//! Planar image streams, as the LS-50 sends them.

use nkscan::scanners::decode::{sample_at, ImageView, MaskView};
use nkscan::scanners::ls50::decode::{Error, Frame, FrameDecoder, PlanarDecoder};
use nkscan::scanners::ls50::{AdapterCaps, ScanSettings};

/// Samples to their big-endian wire bytes (2 bytes each), as the scanner sends.
fn be(samples: &[u16]) -> Vec<u8> {
    samples.iter().flat_map(|s| s.to_be_bytes()).collect()
}

/// Push `data` as one whole stream, then finish.
fn decode(data: &[u8], width: usize, height: usize, n_colors: usize, stride: usize) -> Frame {
    let mut dec = PlanarDecoder::from_dims(width, height, n_colors, stride);
    dec.push(data).unwrap();
    dec.finish().unwrap().to_owned()
}

#[test]
fn deinterleaves_planar_line() {
    // 2x2, three planes back to back per line: R[..] G[..] B[..] (width even).
    // Six samples/line at 2 bytes each -> stride 12.
    let data = be(&[
        10, 11, 20, 21, 30, 31, // line 0: R[10,11] G[20,21] B[30,31]
        40, 41, 50, 51, 60, 61, // line 1
    ]);
    let frame = decode(&data, 2, 2, 3, 12);
    assert!(frame.ir.is_none());
    assert_eq!(frame.rgb.get_pixel(0, 0), [10u16, 20, 30]);
    assert_eq!(frame.rgb.get_pixel(1, 0), [11u16, 21, 31]);
    assert_eq!(frame.rgb.get_pixel(0, 1), [40u16, 50, 60]);
    assert_eq!(frame.rgb.get_pixel(1, 1), [41u16, 51, 61]);
}

#[test]
fn reads_samples_big_endian() {
    // A sample above 255 must decode from both wire bytes, not just the low one.
    // width 1 -> planes padded to 2 samples: R@0 G@2 B@4.
    let data = be(&[0x0102, 0, 0x0304, 0, 0x0506, 0]);
    let frame = decode(&data, 1, 1, 3, 12);
    assert_eq!(frame.rgb.get_pixel(0, 0), [0x0102u16, 0x0304, 0x0506]);
}

#[test]
fn splits_rgb_and_ir_planes() {
    // 2x2, four planes per line: R G B I. The 4th plane is the IR mask.
    // Eight samples/line -> stride 16.
    let data = be(&[
        10, 11, 20, 21, 30, 31, 90, 91, // line 0: R G B I
        40, 41, 50, 51, 60, 61, 92, 93, // line 1
    ]);
    let frame = decode(&data, 2, 2, 4, 16);
    assert_eq!(frame.rgb.get_pixel(0, 0), [10u16, 20, 30]);
    assert_eq!(frame.rgb.get_pixel(1, 1), [41u16, 51, 61]);
    let ir = frame.ir.expect("IR plane present");
    assert_eq!(ir.dimensions(), (2, 2));
    assert_eq!(ir.get_pixel(0, 0), 90u16);
    assert_eq!(ir.get_pixel(1, 0), 91u16);
    assert_eq!(ir.get_pixel(0, 1), 92u16);
    assert_eq!(ir.get_pixel(1, 1), 93u16);
}

#[test]
fn pads_odd_width_planes_to_even() {
    // width 1 -> each plane is 2 samples (1 sample + 1 pad); the pad is skipped.
    // Six samples/line -> stride 12.
    let data = be(&[
        9, 0xAAAA, 8, 0xBBBB, 7, 0xCCCC, // line 0: R[9,_] G[8,_] B[7,_]
        1, 0xA0A0, 2, 0xB0B0, 3, 0xC0C0, // line 1
    ]);
    let frame = decode(&data, 1, 2, 3, 12);
    assert_eq!(frame.rgb.get_pixel(0, 0), [9u16, 8, 7]);
    assert_eq!(frame.rgb.get_pixel(0, 1), [1u16, 2, 3]);
}

#[test]
fn drops_block_padding() {
    // 2x1: planes need 6 samples (12 bytes), stride 16 -> 2 trailing pad samples.
    let data = be(&[5, 6, 15, 16, 25, 26, 0xEEEE, 0xFFFF]);
    let frame = decode(&data, 2, 1, 3, 16);
    assert_eq!(frame.rgb.get_pixel(0, 0), [5u16, 15, 25]);
    assert_eq!(frame.rgb.get_pixel(1, 0), [6u16, 16, 26]);
}

#[test]
fn reassembles_across_split_pushes() {
    // A line split mid-sample over two pushes still emits once the stride fills.
    let mut dec = PlanarDecoder::from_dims(2, 1, 3, 12);
    let line = be(&[5, 6, 15, 16, 25, 26]);
    dec.push(&line[..5]).unwrap(); // split on an odd byte (mid-sample)
    dec.push(&line[5..]).unwrap();
    let frame = dec.finish().unwrap().to_owned();
    assert_eq!(frame.rgb.get_pixel(0, 0), [5u16, 15, 25]);
    assert_eq!(frame.rgb.get_pixel(1, 0), [6u16, 16, 26]);
}

#[test]
fn short_stream_yields_only_the_lines_received() {
    // Height 2 declared, only line 0 pushed -> a 1-row frame, not an error.
    let mut dec = PlanarDecoder::from_dims(2, 2, 3, 12);
    dec.push(&be(&[5, 6, 15, 16, 25, 26])).unwrap();
    let frame = dec.finish().unwrap().to_owned();
    assert_eq!(frame.rgb.dimensions(), (2, 1));
    assert_eq!(frame.rgb.get_pixel(0, 0), [5u16, 15, 25]);
}

#[test]
fn rejects_overlong_stream() {
    let mut dec = PlanarDecoder::from_dims(2, 1, 3, 12);
    assert!(matches!(
        dec.push(&[0; 13]),
        Err(Error::LengthMismatch { .. })
    ));
}

/// Offer `data` one byte at a time.
fn drip(dec: &mut PlanarDecoder, data: &[u8]) {
    for byte in data {
        dec.push(&[*byte]).unwrap();
    }
}

#[test]
fn byte_by_byte_decodes_as_one_push() {
    let data = be(&[
        10, 11, 20, 21, 30, 31, 90, 91, 40, 41, 50, 51, 60, 61, 92, 93,
    ]);
    let mut dec = PlanarDecoder::from_dims(2, 2, 4, 16);
    drip(&mut dec, &data);
    let split = dec.finish().unwrap().to_owned();
    let whole = decode(&data, 2, 2, 4, 16);
    assert_eq!(split.rgb.samples, whole.rgb.samples);
    assert_eq!(
        split.ir.map(|ir| ir.samples),
        whole.ir.map(|ir| ir.samples)
    );
}

#[test]
fn reset_starts_a_fresh_frame() {
    let mut dec = PlanarDecoder::from_dims(1, 2, 3, 12);
    dec.push(&be(&[9, 9, 9, 9, 9, 9])).unwrap();
    dec.push(&[1, 2, 3]).unwrap();
    dec.reset();
    dec.push(&be(&[1, 0, 2, 0, 3, 0])).unwrap();
    let frame = dec.finish().unwrap().to_owned();
    assert_eq!(frame.rgb.dimensions(), (1, 1));
    assert_eq!(frame.rgb.get_pixel(0, 0), [1u16, 2, 3]);
}

#[test]
fn overlong_stream_stays_refused() {
    let mut dec = PlanarDecoder::from_dims(2, 1, 3, 12);
    assert_eq!(
        dec.push(&[0; 13]),
        Err(Error::LengthMismatch {
            got: 13,
            expected: 12
        })
    );
    assert_eq!(
        dec.push(&[0; 1]),
        Err(Error::LengthMismatch {
            got: 14,
            expected: 12
        })
    );
    dec.reset();
    assert_eq!(dec.push(&[0; 12]), Ok(()));
}

#[test]
fn padding_does_not_show() {
    let a = decode(&be(&[5, 1, 15, 2, 25, 3, 0xEEEE, 0xFFFF]), 1, 1, 3, 16);
    let b = decode(&be(&[5, 7, 15, 8, 25, 9, 0, 0]), 1, 1, 3, 16);
    assert_eq!(a.rgb.samples, b.rgb.samples);
    assert_eq!(a.rgb.samples, vec![5, 15, 25]);
}

#[test]
fn trailing_partial_line_is_dropped() {
    let mut data = be(&[5, 6, 15, 16, 25, 26]);
    data.extend_from_slice(&[1, 2, 3]);
    let frame = decode(&data, 2, 2, 3, 12);
    assert_eq!(frame.rgb.dimensions(), (2, 1));
    assert_eq!(frame.rgb.samples, vec![5, 15, 25, 6, 16, 26]);
}

#[test]
fn empty_stream_is_an_empty_frame() {
    let frame = decode(&[], 2, 2, 4, 16);
    assert_eq!(frame.rgb.dimensions(), (2, 0));
    assert_eq!(frame.ir.unwrap().dimensions(), (2, 0));
}

#[test]
fn decoder_follows_settings() {
    let settings = ScanSettings {
        dpi: 2,
        infrared: true,
        samples: 1,
        autoexposure: false,
        autofocus: false,
        caps: AdapterCaps::default(),
    };
    assert!(settings.fits());
    let mut dec = PlanarDecoder::new(&settings).unwrap();
    let mut line = be(&[1, 0, 2, 0, 3, 0, 4, 0]);
    line.resize(512, 0xEE);
    dec.push(&line).unwrap();
    dec.push(&line).unwrap();
    assert!(matches!(dec.push(&[0]), Err(Error::LengthMismatch { .. })));
    let frame = dec.finish().unwrap().to_owned();
    assert_eq!(frame.rgb.dimensions(), (1, 2));
    assert_eq!(frame.rgb.get_pixel(0, 1), [1u16, 2, 3]);
    assert_eq!(frame.ir.unwrap().get_pixel(0, 1), 4);
}

#[test]
fn image_views_need_their_samples() {
    let samples = [1u16, 2, 3, 4, 5, 6];
    assert!(ImageView::from_raw(2, 1, &samples).is_some());
    assert!(ImageView::from_raw(1, 1, &samples).is_some());
    assert!(ImageView::from_raw(1, 3, &samples).is_none());
    assert!(MaskView::from_raw(3, 2, &samples).is_some());
    assert!(MaskView::from_raw(7, 1, &samples).is_none());
    assert_eq!(ImageView::from_raw(2, 1, &samples).unwrap().samples, samples);
    assert_eq!(MaskView::from_raw(3, 2, &samples).unwrap().samples, samples);
}

#[test]
fn samples_are_read_most_significant_byte_first() {
    assert_eq!(sample_at(&[0x01, 0x02, 0x03, 0x04], 0), 0x0102);
    assert_eq!(sample_at(&[0x01, 0x02, 0x03, 0x04], 1), 0x0304);
}
