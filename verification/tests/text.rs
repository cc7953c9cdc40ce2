//! Numbers and fields as text.

use nkscan::text::{parse_u8, push_decimal, push_two_digits, read_padded_field};

#[test]
fn decimal_is_what_format_writes() {
    for n in [0u64, 1, 9, 10, 11, 99, 100, 12345, u64::MAX] {
        let mut out = String::from("n=");
        push_decimal(&mut out, n);
        assert_eq!(out, format!("n={n}"));
        let mut padded = String::new();
        push_two_digits(&mut padded, n);
        assert_eq!(padded, format!("{n:02}"));
    }
}

#[test]
fn written_bytes_read_back() {
    for n in 0..=255u8 {
        let mut out = String::new();
        push_decimal(&mut out, n as u64);
        assert_eq!(parse_u8(&out), Some(n));
    }
}

#[test]
fn fields_lose_their_padding_only() {
    assert_eq!(read_padded_field(b"Nikon   "), "Nikon");
    assert_eq!(read_padded_field(b" a b "), " a b");
    assert_eq!(read_padded_field(b"    "), "");
    assert_eq!(read_padded_field(b""), "");
}
