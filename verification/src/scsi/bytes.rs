//! Big-endian integers, as they stand on the wire.

use vstd::prelude::*;

verus! {

/// The 16-bit value of two bytes, most significant first.
pub open spec fn be16(hi: u8, lo: u8) -> u16 {
    (hi * 0x100 + lo) as u16
}

/// The 32-bit value of four bytes, most significant first.
pub open spec fn be32(b0: u8, b1: u8, b2: u8, b3: u8) -> u32 {
    (b0 * 0x100_0000 + b1 * 0x1_0000 + b2 * 0x100 + b3) as u32
}

/// The 16-bit value at offset `i` of `bytes`.
pub open spec fn be16_at(bytes: Seq<u8>, i: int) -> u16 {
    be16(bytes[i], bytes[i + 1])
}

/// The 32-bit value at offset `i` of `bytes`.
pub open spec fn be32_at(bytes: Seq<u8>, i: int) -> u32 {
    be32(bytes[i], bytes[i + 1], bytes[i + 2], bytes[i + 3])
}

/// Byte `k` of `v`, counted from the least significant.
pub open spec fn byte_of(v: int, k: nat) -> u8 {
    if k == 0 {
        (v % 0x100) as u8
    } else if k == 1 {
        (v / 0x100 % 0x100) as u8
    } else if k == 2 {
        (v / 0x1_0000 % 0x100) as u8
    } else {
        (v / 0x100_0000 % 0x100) as u8
    }
}

/// The two bytes of `v`, most significant first.
pub open spec fn be16_bytes(v: u16) -> Seq<u8> {
    seq![byte_of(v as int, 1), byte_of(v as int, 0)]
}

/// The four bytes of `v`, most significant first.
pub open spec fn be32_bytes(v: u32) -> Seq<u8> {
    seq![byte_of(v as int, 3), byte_of(v as int, 2), byte_of(v as int, 1), byte_of(v as int, 0)]
}

/// `n` zero bytes.
pub open spec fn zeros(n: nat) -> Seq<u8> {
    Seq::new(n, |i: int| 0u8)
}

/// Four bytes written most significant first read back as the value they were written from.
pub proof fn lemma_be32_round_trip(v: u32)
    ensures
        be32_at(be32_bytes(v), 0) == v,
{
}

/// Two bytes written most significant first read back as the value they were written from.
pub proof fn lemma_be16_round_trip(v: u16)
    ensures
        be16_at(be16_bytes(v), 0) == v,
{
}

/// Read the 16-bit value at offset `i`.
pub fn read_be16(bytes: &[u8], i: usize) -> (v: u16)
    requires
        i + 2 <= bytes@.len(),
    ensures
        v == be16_at(bytes@, i as int),
{
    bytes[i] as u16 * 0x100 + bytes[i + 1] as u16
}

/// Read the 32-bit value at offset `i`.
pub fn read_be32(bytes: &[u8], i: usize) -> (v: u32)
    requires
        i + 4 <= bytes@.len(),
    ensures
        v == be32_at(bytes@, i as int),
{
    bytes[i] as u32 * 0x100_0000 + bytes[i + 1] as u32 * 0x1_0000 + bytes[i + 2] as u32 * 0x100
        + bytes[i + 3] as u32
}

/// Append the two bytes of `v`, most significant first.
pub fn push_be16(out: &mut Vec<u8>, v: u16)
    ensures
        final(out)@ == old(out)@ + be16_bytes(v),
{
    out.push((v / 0x100) as u8);
    out.push((v % 0x100) as u8);
    assert(out@ =~= old(out)@ + be16_bytes(v));
}

/// Append the four bytes of `v`, most significant first.
pub fn push_be32(out: &mut Vec<u8>, v: u32)
    ensures
        final(out)@ == old(out)@ + be32_bytes(v),
{
    out.push((v / 0x100_0000) as u8);
    out.push((v / 0x1_0000 % 0x100) as u8);
    out.push((v / 0x100 % 0x100) as u8);
    out.push((v % 0x100) as u8);
    assert(out@ =~= old(out)@ + be32_bytes(v));
}

/// A buffer of `n` zero bytes.
pub fn zero_bytes(n: usize) -> (out: Vec<u8>)
    ensures
        out@ == zeros(n as nat),
{
    let out: Vec<u8> = vec![0u8; n];
    assert(out@ =~= zeros(n as nat));
    out
}

} // verus!
