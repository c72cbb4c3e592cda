//! Fixed-width integers as big-endian byte strings.
use vstd::prelude::*;

verus! {

/// The eight bytes of `x`, most significant first.
pub open spec fn be64(x: u64) -> Seq<u8> {
    seq![
        ((x >> 56u64) & 0xffu64) as u8,
        ((x >> 48u64) & 0xffu64) as u8,
        ((x >> 40u64) & 0xffu64) as u8,
        ((x >> 32u64) & 0xffu64) as u8,
        ((x >> 24u64) & 0xffu64) as u8,
        ((x >> 16u64) & 0xffu64) as u8,
        ((x >> 8u64) & 0xffu64) as u8,
        (x & 0xffu64) as u8,
    ]
}

/// The value of eight bytes read most significant first.
pub open spec fn be64_value(s: Seq<u8>) -> u64 {
    (s[0] as u64) << 56u64 | (s[1] as u64) << 48u64 | (s[2] as u64) << 40u64 | (s[3] as u64)
        << 32u64 | (s[4] as u64) << 24u64 | (s[5] as u64) << 16u64 | (s[6] as u64) << 8u64 | (
    s[7] as u64)
}

/// The four bytes of `x`, most significant first.
pub open spec fn be32(x: u32) -> Seq<u8> {
    seq![
        ((x >> 24u32) & 0xffu32) as u8,
        ((x >> 16u32) & 0xffu32) as u8,
        ((x >> 8u32) & 0xffu32) as u8,
        (x & 0xffu32) as u8,
    ]
}

/// The value of four bytes read most significant first.
pub open spec fn be32_value(s: Seq<u8>) -> u32 {
    (s[0] as u32) << 24u32 | (s[1] as u32) << 16u32 | (s[2] as u32) << 8u32 | (s[3] as u32)
}

pub proof fn lemma_be64_round_trip(x: u64)
    ensures
        be64(x).len() == 8,
        be64_value(be64(x)) == x,
{
    let s = be64(x);
    let b0 = (x >> 56u64) & 0xffu64;
    let b1 = (x >> 48u64) & 0xffu64;
    let b2 = (x >> 40u64) & 0xffu64;
    let b3 = (x >> 32u64) & 0xffu64;
    let b4 = (x >> 24u64) & 0xffu64;
    let b5 = (x >> 16u64) & 0xffu64;
    let b6 = (x >> 8u64) & 0xffu64;
    let b7 = x & 0xffu64;
    assert(b0 < 256 && b1 < 256 && b2 < 256 && b3 < 256 && b4 < 256 && b5 < 256 && b6 < 256
        && b7 < 256) by (bit_vector)
        requires
            b0 == (x >> 56u64) & 0xffu64,
            b1 == (x >> 48u64) & 0xffu64,
            b2 == (x >> 40u64) & 0xffu64,
            b3 == (x >> 32u64) & 0xffu64,
            b4 == (x >> 24u64) & 0xffu64,
            b5 == (x >> 16u64) & 0xffu64,
            b6 == (x >> 8u64) & 0xffu64,
            b7 == x & 0xffu64,
    ;
    assert(s[0] as u64 == b0 && s[1] as u64 == b1 && s[2] as u64 == b2 && s[3] as u64 == b3
        && s[4] as u64 == b4 && s[5] as u64 == b5 && s[6] as u64 == b6 && s[7] as u64 == b7);
    assert(b0 << 56u64 | b1 << 48u64 | b2 << 40u64 | b3 << 32u64 | b4 << 24u64 | b5 << 16u64 | b6
        << 8u64 | b7 == x) by (bit_vector)
        requires
            b0 == (x >> 56u64) & 0xffu64,
            b1 == (x >> 48u64) & 0xffu64,
            b2 == (x >> 40u64) & 0xffu64,
            b3 == (x >> 32u64) & 0xffu64,
            b4 == (x >> 24u64) & 0xffu64,
            b5 == (x >> 16u64) & 0xffu64,
            b6 == (x >> 8u64) & 0xffu64,
            b7 == x & 0xffu64,
    ;
}

pub proof fn lemma_be32_round_trip(x: u32)
    ensures
        be32(x).len() == 4,
        be32_value(be32(x)) == x,
{
    let s = be32(x);
    let b0 = (x >> 24u32) & 0xffu32;
    let b1 = (x >> 16u32) & 0xffu32;
    let b2 = (x >> 8u32) & 0xffu32;
    let b3 = x & 0xffu32;
    assert(b0 < 256 && b1 < 256 && b2 < 256 && b3 < 256) by (bit_vector)
        requires
            b0 == (x >> 24u32) & 0xffu32,
            b1 == (x >> 16u32) & 0xffu32,
            b2 == (x >> 8u32) & 0xffu32,
            b3 == x & 0xffu32,
    ;
    assert(s[0] as u32 == b0 && s[1] as u32 == b1 && s[2] as u32 == b2 && s[3] as u32 == b3);
    assert(b0 << 24u32 | b1 << 16u32 | b2 << 8u32 | b3 == x) by (bit_vector)
        requires
            b0 == (x >> 24u32) & 0xffu32,
            b1 == (x >> 16u32) & 0xffu32,
            b2 == (x >> 8u32) & 0xffu32,
            b3 == x & 0xffu32,
    ;
}

/// The four bytes of `x`, least significant first.
pub open spec fn le32(x: u32) -> Seq<u8> {
    seq![
        (x & 0xffu32) as u8,
        ((x >> 8u32) & 0xffu32) as u8,
        ((x >> 16u32) & 0xffu32) as u8,
        ((x >> 24u32) & 0xffu32) as u8,
    ]
}

/// The little-endian bytes of `x`.
pub fn u32_le_bytes(x: u32) -> (r: Vec<u8>)
    ensures
        r@ == le32(x),
{
    let mut out: Vec<u8> = Vec::new();
    out.push((x & 0xffu32) as u8);
    out.push(((x >> 8u32) & 0xffu32) as u8);
    out.push(((x >> 16u32) & 0xffu32) as u8);
    out.push(((x >> 24u32) & 0xffu32) as u8);
    assert(out@ =~= le32(x));
    out
}

/// The eight bytes of `x`, least significant first.
pub open spec fn le64(x: u64) -> Seq<u8> {
    seq![
        (x & 0xffu64) as u8,
        ((x >> 8u64) & 0xffu64) as u8,
        ((x >> 16u64) & 0xffu64) as u8,
        ((x >> 24u64) & 0xffu64) as u8,
        ((x >> 32u64) & 0xffu64) as u8,
        ((x >> 40u64) & 0xffu64) as u8,
        ((x >> 48u64) & 0xffu64) as u8,
        ((x >> 56u64) & 0xffu64) as u8,
    ]
}

/// The value of eight bytes read least significant first.
pub open spec fn le64_value(s: Seq<u8>) -> u64 {
    be64_value(seq![s[7], s[6], s[5], s[4], s[3], s[2], s[1], s[0]])
}

pub proof fn lemma_le64_round_trip(x: u64)
    ensures
        le64(x).len() == 8,
        le64_value(le64(x)) == x,
{
    lemma_be64_round_trip(x);
    let l = le64(x);
    assert(seq![l[7], l[6], l[5], l[4], l[3], l[2], l[1], l[0]] =~= be64(x));
}

/// Appends the little-endian bytes of `x`.
pub fn put_u64_le(out: &mut Vec<u8>, x: u64)
    ensures
        final(out)@ == old(out)@ + le64(x),
{
    out.push((x & 0xffu64) as u8);
    out.push(((x >> 8u64) & 0xffu64) as u8);
    out.push(((x >> 16u64) & 0xffu64) as u8);
    out.push(((x >> 24u64) & 0xffu64) as u8);
    out.push(((x >> 32u64) & 0xffu64) as u8);
    out.push(((x >> 40u64) & 0xffu64) as u8);
    out.push(((x >> 48u64) & 0xffu64) as u8);
    out.push(((x >> 56u64) & 0xffu64) as u8);
    assert(final(out)@ =~= old(out)@ + le64(x));
}

/// Reads eight little-endian bytes starting at `pos`.
pub fn get_u64_le(b: &[u8], pos: usize) -> (r: u64)
    requires
        pos + 8 <= b@.len(),
    ensures
        r == le64_value(b@.subrange(pos as int, pos + 8)),
{
    let end = b.len();
    assert(pos + 8 <= end);
    (b[pos + 7] as u64) << 56u64 | (b[pos + 6] as u64) << 48u64 | (b[pos + 5] as u64) << 40u64 | (b[pos
        + 4] as u64) << 32u64 | (b[pos + 3] as u64) << 24u64 | (b[pos + 2] as u64) << 16u64 | (b[pos
        + 1] as u64) << 8u64 | (b[pos] as u64)
}

/// Appends the big-endian bytes of `x`.
pub fn put_u64(out: &mut Vec<u8>, x: u64)
    ensures
        final(out)@ == old(out)@ + be64(x),
{
    out.push(((x >> 56u64) & 0xffu64) as u8);
    out.push(((x >> 48u64) & 0xffu64) as u8);
    out.push(((x >> 40u64) & 0xffu64) as u8);
    out.push(((x >> 32u64) & 0xffu64) as u8);
    out.push(((x >> 24u64) & 0xffu64) as u8);
    out.push(((x >> 16u64) & 0xffu64) as u8);
    out.push(((x >> 8u64) & 0xffu64) as u8);
    out.push((x & 0xffu64) as u8);
    assert(final(out)@ =~= old(out)@ + be64(x));
}

/// Appends the big-endian bytes of `x`.
pub fn put_u32(out: &mut Vec<u8>, x: u32)
    ensures
        final(out)@ == old(out)@ + be32(x),
{
    out.push(((x >> 24u32) & 0xffu32) as u8);
    out.push(((x >> 16u32) & 0xffu32) as u8);
    out.push(((x >> 8u32) & 0xffu32) as u8);
    out.push((x & 0xffu32) as u8);
    assert(final(out)@ =~= old(out)@ + be32(x));
}

/// Reads eight big-endian bytes starting at `pos`.
pub fn get_u64(b: &[u8], pos: usize) -> (r: u64)
    requires
        pos + 8 <= b@.len(),
    ensures
        r == be64_value(b@.subrange(pos as int, pos + 8)),
{
    (b[pos] as u64) << 56u64 | (b[pos + 1] as u64) << 48u64 | (b[pos + 2] as u64) << 40u64 | (b[pos
        + 3] as u64) << 32u64 | (b[pos + 4] as u64) << 24u64 | (b[pos + 5] as u64) << 16u64 | (b[pos
        + 6] as u64) << 8u64 | (b[pos + 7] as u64)
}

/// Reads four big-endian bytes starting at `pos`.
pub fn get_u32(b: &[u8], pos: usize) -> (r: u32)
    requires
        pos + 4 <= b@.len(),
    ensures
        r == be32_value(b@.subrange(pos as int, pos + 4)),
{
    (b[pos] as u32) << 24u32 | (b[pos + 1] as u32) << 16u32 | (b[pos + 2] as u32) << 8u32 | (b[pos
        + 3] as u32)
}

} // verus!
