//! Numbers as little-endian bytes, as the wire and the archive hold them.

use vstd::prelude::*;

verus! {

/// The two bytes of `x`, least significant first.
pub open spec fn le16(x: u16) -> Seq<u8> {
    seq![(x % 256) as u8, (x / 256) as u8]
}

/// The four bytes of `x`, least significant first.
pub open spec fn le32(x: u32) -> Seq<u8> {
    seq![
        (x % 256) as u8,
        ((x / 256) % 256) as u8,
        ((x / 65536) % 256) as u8,
        (x / 16777216) as u8,
    ]
}

/// The number whose little-endian bytes are `lo`, `hi`.
pub open spec fn from_le16(lo: u8, hi: u8) -> u16 {
    (lo as int + 256 * (hi as int)) as u16
}

/// The number whose little-endian bytes are `b0` to `b3`.
pub open spec fn from_le32(b0: u8, b1: u8, b2: u8, b3: u8) -> u32 {
    (b0 as int + 256 * (b1 as int) + 65536 * (b2 as int) + 16777216 * (b3 as int)) as u32
}

/// Little-endian bytes give back the number that they were made from.
pub proof fn lemma_le_bytes_round_trip(x: u16, y: u32)
    ensures
        le16(x).len() == 2,
        le32(y).len() == 4,
        from_le16(le16(x)[0], le16(x)[1]) == x,
        from_le32(le32(y)[0], le32(y)[1], le32(y)[2], le32(y)[3]) == y,
{
}

/// Appends the two bytes of `x` to `v`.
pub fn push_le16(v: &mut Vec<u8>, x: u16)
    ensures
        final(v)@ == old(v)@ + le16(x),
{
    v.push((x % 256) as u8);
    v.push((x / 256) as u8);
    assert(v@ =~= old(v)@ + le16(x));
}

/// Appends the four bytes of `x` to `v`.
pub fn push_le32(v: &mut Vec<u8>, x: u32)
    ensures
        final(v)@ == old(v)@ + le32(x),
{
    v.push((x % 256) as u8);
    v.push(((x / 256) % 256) as u8);
    v.push(((x / 65536) % 256) as u8);
    v.push((x / 16777216) as u8);
    assert(v@ =~= old(v)@ + le32(x));
}

/// The number whose little-endian bytes are `lo`, `hi`.
pub fn u16_from_le(lo: u8, hi: u8) -> (x: u16)
    ensures
        x == from_le16(lo, hi),
{
    lo as u16 + 256 * (hi as u16)
}

/// The number whose little-endian bytes are `b0` to `b3`.
pub fn u32_from_le(b0: u8, b1: u8, b2: u8, b3: u8) -> (x: u32)
    ensures
        x == from_le32(b0, b1, b2, b3),
{
    b0 as u32 + 256 * (b1 as u32) + 65536 * (b2 as u32) + 16777216 * (b3 as u32)
}

} // verus!
