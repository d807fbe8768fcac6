//! Little-endian byte encoding of 64-bit integers, as the record files store them.

use vstd::prelude::*;

verus! {

/// The value whose little-endian bytes are `b0` .. `b7`.
pub open spec fn u64_of_bytes(b0: u8, b1: u8, b2: u8, b3: u8, b4: u8, b5: u8, b6: u8, b7: u8) -> u64 {
    (b0 as u64) | ((b1 as u64) << 8) | ((b2 as u64) << 16) | ((b3 as u64) << 24) | ((b4 as u64)
        << 32) | ((b5 as u64) << 40) | ((b6 as u64) << 48) | ((b7 as u64) << 56)
}

/// The eight little-endian bytes of `v`.
pub open spec fn u64_le_bytes(v: u64) -> Seq<u8> {
    seq![
        (v & 0xff) as u8,
        ((v >> 8) & 0xff) as u8,
        ((v >> 16) & 0xff) as u8,
        ((v >> 24) & 0xff) as u8,
        ((v >> 32) & 0xff) as u8,
        ((v >> 40) & 0xff) as u8,
        ((v >> 48) & 0xff) as u8,
        ((v >> 56) & 0xff) as u8,
    ]
}

/// The value of the first eight bytes of `b`, read little-endian.
pub open spec fn u64_from_le(b: Seq<u8>) -> u64 {
    u64_of_bytes(b[0], b[1], b[2], b[3], b[4], b[5], b[6], b[7])
}

/// The eight little-endian bytes of `v` in two's complement.
pub open spec fn i64_le_bytes(v: i64) -> Seq<u8> {
    u64_le_bytes(v as u64)
}

/// The two's-complement value of the first eight bytes of `b`, read little-endian.
pub open spec fn i64_from_le(b: Seq<u8>) -> i64 {
    u64_from_le(b) as i64
}

/// Reading back the bytes of a value gives the value.
pub proof fn lemma_u64_bytes_roundtrip(v: u64)
    ensures
        u64_from_le(u64_le_bytes(v)) == v,
{
    assert(u64_of_bytes(
        (v & 0xff) as u8,
        ((v >> 8) & 0xff) as u8,
        ((v >> 16) & 0xff) as u8,
        ((v >> 24) & 0xff) as u8,
        ((v >> 32) & 0xff) as u8,
        ((v >> 40) & 0xff) as u8,
        ((v >> 48) & 0xff) as u8,
        ((v >> 56) & 0xff) as u8,
    ) == v) by (bit_vector);
}

/// Writing the value of eight bytes gives the same bytes.
pub proof fn lemma_u64_value_roundtrip(b: Seq<u8>)
    requires
        b.len() == 8,
    ensures
        u64_le_bytes(u64_from_le(b)) == b,
{
    let (b0, b1, b2, b3, b4, b5, b6, b7) = (b[0], b[1], b[2], b[3], b[4], b[5], b[6], b[7]);
    let v = u64_of_bytes(b0, b1, b2, b3, b4, b5, b6, b7);
    assert((v & 0xff) as u8 == b0 && ((v >> 8) & 0xff) as u8 == b1 && ((v >> 16) & 0xff) as u8 == b2
        && ((v >> 24) & 0xff) as u8 == b3 && ((v >> 32) & 0xff) as u8 == b4 && ((v >> 40) & 0xff) as u8
        == b5 && ((v >> 48) & 0xff) as u8 == b6 && ((v >> 56) & 0xff) as u8 == b7) by (bit_vector)
        requires
            v == u64_of_bytes(b0, b1, b2, b3, b4, b5, b6, b7),
    ;
    assert(u64_le_bytes(v) =~= b);
}

/// Reading back the bytes of a signed value gives the value.
pub proof fn lemma_i64_bytes_roundtrip(v: i64)
    ensures
        i64_from_le(i64_le_bytes(v)) == v,
{
    lemma_u64_bytes_roundtrip(v as u64);
    assert(((v as u64) as i64) == v) by (bit_vector);
}

/// Writing the signed value of eight bytes gives the same bytes.
pub proof fn lemma_i64_value_roundtrip(b: Seq<u8>)
    requires
        b.len() == 8,
    ensures
        i64_le_bytes(i64_from_le(b)) == b,
{
    let u = u64_from_le(b);
    assert(((u as i64) as u64) == u) by (bit_vector);
    lemma_u64_value_roundtrip(b);
}

/// Appends the little-endian bytes of `v` to `out`.
pub fn push_u64_le(out: &mut Vec<u8>, v: u64)
    ensures
        final(out)@ == old(out)@ + u64_le_bytes(v),
{
    out.push((v & 0xff) as u8);
    out.push(((v >> 8) & 0xff) as u8);
    out.push(((v >> 16) & 0xff) as u8);
    out.push(((v >> 24) & 0xff) as u8);
    out.push(((v >> 32) & 0xff) as u8);
    out.push(((v >> 40) & 0xff) as u8);
    out.push(((v >> 48) & 0xff) as u8);
    out.push(((v >> 56) & 0xff) as u8);
    assert(final(out)@ =~= old(out)@ + u64_le_bytes(v));
}

/// Appends the little-endian two's-complement bytes of `v` to `out`.
pub fn push_i64_le(out: &mut Vec<u8>, v: i64)
    ensures
        final(out)@ == old(out)@ + i64_le_bytes(v),
{
    push_u64_le(out, v as u64);
}

/// The value of the eight bytes of `b` from `start` on, read little-endian.
pub fn read_u64_le(b: &[u8], start: usize) -> (v: u64)
    requires
        start + 8 <= b@.len(),
    ensures
        v == u64_from_le(b@.subrange(start as int, start + 8)),
{
    (b[start] as u64) | ((b[start + 1] as u64) << 8) | ((b[start + 2] as u64) << 16) | ((b[start
        + 3] as u64) << 24) | ((b[start + 4] as u64) << 32) | ((b[start + 5] as u64) << 40) | ((b[start
        + 6] as u64) << 48) | ((b[start + 7] as u64) << 56)
}

/// The two's-complement value of the eight bytes of `b` from `start` on, read little-endian.
pub fn read_i64_le(b: &[u8], start: usize) -> (v: i64)
    requires
        start + 8 <= b@.len(),
    ensures
        v == i64_from_le(b@.subrange(start as int, start + 8)),
{
    read_u64_le(b, start) as i64
}

} // verus!
