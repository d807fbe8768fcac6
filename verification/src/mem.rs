//! Fixed-width, zero-padded byte fields.

use vstd::prelude::*;

verus! {

/// The field of `size` bytes that holds `bytes`: the first `size` bytes of
/// `bytes`, followed by zero bytes up to `size`.
pub open spec fn fixed_field(bytes: Seq<u8>, size: nat) -> Seq<u8> {
    Seq::new(size, |i: int| if i < bytes.len() { bytes[i] } else { 0u8 })
}

/// Copies the UTF-8 bytes of `text` into a zero-filled buffer of `size`
/// bytes, cutting the text off where it does not fit.
pub fn fill_fixed_vec(text: &str, size: usize) -> (buf: Vec<u8>)
    ensures
        buf@ == fixed_field(vstd::utf8::encode_utf8(text@), size as nat),
{
    let bytes = text.as_bytes();
    let mut buf: Vec<u8> = Vec::new();
    let mut i: usize = 0;
    while i < size
        invariant
            i <= size,
            bytes@ == vstd::utf8::encode_utf8(text@),
            buf@ == fixed_field(bytes@, i as nat),
        decreases size - i,
    {
        if i < bytes.len() {
            buf.push(bytes[i]);
        } else {
            buf.push(0u8);
        }
        i = i + 1;
    }
    buf
}

/// Copies the UTF-8 bytes of `text` into a zero-filled array of `N` bytes,
/// cutting the text off where it does not fit.
pub fn fill_fixed_array<const N: usize>(text: &str) -> (array: [u8; N])
    ensures
        array@ == fixed_field(vstd::utf8::encode_utf8(text@), N as nat),
{
    let mut array = [0u8; N];
    let bytes = text.as_bytes();
    let len: usize = if bytes.len() < N { bytes.len() } else { N };
    let mut i: usize = 0;
    while i < len
        invariant
            i <= len,
            len <= N,
            len <= bytes@.len(),
            len == N || len == bytes@.len(),
            bytes@ == vstd::utf8::encode_utf8(text@),
            array@.len() == N,
            forall|j: int| 0 <= j < i ==> array@[j] == bytes@[j],
            forall|j: int| i <= j < N ==> array@[j] == 0u8,
        decreases len - i,
    {
        array[i] = bytes[i];
        i = i + 1;
    }
    assert(array@ =~= fixed_field(bytes@, N as nat));
    array
}

} // verus!
