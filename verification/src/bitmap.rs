//! Packed 1-bit bitmaps (MSB first): setting, clearing and reading bits.

use vstd::prelude::*;
use crate::framebuffer::{bit_at, with_bit, lemma_with_bit};

verus! {

/// A bitmap of `len` bytes, all bits set.
pub open spec fn all_white(len: nat) -> Seq<u8> {
    Seq::new(len, |i: int| 0xFFu8)
}

/// Every bit of an all-ones bitmap is set.
pub proof fn lemma_all_white(len: nat, i: int)
    requires
        0 <= i < len * 8,
    ensures
        bit_at(all_white(len), i),
{
    let k = (7 - i % 8) as u8;
    assert((0xFFu8 >> k) & 1u8 == 1u8) by (bit_vector)
        requires
            k < 8,
    ;
}

/// Sets (`on`) or clears bit `idx` of a bitmap.
pub fn write_bit(buf: &mut Vec<u8>, idx: usize, on: bool)
    requires
        idx < old(buf)@.len() * 8,
    ensures
        final(buf)@ == with_bit(old(buf)@, idx as int, on),
{
    let byte = idx / 8;
    let bit = (7 - (idx % 8)) as u8;
    let mask: u8 = 1u8 << bit;
    let b = buf[byte];
    buf.set(byte, if on { b | mask } else { b & !mask });
}

/// Sets bit `idx` of a bitmap held in a slice.
pub fn set_bit_in(buf: &mut [u8], idx: usize)
    requires
        idx < old(buf)@.len() * 8,
    ensures
        final(buf)@ == with_bit(old(buf)@, idx as int, true),
{
    let byte = idx / 8;
    let bit = (7 - (idx % 8)) as u8;
    let mask: u8 = 1u8 << bit;
    let b = buf[byte];
    buf[byte] = b | mask;
}

/// Sets (`on`) or clears bit `idx` of a bitmap held in a slice.
pub fn write_bit_in(buf: &mut [u8], idx: usize, on: bool)
    requires
        idx < old(buf)@.len() * 8,
    ensures
        final(buf)@ == with_bit(old(buf)@, idx as int, on),
{
    let byte = idx / 8;
    let bit = (7 - (idx % 8)) as u8;
    let mask: u8 = 1u8 << bit;
    let b = buf[byte];
    buf[byte] = if on { b | mask } else { b & !mask };
}

/// Reads bit `idx` of a bitmap.
pub fn read_bit(buf: &[u8], idx: usize) -> (r: bool)
    requires
        idx < buf@.len() * 8,
    ensures
        r == bit_at(buf@, idx as int),
{
    let byte = idx / 8;
    let bit = (7 - (idx % 8)) as u8;
    (buf[byte] >> bit) & 1 == 1
}

/// Bitmaps that agree on the first `n` bits with `f` and are set after.
pub open spec fn bits_match(buf: Seq<u8>, n: int, f: spec_fn(int) -> bool) -> bool {
    &&& forall|j: int| 0 <= j < n ==> #[trigger] bit_at(buf, j) == f(j)
    &&& forall|j: int| n <= j < buf.len() * 8 ==> #[trigger] bit_at(buf, j)
}

/// Writing bit `i` to `f(i)` extends the agreement by one bit.
pub proof fn lemma_bits_match_step(buf: Seq<u8>, i: int, f: spec_fn(int) -> bool)
    requires
        0 <= i < buf.len() * 8,
        bits_match(buf, i, f),
    ensures
        bits_match(with_bit(buf, i, f(i)), i + 1, f),
{
    let nb = with_bit(buf, i, f(i));
    assert forall|j: int| 0 <= j < i + 1 implies #[trigger] bit_at(nb, j) == f(j) by {
        lemma_with_bit(buf, i, f(i), j);
    }
    assert forall|j: int| i + 1 <= j < nb.len() * 8 implies #[trigger] bit_at(nb, j) by {
        lemma_with_bit(buf, i, f(i), j);
    }
}

/// An all-ones bitmap agrees with anything on no bits.
pub proof fn lemma_bits_match_start(len: nat, f: spec_fn(int) -> bool)
    ensures
        bits_match(all_white(len), 0, f),
{
    assert forall|j: int| 0 <= j < all_white(len).len() * 8 implies #[trigger] bit_at(
        all_white(len),
        j,
    ) by {
        lemma_all_white(len, j);
    }
}

/// A cleared byte holds no set bit.
pub proof fn lemma_zero_bit(buf: Seq<u8>, j: int)
    requires
        0 <= j < buf.len() * 8,
        buf[j / 8] == 0,
    ensures
        !bit_at(buf, j),
{
    let k = (7 - j % 8) as u8;
    assert((0u8 >> k) & 1u8 == 0u8) by (bit_vector);
}

} // verus!
