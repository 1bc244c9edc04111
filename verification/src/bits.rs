//! The bits of a 32-bit mask, one position at a time.

use vstd::prelude::*;

verus! {

/// The bit of `mask` at position `i`, left in its place.
pub open spec fn bit_at(mask: u32, i: u32) -> u32 {
    mask & (1u32 << i)
}

/// The bits of `mask` at the positions below `n`, left in their places.
pub open spec fn bits_below(mask: u32, n: u32) -> u32 {
    if n >= 32 {
        mask
    } else {
        mask & !(0xffff_ffffu32 << n)
    }
}

/// No bit lies below position 0.
pub proof fn lemma_bits_below_zero(mask: u32)
    ensures
        bits_below(mask, 0) == 0,
{
    assert(mask & !(0xffff_ffffu32 << 0u32) == 0) by (bit_vector);
}

/// The bits below position `i + 1` are those below `i` and the one at `i`.
pub proof fn lemma_bits_below_step(mask: u32, i: u32)
    requires
        i < 32,
    ensures
        bits_below(mask, (i + 1) as u32) == bits_below(mask, i) | bit_at(mask, i),
{
    if i == 31 {
        assert(mask == (mask & !(0xffff_ffffu32 << 31u32)) | (mask & (1u32 << 31u32)))
            by (bit_vector);
    } else {
        let j = (i + 1) as u32;
        assert(mask & !(0xffff_ffffu32 << j) == (mask & !(0xffff_ffffu32 << i)) | (mask & (1u32
            << i))) by (bit_vector)
            requires
                i < 31,
                j == i + 1,
        ;
    }
}

/// Adding no bit to a mask leaves the mask.
pub proof fn lemma_or_zero(mask: u32)
    ensures
        mask | 0 == mask,
{
    assert(mask | 0 == mask) by (bit_vector);
}

/// Whether `mask` has no bit at position `k` or above.
pub open spec fn none_from(mask: u32, k: u32) -> bool {
    k >= 32 || mask & (0xffff_ffffu32 << k) == 0
}

/// A mask without bits has no bit anywhere.
pub proof fn lemma_no_bits(k: u32, i: u32)
    ensures
        none_from(0, k),
        bit_at(0, i) == 0,
{
    assert(0u32 & (0xffff_ffffu32 << k) == 0) by (bit_vector);
    assert(0u32 & (1u32 << i) == 0) by (bit_vector);
}

/// A number below the bit at position `k` has no bit at `k` or above.
pub proof fn lemma_below_bit_none_from(x: u32, k: u32)
    requires
        k < 32,
        x < (1u32 << k),
    ensures
        none_from(x, k),
{
    assert(x & (0xffff_ffffu32 << k) == 0) by (bit_vector)
        requires
            k < 32,
            x < (1u32 << k),
    ;
}

/// Two masks without a bit at `k` or above have, together, none either.
pub proof fn lemma_or_none_from(a: u32, x: u32, k: u32)
    requires
        none_from(a, k),
        none_from(x, k),
    ensures
        none_from(a | x, k),
{
    if k < 32 {
        assert((a | x) & (0xffff_ffffu32 << k) == 0) by (bit_vector)
            requires
                a & (0xffff_ffffu32 << k) == 0,
                x & (0xffff_ffffu32 << k) == 0,
        ;
    }
}

/// A mask without a bit at `k` or above has no bit at any such position.
pub proof fn lemma_none_from_bit_at(mask: u32, k: u32, i: u32)
    requires
        none_from(mask, k),
        k <= i < 32,
    ensures
        bit_at(mask, i) == 0,
{
    assert(mask & (1u32 << i) == 0) by (bit_vector)
        requires
            mask & (0xffff_ffffu32 << k) == 0,
            k <= i < 32,
    ;
}

/// Adding the bit at position `k` to a mask without a bit at `k` or above
/// leaves the bits below `k`, sets the one at `k` and none above.
pub proof fn lemma_bit_added_on_top(mask: u32, k: u32, i: u32)
    requires
        k < 32,
        i < 32,
        none_from(mask, k),
    ensures
        i < k ==> bit_at(mask | (1u32 << k), i) == bit_at(mask, i),
        i == k ==> bit_at(mask | (1u32 << k), i) == 1u32 << k,
        i > k ==> bit_at(mask | (1u32 << k), i) == 0,
        1u32 << k != 0,
{
    assert((i < k ==> (mask | (1u32 << k)) & (1u32 << i) == mask & (1u32 << i)) && (i == k ==> (
    mask | (1u32 << k)) & (1u32 << i) == 1u32 << k) && (i > k ==> (mask | (1u32 << k)) & (1u32
        << i) == 0) && 1u32 << k != 0) by (bit_vector)
        requires
            k < 32,
            i < 32,
            mask & (0xffff_ffffu32 << k) == 0,
    ;
}

/// A bit that is set at position `i` of a mask is, left in its place, the
/// one bit at `i`; and the one bit at a lower position is a smaller number.
pub proof fn lemma_bit_at_is_one_bit(mask: u32, i: u32, j: u32)
    requires
        j <= i < 32,
    ensures
        bit_at(mask, i) != 0 ==> bit_at(mask, i) == 1u32 << i,
        j < i ==> (1u32 << j) < (1u32 << i),
        j == i <==> (1u32 << j) == (1u32 << i),
{
    assert((mask & (1u32 << i) != 0 ==> mask & (1u32 << i) == 1u32 << i) && (j < i ==> (1u32 << j)
        < (1u32 << i)) && (j == i <==> (1u32 << j) == (1u32 << i))) by (bit_vector)
        requires
            j <= i < 32,
    ;
}

/// Two masks with the same bit at every position below `n` have the same
/// bits below `n`.
pub proof fn lemma_same_bits_below(x: u32, y: u32, n: u32)
    requires
        n <= 32,
        forall|i: u32| i < n ==> bit_at(x, i) == bit_at(y, i),
    ensures
        bits_below(x, n) == bits_below(y, n),
    decreases n,
{
    if n == 0 {
        lemma_bits_below_zero(x);
        lemma_bits_below_zero(y);
    } else {
        let k = (n - 1) as u32;
        lemma_same_bits_below(x, y, k);
        lemma_bits_below_step(x, k);
        lemma_bits_below_step(y, k);
    }
}

/// Two masks with the same bit at every position are the same mask.
pub proof fn lemma_same_bits_same_mask(x: u32, y: u32)
    requires
        forall|i: u32| i < 32 ==> bit_at(x, i) == bit_at(y, i),
    ensures
        x == y,
{
    lemma_same_bits_below(x, y, 32);
}

/// A bit is set in two masks together exactly if it is set in one of them.
pub proof fn lemma_bit_at_or(a: u32, b: u32, i: u32)
    ensures
        bit_at(a | b, i) != 0 <==> bit_at(a, i) != 0 || bit_at(b, i) != 0,
{
    assert(((a | b) & (1u32 << i)) != 0 <==> (a & (1u32 << i)) != 0 || (b & (1u32 << i)) != 0)
        by (bit_vector);
}

/// The one bit at position `k` is set at `k` and nowhere else.
pub proof fn lemma_bit_at_one_bit(k: u32, i: u32)
    requires
        k < 32,
        i < 32,
    ensures
        bit_at(1u32 << k, i) != 0 <==> i == k,
{
    assert(((1u32 << k) & (1u32 << i)) != 0 <==> i == k) by (bit_vector)
        requires
            k < 32,
            i < 32,
    ;
}

} // verus!
