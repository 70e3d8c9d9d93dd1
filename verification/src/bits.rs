//! The 32-bit tag-visibility mask: which tags are on screen.
//!
//! A tag with id `1..=32` is visible exactly when bit `id - 1` of the mask is
//! set. The mask is a first-class value; these spec functions and lemmas give
//! the bit-level facts the state machine needs.

use vstd::prelude::*;

verus! {

/// True when bit `t` of `mask` is set, i.e. the tag with index `t` is visible.
pub open spec fn bit_set(mask: u32, t: int) -> bool {
    0 <= t < 32 && (mask >> (t as u32)) & 1u32 == 1u32
}

/// The index of the lowest set bit of `mask` (32 when `mask == 0`).
pub open spec fn lowest_set(mask: u32) -> int {
    vstd::std_specs::bits::u32_trailing_zeros(mask) as int
}

/// `mask` with bit `t` flipped.
pub open spec fn toggled(mask: u32, t: int) -> u32 {
    mask ^ (1u32 << (t as u32))
}

/// For a non-zero mask, the lowest set bit exists, is set, and nothing below
/// it is set.
pub proof fn lemma_lowest_set(mask: u32)
    requires
        mask != 0,
    ensures
        0 <= lowest_set(mask) < 32,
        bit_set(mask, lowest_set(mask)),
        forall|t: int| 0 <= t < lowest_set(mask) ==> !bit_set(mask, t),
{
    broadcast use vstd::std_specs::bits::axiom_u32_trailing_zeros;

    assert forall|t: int| 0 <= t < lowest_set(mask) implies !bit_set(mask, t) by {
        let j = t as u32;
        assert((mask >> j) & 1u32 == 0u32);
    }
}

/// The executable membership test `mask & (1 << n) != 0` agrees with [`bit_set`].
pub proof fn lemma_mask_test(mask: u32, n: u32)
    by (bit_vector)
    requires
        n < 32,
    ensures
        (mask & (1u32 << n) != 0) == ((mask >> n) & 1u32 == 1u32),
{
}

/// Setting or clearing bit `n`, whichever applies, equals flipping it.
pub proof fn lemma_toggle_branches(mask: u32, n: u32)
    by (bit_vector)
    requires
        n < 32,
    ensures
        (mask >> n) & 1u32 == 1u32 ==> (mask & !(1u32 << n)) == (mask ^ (1u32 << n)),
        (mask >> n) & 1u32 != 1u32 ==> (mask | (1u32 << n)) == (mask ^ (1u32 << n)),
{
}

/// Flipping the same bit twice restores the mask.
pub proof fn lemma_toggle_twice(mask: u32, n: u32)
    by (bit_vector)
    requires
        n < 32,
    ensures
        (mask ^ (1u32 << n)) ^ (1u32 << n) == mask,
{
}

/// Selecting a single tag always leaves one tag visible.
pub proof fn lemma_one_shift_nonzero(n: u32)
    by (bit_vector)
    requires
        n < 32,
    ensures
        1u32 << n != 0,
{
}

/// A mask with a set bit is not zero.
pub proof fn lemma_bit_set_nonzero(mask: u32, n: u32)
    by (bit_vector)
    requires
        (mask >> n) & 1u32 == 1u32,
    ensures
        mask != 0,
{
}

} // verus!
