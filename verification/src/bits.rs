//! Bitmasks as sets of squares.
//!
//! A `u64` stands for a set of board squares: bit `i` is set exactly when
//! square `i` belongs to the set. Squares are numbered `rank * 8 + file`.

use vstd::prelude::*;
use vstd::std_specs::bits::{axiom_u64_trailing_zeros, u64_trailing_zeros};

verus! {

/// Square `sq` belongs to the set that `mask` stands for.
pub open spec fn mask_has(mask: u64, sq: int) -> bool {
    0 <= sq < 64 && mask & (1u64 << (sq as u64)) != 0
}

/// The set with the single member `sq`.
pub open spec fn square_bit(sq: int) -> u64 {
    1u64 << (sq as u64)
}

/// The squares of a mask, as a mathematical set.
pub open spec fn mask_squares(mask: u64) -> Set<int> {
    Set::new(|sq: int| mask_has(mask, sq))
}

/// The number of squares in a mask.
pub open spec fn popcount(mask: u64) -> nat
    decreases mask,
{
    if mask == 0 {
        0
    } else {
        (mask % 2) as nat + popcount(mask / 2)
    }
}

/// `u64::count_ones` of the standard library, which returns the number of
/// one bits in the binary representation of its argument.
pub assume_specification[ u64::count_ones ](mask: u64) -> (n: u32)
    ensures
        n == popcount(mask),
;

proof fn bv_single_bit(m: u64, i: u64, j: u64)
    by (bit_vector)
    requires
        i < 64,
        j < 64,
    ensures
        ((1u64 << i) & (1u64 << j) != 0) == (i == j),
        ((m | (1u64 << i)) & (1u64 << j) != 0) == ((m & (1u64 << j) != 0) || i == j),
        ((m & !(1u64 << i)) & (1u64 << j) != 0) == ((m & (1u64 << j) != 0) && i != j),
        0u64 & (1u64 << j) == 0,
{
}

proof fn bv_union(a: u64, b: u64, j: u64)
    by (bit_vector)
    requires
        j < 64,
    ensures
        ((a | b) & (1u64 << j) != 0) == ((a & (1u64 << j) != 0) || (b & (1u64 << j) != 0)),
        ((a & b) & (1u64 << j) != 0) == ((a & (1u64 << j) != 0) && (b & (1u64 << j) != 0)),
        ((a ^ b) & (1u64 << j) != 0) == ((a & (1u64 << j) != 0) != (b & (1u64 << j) != 0)),
{
}

proof fn bv_shift(m: u64, k: u64, j: u64)
    by (bit_vector)
    requires
        k < 64,
        j < 64,
    ensures
        ((m >> k) & (1u64 << j) != 0) == (j + k < 64 && (m & (1u64 << ((j + k) as u64)) != 0)),
        ((m >> j) & 1u64 == 1u64) == (m & (1u64 << j) != 0),
        ((m >> j) & 1u64 == 0u64) == (m & (1u64 << j) == 0),
{
}

proof fn bv_start_masks(j: u64)
    by (bit_vector)
    requires
        j < 64,
    ensures
        (0xFF00u64 & (1u64 << j) != 0) == (8 <= j < 16),
        (0x42u64 & (1u64 << j) != 0) == (j == 1 || j == 6),
        (0x24u64 & (1u64 << j) != 0) == (j == 2 || j == 5),
        (0x81u64 & (1u64 << j) != 0) == (j == 0 || j == 7),
        (0x08u64 & (1u64 << j) != 0) == (j == 3),
        (0x10u64 & (1u64 << j) != 0) == (j == 4),
        (0x00FF_0000_0000_0000u64 & (1u64 << j) != 0) == (48 <= j < 56),
        (0x4200_0000_0000_0000u64 & (1u64 << j) != 0) == (j == 57 || j == 62),
        (0x2400_0000_0000_0000u64 & (1u64 << j) != 0) == (j == 58 || j == 61),
        (0x8100_0000_0000_0000u64 & (1u64 << j) != 0) == (j == 56 || j == 63),
        (0x0800_0000_0000_0000u64 & (1u64 << j) != 0) == (j == 59),
        (0x1000_0000_0000_0000u64 & (1u64 << j) != 0) == (j == 60),
{
}

/// The squares of the twelve masks of the standard opening layout.
pub proof fn lemma_start_masks(sq: int)
    ensures
        mask_has(0xFF00, sq) == (8 <= sq < 16),
        mask_has(0x42, sq) == (sq == 1 || sq == 6),
        mask_has(0x24, sq) == (sq == 2 || sq == 5),
        mask_has(0x81, sq) == (sq == 0 || sq == 7),
        mask_has(0x08, sq) == (sq == 3),
        mask_has(0x10, sq) == (sq == 4),
        mask_has(0x00FF_0000_0000_0000, sq) == (48 <= sq < 56),
        mask_has(0x4200_0000_0000_0000, sq) == (sq == 57 || sq == 62),
        mask_has(0x2400_0000_0000_0000, sq) == (sq == 58 || sq == 61),
        mask_has(0x8100_0000_0000_0000, sq) == (sq == 56 || sq == 63),
        mask_has(0x0800_0000_0000_0000, sq) == (sq == 59),
        mask_has(0x1000_0000_0000_0000, sq) == (sq == 60),
{
    if 0 <= sq < 64 {
        bv_start_masks(sq as u64);
    }
}

proof fn bv_xor_zero(a: u64, b: u64)
    by (bit_vector)
    requires
        a ^ b == 0,
    ensures
        a == b,
{
}

/// The empty mask has no square.
pub proof fn lemma_empty_mask(sq: int)
    ensures
        !mask_has(0, sq),
{
    if 0 <= sq < 64 {
        bv_single_bit(0, 0, sq as u64);
    }
}

/// A single-square mask has that square and no other.
pub proof fn lemma_square_bit(i: int, sq: int)
    requires
        0 <= i < 64,
    ensures
        mask_has(square_bit(i), sq) == (sq == i),
{
    if 0 <= sq < 64 {
        bv_single_bit(0, i as u64, sq as u64);
    }
}

/// Or-ing a square's bit into a mask adds that square and changes no other.
pub proof fn lemma_mask_insert(mask: u64, i: int, sq: int)
    requires
        0 <= i < 64,
    ensures
        mask_has(mask | square_bit(i), sq) == (mask_has(mask, sq) || sq == i),
{
    if 0 <= sq < 64 {
        bv_single_bit(mask, i as u64, sq as u64);
    }
}

/// And-ing the complement of a square's bit into a mask takes that square
/// off and changes no other.
pub proof fn lemma_mask_remove(mask: u64, i: int, sq: int)
    requires
        0 <= i < 64,
    ensures
        mask_has(mask & !square_bit(i), sq) == (mask_has(mask, sq) && sq != i),
{
    if 0 <= sq < 64 {
        bv_single_bit(mask, i as u64, sq as u64);
    }
}

/// Union, intersection and symmetric difference of masks, square by square.
pub proof fn lemma_mask_union(a: u64, b: u64, sq: int)
    ensures
        mask_has(a | b, sq) == (mask_has(a, sq) || mask_has(b, sq)),
        mask_has(a & b, sq) == (mask_has(a, sq) && mask_has(b, sq)),
        mask_has(a ^ b, sq) == (mask_has(a, sq) != mask_has(b, sq)),
{
    if 0 <= sq < 64 {
        bv_union(a, b, sq as u64);
    }
}

/// Shifting a mask right by `k` moves every square `k` places down.
pub proof fn lemma_mask_shr(mask: u64, k: int, sq: int)
    requires
        0 <= k < 64,
    ensures
        mask_has(mask >> (k as u64), sq) == (0 <= sq && sq + k < 64 && mask_has(mask, sq + k)),
{
    if 0 <= sq < 64 {
        bv_shift(mask, k as u64, sq as u64);
    }
}

/// The count of trailing zeros is the lowest square of a mask, and 64 for the
/// empty mask.
pub proof fn lemma_trailing_zeros(mask: u64)
    ensures
        u64_trailing_zeros(mask) <= 64,
        mask == 0 <==> u64_trailing_zeros(mask) == 64,
        mask != 0 ==> mask_has(mask, u64_trailing_zeros(mask) as int),
        forall|sq: int| 0 <= sq < u64_trailing_zeros(mask) ==> !mask_has(mask, sq),
{
    axiom_u64_trailing_zeros(mask);
    let t = u64_trailing_zeros(mask);
    if t < 64 {
        bv_shift(mask, 0, t as u64);
    }
    assert forall|sq: int| 0 <= sq < t implies !mask_has(mask, sq) by {
        let j = sq as u64;
        assert((mask >> j) & 1u64 == 0u64);
        bv_shift(mask, 0, j);
    }
}

/// A mask without squares is the empty mask.
pub proof fn lemma_no_square_is_empty(mask: u64)
    requires
        forall|sq: int| 0 <= sq < 64 ==> !mask_has(mask, sq),
    ensures
        mask == 0,
{
    lemma_trailing_zeros(mask);
}

/// Masks with the same squares are equal.
pub proof fn lemma_mask_ext(a: u64, b: u64)
    requires
        forall|sq: int| 0 <= sq < 64 ==> mask_has(a, sq) == mask_has(b, sq),
    ensures
        a == b,
{
    assert forall|sq: int| 0 <= sq < 64 implies !mask_has(a ^ b, sq) by {
        lemma_mask_union(a, b, sq);
    }
    lemma_no_square_is_empty(a ^ b);
    bv_xor_zero(a, b);
}

/// A mask holds at most 64 squares.
pub proof fn lemma_popcount_bound(mask: u64)
    ensures
        popcount(mask) <= 64,
{
    vstd::arithmetic::power2::lemma2_to64();
    vstd::arithmetic::power2::lemma2_to64_rest();
    lemma_popcount_below(mask, 64);
}

proof fn lemma_popcount_below(mask: u64, n: nat)
    requires
        mask < vstd::arithmetic::power2::pow2(n),
    ensures
        popcount(mask) <= n,
    decreases mask,
{
    if mask != 0 {
        if n == 0 {
            vstd::arithmetic::power2::lemma2_to64();
        } else {
            vstd::arithmetic::power2::lemma_pow2_unfold(n);
            lemma_popcount_below(mask / 2, (n - 1) as nat);
        }
    }
}

} // verus!
