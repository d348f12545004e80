//! Half-precision packing of single-precision bit patterns.
//!
//! The conversion rounds toward zero: the bits that a half cannot hold are
//! dropped.

use vstd::prelude::*;

verus! {

/// `m` halved `k` times, each time rounding down.
pub open spec fn halved(m: int, k: nat) -> int
    decreases k,
{
    if k == 0 {
        m
    } else {
        halved(m / 2, (k - 1) as nat)
    }
}

/// Biased exponent of a single-precision bit pattern.
pub open spec fn exponent_of(word: u32) -> int {
    ((word / 8388608) % 256) as int
}

/// Fraction bits of a single-precision bit pattern.
pub open spec fn fraction_of(word: u32) -> int {
    (word % 8388608) as int
}

/// Exponent and fraction of the half for a single-precision bit pattern:
/// - infinity stays infinity, and not-a-number becomes the quiet one;
/// - a magnitude of 65536 or more becomes infinity;
/// - a magnitude that a normal half can hold keeps its ten leading fraction
///   bits;
/// - a smaller one becomes a subnormal half, its leading one made explicit
///   and shifted down;
/// - one below the smallest subnormal half becomes zero.
pub open spec fn half_magnitude(word: u32) -> int {
    let exponent = exponent_of(word);
    let fraction = fraction_of(word);
    if exponent == 255 {
        if fraction == 0 { 31744 } else { 32256 }
    } else if exponent >= 143 {
        31744
    } else if exponent >= 113 {
        (exponent - 112) * 1024 + fraction / 8192
    } else if exponent >= 103 {
        halved(8388608 + fraction, (126 - exponent) as nat)
    } else {
        0
    }
}

/// The half for a single-precision bit pattern: its sign bit above the
/// exponent and fraction of [`half_magnitude`].
pub open spec fn half_of(word: u32) -> int {
    (word / 2147483648) * 32768 + half_magnitude(word)
}

/// Two halves in one word: the half of `low` in the 16 least significant
/// bits, the half of `high` above it.
pub open spec fn half_pair(low: u32, high: u32) -> int {
    half_of(low) + 65536 * half_of(high)
}

/// Halving makes a number no larger and not negative.
pub proof fn lemma_halved_bounds(m: int, k: nat)
    requires
        0 <= m,
    ensures
        0 <= halved(m, k) <= m,
    decreases k,
{
    if k > 0 {
        lemma_halved_bounds(m / 2, (k - 1) as nat);
    }
}

/// A half fits in 16 bits.
pub proof fn lemma_half_fits(word: u32)
    ensures
        0 <= half_magnitude(word) < 32768,
        0 <= half_of(word) < 65536,
{
    let exponent = exponent_of(word);
    let fraction = fraction_of(word);
    if 103 <= exponent < 113 {
        lemma_halved_bounds(8388608 + fraction, (126 - exponent) as nat);
        lemma_halved_from_14(8388608 + fraction, (126 - exponent) as nat);
    }
}

proof fn lemma_halved_from_14(m: int, k: nat)
    requires
        0 <= m < 16777216,
        k >= 14,
    ensures
        halved(m, k) < 1024,
{
    reveal_with_fuel(halved, 15);
    lemma_halved_bounds(halved(m, 14), (k - 14) as nat);
    lemma_halved_splits(m, 14, (k - 14) as nat);
}

proof fn lemma_halved_splits(m: int, a: nat, b: nat)
    ensures
        halved(m, a + b) == halved(halved(m, a), b),
    decreases a,
{
    if a > 0 {
        lemma_halved_splits(m / 2, (a - 1) as nat, b);
    }
}

/// Converts a single-precision bit pattern to a half.
pub fn float_to_half(word: u32) -> (half: u16)
    ensures
        half == half_of(word),
{
    let sign: u32 = word / 2147483648;
    let exponent: u32 = (word / 8388608) % 256;
    let fraction: u32 = word % 8388608;
    proof {
        lemma_half_fits(word);
    }
    let magnitude: u32 = if exponent == 255 {
        if fraction == 0 {
            31744
        } else {
            32256
        }
    } else if exponent >= 143 {
        31744
    } else if exponent >= 113 {
        (exponent - 112) * 1024 + fraction / 8192
    } else if exponent >= 103 {
        let mut m: u32 = 8388608 + fraction;
        let mut k: u32 = 126 - exponent;
        while k > 0
            invariant
                halved(m as int, k as nat) == halved(8388608 + fraction, (126 - exponent) as nat),
            decreases k,
        {
            m = m / 2;
            k -= 1;
        }
        m
    } else {
        0
    };
    (sign * 32768 + magnitude) as u16
}

/// Packs the halves of two single-precision bit patterns into one word, the
/// first in the low half.
pub fn pack_half_2x16(low: u32, high: u32) -> (word: u32)
    ensures
        word == half_pair(low, high),
{
    proof {
        lemma_half_fits(low);
        lemma_half_fits(high);
    }
    float_to_half(low) as u32 + 65536 * (float_to_half(high) as u32)
}

} // verus!
