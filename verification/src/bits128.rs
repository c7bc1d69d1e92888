//! Bridges between 128-bit bitwise operations and their arithmetic meaning:
//! masking with a low-bits mask is a remainder, shifting right is a division,
//! and a bitwise-and test can be read off one bit at a time.

use vstd::prelude::*;

verus! {

use vstd::arithmetic::power2::{
    pow2,
    lemma_pow2_adds,
    lemma_pow2_strictly_increases,
    lemma_pow2_unfold,
    lemma_pow2_pos,
    lemma2_to64,
    lemma2_to64_rest,
};
use vstd::arithmetic::div_mod::{lemma_div_denominator, lemma_mod_breakdown};
use vstd::bits::{
    low_bits_mask,
    lemma_low_bits_mask_is_odd,
    lemma_low_bits_mask_div2,
    lemma_u128_shr_is_div,
};
use crate::pattern::bit_of;

/// The value of 2^128, one past the largest `u128`.
pub proof fn lemma_pow2_128()
    ensures
        pow2(128) == 0x1_0000_0000_0000_0000_0000_0000_0000_0000,
{
    lemma2_to64_rest();
    lemma_pow2_adds(64, 64);
}

/// 2^n fits the range of `u128` for every exponent up to 128.
pub proof fn lemma_pow2_le_128(n: nat)
    requires
        n <= 128,
    ensures
        pow2(n) <= 0x1_0000_0000_0000_0000_0000_0000_0000_0000,
{
    lemma_pow2_128();
    if n < 128 {
        lemma_pow2_strictly_increases(n, 128);
    }
}

/// A bitwise-and of two `u128` values, split into its low bit and the and of
/// the two halves.
pub(crate) proof fn lemma_u128_and_split_low_bit(x: u128, m: u128)
    by (bit_vector)
    ensures
        x & m == 2 * ((x / 2) & (m / 2)) + ((x % 2) & (m % 2)),
        (x / 2) & (m / 2) <= x / 2,
        (x % 2) & (m % 2) <= 1,
{
}

/// Masking a `u128` with the low `n`-bit mask keeps exactly the remainder
/// modulo 2^n.
pub proof fn lemma_u128_low_mask_is_mod(x: u128, n: nat)
    requires
        n <= 128,
    ensures
        low_bits_mask(n) <= u128::MAX,
        x & (low_bits_mask(n) as u128) == x as nat % pow2(n),
    decreases n,
{
    lemma_pow2_pos(n);
    lemma_pow2_le_128(n);
    if n == 0 {
        lemma2_to64();
        assert(low_bits_mask(0) == 0);
        assert(x & 0 == 0) by (bit_vector);
    } else {
        let m = low_bits_mask(n) as u128;
        lemma_low_bits_mask_is_odd(n);
        lemma_low_bits_mask_div2(n);
        lemma_pow2_pos((n - 1) as nat);
        lemma_pow2_le_128((n - 1) as nat);
        assert(m % 2 == 1);
        assert(m / 2 == low_bits_mask((n - 1) as nat) as u128);
        lemma_u128_and_split_low_bit(x, m);
        assert((x % 2) & 1 == x % 2) by (bit_vector);
        lemma_u128_low_mask_is_mod(x / 2, (n - 1) as nat);
        assert((x / 2) & (m / 2) == (x / 2) as nat % pow2((n - 1) as nat));
        lemma_pow2_unfold(n);
        lemma_mod_breakdown(x as int, 2, pow2((n - 1) as nat) as int);
        assert(x as nat % pow2(n) == 2 * ((x as nat / 2) % pow2((n - 1) as nat)) + x as nat % 2);
    }
}

/// Shifting a `u128` right by up to 127 places divides it by the matching
/// power of two.
pub proof fn lemma_u128_shr_is_div_pow2(x: u128, shift: u128)
    requires
        shift < 128,
    ensures
        x >> shift == x as nat / pow2(shift as nat),
{
    lemma_u128_shr_is_div(x, shift);
}

/// Bit `k + 1` of a value is bit `k` of its half.
pub proof fn lemma_bit_of_half(v: nat, k: nat)
    ensures
        bit_of(v, k + 1) == bit_of(v / 2, k),
{
    lemma_pow2_unfold(k + 1);
    lemma_pow2_pos(k);
    lemma_div_denominator(v as int, 2, pow2(k) as int);
}

/// Bit 0 of a value is its parity.
pub proof fn lemma_bit_of_zero(v: nat)
    ensures
        bit_of(v, 0) == v % 2,
{
    lemma2_to64();
}

} // verus!
