//! Powers of two, computed and reasoned about without bit-level operators.

use vstd::prelude::*;
use vstd::arithmetic::power::{lemma_pow_multiplies, pow};
use vstd::arithmetic::power2::{
    lemma2_to64, lemma2_to64_rest, lemma_pow2, lemma_pow2_strictly_increases, lemma_pow2_unfold,
    pow2,
};

verus! {

/// Two to the power `exponent`, for every power a `u64` holds.
pub(crate) fn power_of_two(exponent: u32) -> (power: u64)
    requires
        exponent < 64,
    ensures
        power == pow2(exponent as nat),
{
    let mut power: u64 = 1;
    let mut done: u32 = 0;
    proof {
        lemma2_to64();
    }
    while done < exponent
        invariant
            done <= exponent < 64,
            power == pow2(done as nat),
        decreases exponent - done,
    {
        proof {
            lemma_pow2_unfold((done + 1) as nat);
            lemma_pow2_at_most(done as nat + 1, 63);
            lemma2_to64_rest();
        }
        power = power * 2;
        done = done + 1;
    }
    power
}

/// Powers of two grow with the exponent.
pub proof fn lemma_pow2_at_most(low: nat, high: nat)
    requires
        low <= high,
    ensures
        pow2(low) <= pow2(high),
{
    if low < high {
        lemma_pow2_strictly_increases(low, high);
    }
}

/// A power of four is the power of two with twice the exponent.
pub proof fn lemma_pow4_is_pow2(exponent: nat)
    ensures
        pow(4, exponent) == pow2(2 * exponent),
{
    lemma2_to64();
    lemma_pow2(2);
    lemma_pow2(2 * exponent);
    lemma_pow_multiplies(2, 2, exponent);
}

} // verus!
