//! The smoothing coefficient of the one-pole filter.
//!
//! The continuous-time derivation is `alpha = dt / (rc + dt)` with
//! `dt = 1 / sample_rate` and `rc = 1 / (2 * pi * cutoff_frequency)`.
//! Multiplying numerator and denominator by `sample_rate * 2 * pi *
//! cutoff_frequency` turns this into the division-free form
//! `alpha = 2 * pi * cutoff / (sample_rate + 2 * pi * cutoff)`,
//! which is what [`alpha_spec`] computes in Q16.16 fixed point. The division
//! rounds up, so the coefficient stays strictly positive for every positive
//! cutoff: a vanishing cutoff freezes the filter only in the limit, exactly as
//! the continuous formula does.

use crate::fixed::FIXED_ONE;
use vstd::arithmetic::div_mod::lemma_div_by_self;
use vstd::arithmetic::div_mod::lemma_div_is_ordered;
use vstd::arithmetic::div_mod::lemma_fundamental_div_mod;
use vstd::arithmetic::div_mod::lemma_mod_division_less_than_divisor;
use vstd::arithmetic::div_mod::lemma_multiply_divide_lt;
use vstd::arithmetic::mul::lemma_mul_inequality;
use vstd::arithmetic::mul::lemma_mul_inequality_converse;
use vstd::arithmetic::mul::lemma_mul_is_distributive_add_other_way;
use vstd::prelude::*;

verus! {

/// Two pi on the Q16.16 scale, rounded to the nearest integer.
pub const TWO_PI_Q: i64 = 411775;

/// Upper bound on the sample rate and the cutoff frequency, in Hz. Generous
/// for audio, and it keeps every intermediate product of the coefficient
/// computation inside `u64`.
pub const MAX_HZ: u32 = 16777216;

/// The filter coefficient on the Q16.16 scale:
/// the ceiling of `2 * pi * cutoff * FIXED_ONE / (sample_rate + 2 * pi * cutoff)`.
pub open spec fn alpha_spec(sample_rate: int, cutoff_frequency: int) -> int {
    let num = TWO_PI_Q * cutoff_frequency * FIXED_ONE;
    let den = sample_rate * FIXED_ONE + TWO_PI_Q * cutoff_frequency;
    (num + den - 1) / den
}

/// For every positive cutoff frequency and sample rate the coefficient lies
/// strictly above zero and no higher than one full unit.
pub proof fn lemma_alpha_in_unit(sample_rate: int, cutoff_frequency: int)
    requires
        0 < sample_rate,
        0 < cutoff_frequency,
    ensures
        0 < alpha_spec(sample_rate, cutoff_frequency) <= FIXED_ONE,
{
    let n = TWO_PI_Q * cutoff_frequency;
    let num = n * (FIXED_ONE as int);
    let den = sample_rate * (FIXED_ONE as int) + n;
    assert(TWO_PI_Q * cutoff_frequency * FIXED_ONE == num);
    assert(num >= FIXED_ONE);
    assert(den >= FIXED_ONE + n);
    lemma_div_is_ordered(den, num + den - 1, den);
    lemma_div_by_self(den);
    assert(num <= den * (FIXED_ONE as int));
    assert(num + den - 1 < den * ((FIXED_ONE + 1) as int));
    lemma_multiply_divide_lt(num + den - 1, den, (FIXED_ONE + 1) as int);
}

/// Ceiling division is monotone along the rational order of the fractions:
/// when `x1 / d1 <= x2 / d2` as rationals, the integer ceilings follow.
proof fn lemma_ceil_div_monotone(x1: int, d1: int, x2: int, d2: int)
    requires
        0 < d1,
        0 < d2,
        0 <= x1,
        x1 * d2 <= x2 * d1,
    ensures
        (x1 + d1 - 1) / d1 <= (x2 + d2 - 1) / d2,
{
    let q2 = (x2 + d2 - 1) / d2;
    assert(x2 <= d2 * q2) by {
        lemma_fundamental_div_mod(x2 + d2 - 1, d2);
        lemma_mod_division_less_than_divisor(x2 + d2 - 1, d2);
    }
    lemma_mul_inequality(x2, d2 * q2, d1);
    assert((d2 * q2) * d1 == (q2 * d1) * d2) by (nonlinear_arith);
    lemma_mul_inequality_converse(x1, q2 * d1, d2);
    assert(x1 + d1 - 1 < d1 * (q2 + 1)) by {
        lemma_mul_is_distributive_add_other_way(d1, q2, 1);
    }
    lemma_multiply_divide_lt(x1 + d1 - 1, d1, q2 + 1);
}

/// The coefficient never falls when the cutoff frequency rises: a lower
/// cutoff smooths harder and a higher cutoff lets more of the input through.
/// Together with the freeze and pass-through step lemmas this pins the
/// filter's behaviour at the two cutoff extremes.
pub proof fn lemma_alpha_monotone_in_cutoff(sample_rate: int, lower: int, higher: int)
    requires
        0 < sample_rate,
        0 < lower <= higher,
    ensures
        alpha_spec(sample_rate, lower) <= alpha_spec(sample_rate, higher),
{
    let n1 = TWO_PI_Q * lower;
    let n2 = TWO_PI_Q * higher;
    let num1 = n1 * (FIXED_ONE as int);
    let num2 = n2 * (FIXED_ONE as int);
    let den1 = sample_rate * (FIXED_ONE as int) + n1;
    let den2 = sample_rate * (FIXED_ONE as int) + n2;
    assert(num1 * den2 <= num2 * den1) by (nonlinear_arith)
        requires
            0 < n1 <= n2,
            num1 == n1 * (FIXED_ONE as int),
            num2 == n2 * (FIXED_ONE as int),
            den1 == sample_rate * (FIXED_ONE as int) + n1,
            den2 == sample_rate * (FIXED_ONE as int) + n2,
            0 < sample_rate,
    ;
    lemma_ceil_div_monotone(num1, den1, num2, den2);
}

/// Computes the filter coefficient for a sample rate and a cutoff frequency,
/// both in Hz.
pub fn alpha_for(sample_rate: u32, cutoff_frequency: u32) -> (a: i64)
    requires
        0 < sample_rate <= MAX_HZ,
        0 < cutoff_frequency <= MAX_HZ,
    ensures
        a == alpha_spec(sample_rate as int, cutoff_frequency as int),
        0 < a <= FIXED_ONE,
{
    proof {
        lemma_alpha_in_unit(sample_rate as int, cutoff_frequency as int);
    }
    let n: u64 = (TWO_PI_Q as u64) * (cutoff_frequency as u64);
    let den: u64 = (sample_rate as u64) * (FIXED_ONE as u64) + n;
    let num: u64 = n * (FIXED_ONE as u64);
    let a64: u64 = (num + den - 1) / den;
    a64 as i64
}

} // verus!
