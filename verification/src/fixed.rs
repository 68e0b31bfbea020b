//! The fixed-point amplitude scale shared by the filter, the gain stage and
//! the stream driver, and the bounds that keep every intermediate product
//! inside the machine integer types.

use vstd::arithmetic::div_mod::lemma_div_multiples_vanish;
use vstd::arithmetic::mul::lemma_mul_inequality;
use vstd::arithmetic::mul::lemma_mul_nonnegative;
use vstd::prelude::*;

verus! {

/// One unit of amplitude in Q16.16 fixed point: this value stands for 1.0.
/// Smoothing coefficients and linear gains use the same scale.
pub const FIXED_ONE: i64 = 65536;

/// Largest sample magnitude the processing path accepts, 65536 amplitude
/// units. Keeps `coefficient * difference` inside `u64` in the filter step.
pub const SAMPLE_LIMIT: i64 = 4294967296;

/// Largest linear gain the makeup stage accepts, 256 amplitude units
/// (about +48 dB). Keeps `sample * gain` inside `u64`.
pub const GAIN_LIMIT: i64 = 16777216;

/// A sample magnitude the processing path accepts.
pub open spec fn in_sample_range(x: int) -> bool {
    -SAMPLE_LIMIT <= x <= SAMPLE_LIMIT
}

/// The mathematical values held by a buffer of fixed-point samples.
pub open spec fn as_ints(s: Seq<i64>) -> Seq<int> {
    s.map_values(|x: i64| x as int)
}

/// Scaling a non-negative amount by the fraction `a / FIXED_ONE` with
/// `a <= FIXED_ONE` keeps the result between zero and the amount itself.
pub proof fn lemma_frac_scale_bounds(a: int, d: int)
    requires
        0 <= a <= FIXED_ONE,
        0 <= d,
    ensures
        0 <= a * d / (FIXED_ONE as int) <= d,
{
    lemma_mul_nonnegative(a, d);
    lemma_mul_inequality(a, FIXED_ONE as int, d);
    lemma_div_multiples_vanish(d, FIXED_ONE as int);
    assert(a * d / (FIXED_ONE as int) <= (FIXED_ONE as int) * d / (FIXED_ONE as int));
}

} // verus!
