//! The makeup gain stage: a scalar multiply in the linear amplitude domain,
//! applied per sample or per buffer. Conversion from decibel parameter values
//! to a linear gain is the host adapter's business; this stage only
//! multiplies.

use crate::fixed::FIXED_ONE;
use crate::fixed::GAIN_LIMIT;
use crate::fixed::in_sample_range;
use crate::fixed::SAMPLE_LIMIT;
use vstd::arithmetic::div_mod::lemma_div_by_multiple;
use vstd::arithmetic::div_mod::lemma_div_is_ordered;
use vstd::arithmetic::mul::lemma_mul_basics;
use vstd::arithmetic::mul::lemma_mul_nonnegative;
use vstd::arithmetic::mul::lemma_mul_upper_bound;
use vstd::prelude::*;

verus! {

/// The fixed-point product of a sample and a linear gain: the mathematical
/// product `sample * gain / FIXED_ONE`, truncated toward zero.
pub open spec fn scale_spec(sample: int, gain: int) -> int {
    if sample >= 0 {
        sample * gain / (FIXED_ONE as int)
    } else {
        -((-sample) * gain / (FIXED_ONE as int))
    }
}

/// A gain of one full unit returns every sample unchanged.
pub proof fn lemma_unit_gain_identity(sample: int)
    ensures
        scale_spec(sample, FIXED_ONE as int) == sample,
{
    if sample >= 0 {
        lemma_div_by_multiple(sample, FIXED_ONE as int);
    } else {
        lemma_div_by_multiple(-sample, FIXED_ONE as int);
    }
}

/// A gain of zero yields silence for every sample.
pub proof fn lemma_zero_gain_silence(sample: int)
    ensures
        scale_spec(sample, 0) == 0,
{
    if sample >= 0 {
        lemma_mul_basics(sample);
    } else {
        lemma_mul_basics(-sample);
    }
}

/// Bounds used when a scaled sample is written back into an `i64`.
proof fn lemma_scale_fits(sample: int, gain: int)
    requires
        0 <= sample <= SAMPLE_LIMIT,
        0 <= gain <= GAIN_LIMIT,
    ensures
        0 <= sample * gain <= SAMPLE_LIMIT * GAIN_LIMIT,
        0 <= sample * gain / (FIXED_ONE as int) <= SAMPLE_LIMIT * GAIN_LIMIT / (FIXED_ONE as int),
{
    lemma_mul_nonnegative(sample, gain);
    lemma_mul_upper_bound(sample, SAMPLE_LIMIT as int, gain, GAIN_LIMIT as int);
    lemma_div_is_ordered(sample * gain, SAMPLE_LIMIT * GAIN_LIMIT, FIXED_ONE as int);
}

/// Applies a linear-domain makeup gain to one sample in place.
pub fn makeup(sample: &mut i64, gain: i64)
    requires
        in_sample_range(*old(sample) as int),
        0 <= gain <= GAIN_LIMIT,
    ensures
        *final(sample) == scale_spec(*old(sample) as int, gain as int),
{
    if *sample >= 0 {
        proof {
            lemma_scale_fits(*sample as int, gain as int);
        }
        let s: u64 = *sample as u64;
        let scaled: u64 = s * (gain as u64) / (FIXED_ONE as u64);
        *sample = scaled as i64;
    } else {
        let neg: i64 = -*sample;
        proof {
            lemma_scale_fits(neg as int, gain as int);
        }
        let s: u64 = neg as u64;
        let scaled: u64 = s * (gain as u64) / (FIXED_ONE as u64);
        *sample = -(scaled as i64);
    }
}

/// Applies a linear-domain makeup gain to every sample of one channel buffer
/// in place.
pub fn makeup_buffer(data: &mut Vec<i64>, gain: i64)
    requires
        0 <= gain <= GAIN_LIMIT,
        forall|i: int| 0 <= i < old(data)@.len() ==> in_sample_range(old(data)@[i] as int),
    ensures
        final(data)@.len() == old(data)@.len(),
        forall|i: int|
            0 <= i < old(data)@.len() ==> final(data)@[i] as int == scale_spec(
                old(data)@[i] as int,
                gain as int,
            ),
{
    let ghost orig = data@;
    let n = data.len();
    let mut i: usize = 0;
    while i < n
        invariant
            n == data@.len(),
            orig.len() == n,
            0 <= i <= n,
            0 <= gain <= GAIN_LIMIT,
            forall|j: int| i <= j < n ==> data@[j] == orig[j],
            forall|j: int| i <= j < n ==> in_sample_range(orig[j] as int),
            forall|j: int| 0 <= j < i ==> data@[j] as int == scale_spec(orig[j] as int, gain as int),
        decreases n - i,
    {
        assert(data@[i as int] == orig[i as int]);
        makeup(&mut data[i], gain);
        i = i + 1;
    }
}

} // verus!
