//! The one-pole low-pass filter, in its two call shapes.
//!
//! The carry-state shape advances the filter by one sample from an explicit
//! previous output; it is the streaming-correct form, because the caller
//! carries the returned value into the next call and no block boundary is
//! special. The whole-block shape filters a pre-captured buffer in one call,
//! applying the same recursion from an explicit zero starting state, so its
//! first output is the first input scaled by the coefficient. The two shapes
//! agree sample for sample; [`lemma_block_equals_carry_state`] states that.

use crate::coeff::alpha_for;
use crate::coeff::alpha_spec;
use crate::coeff::MAX_HZ;
use crate::fixed::as_ints;
use crate::fixed::in_sample_range;
use crate::fixed::lemma_frac_scale_bounds;
use crate::fixed::FIXED_ONE;
use crate::fixed::SAMPLE_LIMIT;
use vstd::arithmetic::div_mod::lemma_basic_div;
use vstd::arithmetic::div_mod::lemma_div_multiples_vanish;
use vstd::arithmetic::mul::lemma_mul_basics;
use vstd::arithmetic::mul::lemma_mul_nonnegative;
use vstd::arithmetic::mul::lemma_mul_upper_bound;
use vstd::math::abs;
use vstd::prelude::*;

verus! {

/// One carry-state step of the filter on the mathematical model:
/// `previous + alpha * (current - previous) / FIXED_ONE`, with the
/// fixed-point scaling truncated toward zero.
pub open spec fn lp_step_spec(previous: int, current: int, alpha: int) -> int {
    if current >= previous {
        previous + alpha * (current - previous) / (FIXED_ONE as int)
    } else {
        previous - alpha * (previous - current) / (FIXED_ONE as int)
    }
}

/// The outputs of filtering a whole stream of inputs from a starting state,
/// each step carrying the one before it.
pub open spec fn lp_stream_spec(previous: int, inputs: Seq<int>, alpha: int) -> Seq<int>
    decreases inputs.len(),
{
    if inputs.len() == 0 {
        Seq::empty()
    } else {
        let first = lp_step_spec(previous, inputs[0], alpha);
        seq![first] + lp_stream_spec(first, inputs.skip(1), alpha)
    }
}

/// The filter state after a whole stream: the last output, or the starting
/// state when there was no input.
pub open spec fn stream_end_state(previous: int, inputs: Seq<int>, alpha: int) -> int {
    if inputs.len() == 0 {
        previous
    } else {
        lp_stream_spec(previous, inputs, alpha).last()
    }
}

/// A filtered stream has one output per input.
pub proof fn lemma_lp_stream_len(previous: int, inputs: Seq<int>, alpha: int)
    ensures
        lp_stream_spec(previous, inputs, alpha).len() == inputs.len(),
    decreases inputs.len(),
{
    if inputs.len() > 0 {
        let first = lp_step_spec(previous, inputs[0], alpha);
        lemma_lp_stream_len(first, inputs.skip(1), alpha);
    }
}

/// The first output of a stream is one step from the starting state.
pub proof fn lemma_lp_stream_head(previous: int, inputs: Seq<int>, alpha: int)
    requires
        inputs.len() > 0,
    ensures
        lp_stream_spec(previous, inputs, alpha)[0] == lp_step_spec(previous, inputs[0], alpha),
{
}

/// Whole-block filtering and carry-state filtering agree: past the first
/// sample, every output of a filtered stream equals one carry-state step
/// taken from the output before it. A caller that carries `output[i - 1]`
/// into a single-step call therefore reproduces the block output exactly.
pub proof fn lemma_block_equals_carry_state(previous: int, inputs: Seq<int>, alpha: int, i: int)
    requires
        1 <= i < inputs.len(),
    ensures
        lp_stream_spec(previous, inputs, alpha)[i] == lp_step_spec(
            lp_stream_spec(previous, inputs, alpha)[i - 1],
            inputs[i],
            alpha,
        ),
    decreases i,
{
    let first = lp_step_spec(previous, inputs[0], alpha);
    let rest = lp_stream_spec(first, inputs.skip(1), alpha);
    lemma_lp_stream_len(first, inputs.skip(1), alpha);
    if i == 1 {
        lemma_lp_stream_head(first, inputs.skip(1), alpha);
    } else {
        lemma_block_equals_carry_state(first, inputs.skip(1), alpha, i - 1);
    }
}

/// Continuity across block boundaries: filtering a signal cut into two
/// blocks, with the filter state carried from the first block into the
/// second, gives exactly the outputs of filtering the signal whole. This is
/// why the carry-state shape is the right one for a live stream.
pub proof fn lemma_lp_stream_append(previous: int, a: Seq<int>, b: Seq<int>, alpha: int)
    ensures
        lp_stream_spec(previous, a + b, alpha) == lp_stream_spec(previous, a, alpha)
            + lp_stream_spec(stream_end_state(previous, a, alpha), b, alpha),
    decreases a.len(),
{
    if a.len() == 0 {
        assert(a + b =~= b);
        assert(lp_stream_spec(previous, a, alpha) + lp_stream_spec(previous, b, alpha)
            =~= lp_stream_spec(previous, b, alpha));
    } else {
        let whole = a + b;
        assert(whole[0] == a[0]);
        let first = lp_step_spec(previous, a[0], alpha);
        assert(whole.skip(1) =~= a.skip(1) + b);
        lemma_lp_stream_append(first, a.skip(1), b, alpha);
        lemma_lp_stream_len(first, a.skip(1), alpha);
        let resta = lp_stream_spec(first, a.skip(1), alpha);
        assert(stream_end_state(previous, a, alpha) == stream_end_state(first, a.skip(1), alpha))
            by {
            if a.len() == 1 {
                assert(lp_stream_spec(previous, a, alpha).last() == first);
            } else {
                assert(lp_stream_spec(previous, a, alpha).last() == resta.last());
            }
        }
        let restb = lp_stream_spec(stream_end_state(previous, a, alpha), b, alpha);
        assert(seq![first] + (resta + restb) =~= (seq![first] + resta) + restb);
    }
}

/// A constant-input stream is a fixed point: once the held state equals the
/// incoming sample, a step returns it unchanged, whatever the coefficient.
pub proof fn lemma_lp_step_constant(x: int, alpha: int)
    ensures
        lp_step_spec(x, x, alpha) == x,
{
    lemma_mul_basics(alpha);
}

/// Repeating the constant case over a whole stream: a filter whose state has
/// reached the incoming value keeps returning that value, call after call.
pub proof fn lemma_lp_stream_constant(x: int, count: nat, alpha: int)
    ensures
        lp_stream_spec(x, Seq::new(count, |i: int| x), alpha) =~= Seq::new(count, |i: int| x),
    decreases count,
{
    let ins = Seq::new(count, |i: int| x);
    if count > 0 {
        lemma_lp_step_constant(x, alpha);
        lemma_lp_stream_constant(x, (count - 1) as nat, alpha);
        assert(ins.skip(1) =~= Seq::new((count - 1) as nat, |i: int| x));
        lemma_lp_stream_len(x, ins.skip(1), alpha);
    }
}

/// With a zero coefficient the filter freezes and keeps its held state: the
/// limiting behaviour as the cutoff frequency falls toward zero.
pub proof fn lemma_lp_step_freeze(previous: int, current: int)
    ensures
        lp_step_spec(previous, current, 0) == previous,
{
    if current >= previous {
        lemma_mul_basics(current - previous);
    } else {
        lemma_mul_basics(previous - current);
    }
}

/// The filter holds its state exactly whenever the coefficient times the
/// distance to the input stays below one full unit: at a very low cutoff the
/// output is not just nearly constant, it is constant.
pub proof fn lemma_lp_step_holds_when_tiny(previous: int, current: int, alpha: int)
    requires
        0 <= alpha,
        alpha * abs(current - previous) < FIXED_ONE,
    ensures
        lp_step_spec(previous, current, alpha) == previous,
{
    if current >= previous {
        lemma_mul_nonnegative(alpha, current - previous);
        lemma_basic_div(alpha * (current - previous), FIXED_ONE as int);
    } else {
        lemma_mul_nonnegative(alpha, previous - current);
        lemma_basic_div(alpha * (previous - current), FIXED_ONE as int);
    }
}

/// With a full-unit coefficient the filter is a pass-through and returns the
/// input: the limiting behaviour for cutoff frequencies far above the sample
/// rate.
pub proof fn lemma_lp_step_passthrough(previous: int, current: int)
    ensures
        lp_step_spec(previous, current, FIXED_ONE as int) == current,
{
    if current >= previous {
        lemma_div_multiples_vanish(current - previous, FIXED_ONE as int);
    } else {
        lemma_div_multiples_vanish(previous - current, FIXED_ONE as int);
    }
}

/// A step never overshoots: the new state lies between the held state and the
/// incoming sample, so every output moves toward the input.
pub proof fn lemma_lp_step_bounds(previous: int, current: int, alpha: int)
    requires
        0 <= alpha <= FIXED_ONE,
    ensures
        previous <= current ==> previous <= lp_step_spec(previous, current, alpha) <= current,
        current <= previous ==> current <= lp_step_spec(previous, current, alpha) <= previous,
{
    if current >= previous {
        lemma_frac_scale_bounds(alpha, current - previous);
    } else {
        lemma_frac_scale_bounds(alpha, previous - current);
    }
}

/// One carry-state step of the filter from an explicit previous output, with
/// the coefficient already computed.
pub fn lp_step(previous: i64, current: i64, alpha: i64) -> (r: i64)
    requires
        in_sample_range(previous as int),
        in_sample_range(current as int),
        0 <= alpha <= FIXED_ONE,
    ensures
        r == lp_step_spec(previous as int, current as int, alpha as int),
        in_sample_range(r as int),
{
    proof {
        lemma_lp_step_bounds(previous as int, current as int, alpha as int);
    }
    if current >= previous {
        let diff: i64 = current - previous;
        proof {
            lemma_frac_scale_bounds(alpha as int, diff as int);
            lemma_mul_upper_bound(
                alpha as int,
                FIXED_ONE as int,
                diff as int,
                2 * (SAMPLE_LIMIT as int),
            );
        }
        let scaled: u64 = (alpha as u64) * (diff as u64) / (FIXED_ONE as u64);
        previous + (scaled as i64)
    } else {
        let diff: i64 = previous - current;
        proof {
            lemma_frac_scale_bounds(alpha as int, diff as int);
            lemma_mul_upper_bound(
                alpha as int,
                FIXED_ONE as int,
                diff as int,
                2 * (SAMPLE_LIMIT as int),
            );
        }
        let scaled: u64 = (alpha as u64) * (diff as u64) / (FIXED_ONE as u64);
        previous - (scaled as i64)
    }
}

/// Carry-state mode: advances the filter by one sample, deriving the
/// coefficient from the sample rate and the cutoff frequency. The caller
/// stores the returned value as the previous output for the next call on the
/// same channel.
pub fn lowpass_two_samples(
    current: i64,
    previous: i64,
    sample_rate: u32,
    cutoff_frequency: u32,
) -> (r: i64)
    requires
        in_sample_range(current as int),
        in_sample_range(previous as int),
        0 < sample_rate <= MAX_HZ,
        0 < cutoff_frequency <= MAX_HZ,
    ensures
        r == lp_step_spec(
            previous as int,
            current as int,
            alpha_spec(sample_rate as int, cutoff_frequency as int),
        ),
        in_sample_range(r as int),
{
    let alpha = alpha_for(sample_rate, cutoff_frequency);
    lp_step(previous, current, alpha)
}

/// Whole-block mode: filters one pre-captured, non-empty channel buffer in
/// place. The recursion starts from an explicit zero previous state, so the
/// first output is the first input scaled by the coefficient. This shape is
/// only right for a signal captured whole; a live stream cut into blocks
/// belongs to the carry-state shape.
pub fn lowpass_filter(data: &mut Vec<i64>, sample_rate: u32, cutoff_frequency: u32)
    requires
        old(data)@.len() > 0,
        0 < sample_rate <= MAX_HZ,
        0 < cutoff_frequency <= MAX_HZ,
        forall|i: int| 0 <= i < old(data)@.len() ==> in_sample_range(old(data)@[i] as int),
    ensures
        as_ints(final(data)@) == lp_stream_spec(
            0,
            as_ints(old(data)@),
            alpha_spec(sample_rate as int, cutoff_frequency as int),
        ),
        final(data)@.len() == old(data)@.len(),
        forall|i: int| 0 <= i < final(data)@.len() ==> in_sample_range(final(data)@[i] as int),
{
    let ghost orig = as_ints(data@);
    let ghost a = alpha_spec(sample_rate as int, cutoff_frequency as int);
    let ghost outs = lp_stream_spec(0, orig, a);
    proof {
        lemma_lp_stream_len(0, orig, a);
    }
    let alpha = alpha_for(sample_rate, cutoff_frequency);
    let mut prev: i64 = 0;
    let n = data.len();
    let mut i: usize = 0;
    while i < n
        invariant
            n == data@.len(),
            orig.len() == n,
            outs == lp_stream_spec(0, orig, a),
            outs.len() == n,
            0 <= i <= n,
            alpha == a,
            0 <= alpha <= FIXED_ONE,
            forall|j: int| i <= j < n ==> data@[j] as int == orig[j],
            forall|j: int| 0 <= j < n ==> in_sample_range(data@[j] as int),
            forall|j: int| 0 <= j < i ==> data@[j] as int == outs[j],
            i == 0 ==> prev == 0,
            i > 0 ==> prev as int == outs[i - 1],
            in_sample_range(prev as int),
        decreases n - i,
    {
        let cur = data[i];
        let next = lp_step(prev, cur, alpha);
        proof {
            if i == 0 {
                lemma_lp_stream_head(0, orig, a);
            } else {
                lemma_block_equals_carry_state(0, orig, a, i as int);
            }
        }
        data[i] = next;
        prev = next;
        i = i + 1;
    }
    proof {
        assert(as_ints(data@) =~= outs);
    }
}

} // verus!
