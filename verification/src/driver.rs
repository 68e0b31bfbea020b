//! The stream driver: owns the per-channel filter memory and the session
//! sample rate, and runs every process block through the low-pass filter and
//! the makeup gain stage, channel by channel.
//!
//! The driver is deterministic by construction: every output and every new
//! piece of filter memory is pinned, in the contracts below, to a spec
//! function of the old state, the input samples and the per-call parameters.

use crate::coeff::alpha_for;
use crate::coeff::alpha_spec;
use crate::coeff::MAX_HZ;
use crate::filter::lemma_block_equals_carry_state;
use crate::filter::lemma_lp_stream_head;
use crate::filter::lemma_lp_stream_len;
use crate::filter::lp_step;
use crate::filter::lp_stream_spec;
use crate::filter::stream_end_state;
use crate::fixed::as_ints;
use crate::fixed::in_sample_range;
use crate::fixed::FIXED_ONE;
use crate::fixed::GAIN_LIMIT;
use crate::makeup::makeup;
use crate::makeup::scale_spec;
use vstd::prelude::*;

verus! {

/// The gain-scaled outputs of one channel for one block: the filtered stream,
/// each sample run through the makeup stage.
pub open spec fn channel_outputs(previous: int, inputs: Seq<int>, alpha: int, gain: int) -> Seq<
    int,
> {
    lp_stream_spec(previous, inputs, alpha).map_values(|x: int| scale_spec(x, gain))
}

/// Filters one channel buffer in place from an explicit previous output and
/// applies the makeup gain. The buffer receives the gain-scaled outputs; the
/// returned value is the channel's new filter memory, which carries the
/// unscaled filter output into the next block.
pub fn process_channel(previous: i64, buffer: &mut Vec<i64>, alpha: i64, gain: i64) -> (state:
    i64)
    requires
        in_sample_range(previous as int),
        0 <= alpha <= FIXED_ONE,
        0 <= gain <= GAIN_LIMIT,
        forall|i: int| 0 <= i < old(buffer)@.len() ==> in_sample_range(old(buffer)@[i] as int),
    ensures
        final(buffer)@.len() == old(buffer)@.len(),
        as_ints(final(buffer)@) == channel_outputs(
            previous as int,
            as_ints(old(buffer)@),
            alpha as int,
            gain as int,
        ),
        state as int == stream_end_state(previous as int, as_ints(old(buffer)@), alpha as int),
        in_sample_range(state as int),
{
    let ghost orig = as_ints(buffer@);
    let ghost filtered = lp_stream_spec(previous as int, orig, alpha as int);
    proof {
        lemma_lp_stream_len(previous as int, orig, alpha as int);
    }
    let mut prev = previous;
    let n = buffer.len();
    let mut i: usize = 0;
    while i < n
        invariant
            n == buffer@.len(),
            orig.len() == n,
            filtered == lp_stream_spec(previous as int, orig, alpha as int),
            filtered.len() == n,
            0 <= i <= n,
            0 <= alpha <= FIXED_ONE,
            0 <= gain <= GAIN_LIMIT,
            in_sample_range(previous as int),
            forall|j: int| i <= j < n ==> buffer@[j] as int == orig[j],
            forall|j: int| 0 <= j < n ==> in_sample_range(orig[j]),
            forall|j: int|
                0 <= j < i ==> buffer@[j] as int == scale_spec(filtered[j], gain as int),
            i == 0 ==> prev == previous,
            i > 0 ==> prev as int == filtered[i - 1],
            in_sample_range(prev as int),
        decreases n - i,
    {
        let cur = buffer[i];
        proof {
            assert(cur as int == orig[i as int]);
        }
        let next = lp_step(prev, cur, alpha);
        proof {
            if i == 0 {
                lemma_lp_stream_head(previous as int, orig, alpha as int);
            } else {
                lemma_block_equals_carry_state(previous as int, orig, alpha as int, i as int);
            }
        }
        prev = next;
        let mut out = next;
        makeup(&mut out, gain);
        buffer[i] = out;
        i = i + 1;
    }
    proof {
        assert(as_ints(buffer@) =~= channel_outputs(
            previous as int,
            orig,
            alpha as int,
            gain as int,
        ));
    }
    prev
}

/// The mathematical state of a driver: the session sample rate and one held
/// filter output per channel.
#[verifier::ext_equal]
pub struct DriverView {
    pub sample_rate: int,
    pub last: Seq<int>,
}

/// The per-channel filter memory and the session sample rate, persisting
/// across process calls for the life of the audio session.
pub struct StreamDriver {
    sample_rate: u32,
    last: Vec<i64>,
}

impl View for StreamDriver {
    type V = DriverView;

    closed spec fn view(&self) -> DriverView {
        DriverView { sample_rate: self.sample_rate as int, last: as_ints(self.last@) }
    }
}

impl StreamDriver {
    /// Well-formed: a positive, bounded sample rate and bounded filter memory.
    pub open spec fn wf(&self) -> bool {
        &&& 0 < self@.sample_rate <= MAX_HZ as int
        &&& forall|c: int| 0 <= c < self@.last.len() ==> in_sample_range(self@.last[c])
    }

    /// How many channels the driver carries state for.
    pub fn channels(&self) -> (n: usize)
        ensures
            n as int == self@.last.len(),
    {
        self.last.len()
    }

    /// The sample rate recorded at session start or reconfiguration.
    pub fn sample_rate(&self) -> (r: u32)
        ensures
            r as int == self@.sample_rate,
    {
        self.sample_rate
    }

    /// Session start: records the sample rate and gives every channel a
    /// zeroed filter memory.
    pub fn new(sample_rate: u32, channels: usize) -> (d: StreamDriver)
        requires
            0 < sample_rate <= MAX_HZ,
        ensures
            d.wf(),
            d@.sample_rate == sample_rate as int,
            d@.last.len() == channels as int,
            forall|c: int| 0 <= c < channels as int ==> d@.last[c] == 0,
    {
        let last: Vec<i64> = vec![0i64; channels];
        StreamDriver { sample_rate, last }
    }

    /// Reconfiguration: records a new sample rate; the filter memory stands.
    pub fn initialize(&mut self, sample_rate: u32)
        requires
            old(self).wf(),
            0 < sample_rate <= MAX_HZ,
        ensures
            final(self).wf(),
            final(self)@.sample_rate == sample_rate as int,
            final(self)@.last == old(self)@.last,
    {
        self.sample_rate = sample_rate;
        proof {
            assert forall|c: int| 0 <= c < self@.last.len() implies in_sample_range(
                self@.last[c],
            ) by {
                assert(self@.last[c] == old(self)@.last[c]);
            }
        }
    }

    /// Reset: zeroes every channel's filter memory; the sample rate stands.
    pub fn reset(&mut self)
        requires
            old(self).wf(),
        ensures
            final(self).wf(),
            final(self)@.sample_rate == old(self)@.sample_rate,
            final(self)@.last.len() == old(self)@.last.len(),
            forall|c: int| 0 <= c < final(self)@.last.len() ==> final(self)@.last[c] == 0,
    {
        let n = self.last.len();
        self.last = vec![0i64; n];
    }

    /// One process call: runs every channel buffer through the filter from
    /// that channel's memory, stores the new memory, and applies the makeup
    /// gain, all in place. The cutoff frequency is in Hz; the gain is a
    /// linear-domain Q16.16 value.
    pub fn process(&mut self, buffers: &mut Vec<Vec<i64>>, cutoff_frequency: u32, gain: i64)
        requires
            old(self).wf(),
            0 < cutoff_frequency <= MAX_HZ,
            0 <= gain <= GAIN_LIMIT,
            old(buffers)@.len() == old(self)@.last.len(),
            forall|c: int, i: int|
                0 <= c < old(buffers)@.len() && 0 <= i < old(buffers)@[c]@.len()
                    ==> in_sample_range(old(buffers)@[c]@[i] as int),
        ensures
            final(self).wf(),
            final(self)@.sample_rate == old(self)@.sample_rate,
            final(self)@.last.len() == old(self)@.last.len(),
            final(buffers)@.len() == old(buffers)@.len(),
            forall|c: int|
                0 <= c < old(buffers)@.len() ==> as_ints(final(buffers)@[c]@) == channel_outputs(
                    old(self)@.last[c],
                    as_ints(old(buffers)@[c]@),
                    alpha_spec(old(self)@.sample_rate, cutoff_frequency as int),
                    gain as int,
                ),
            forall|c: int|
                0 <= c < old(buffers)@.len() ==> final(self)@.last[c] == stream_end_state(
                    old(self)@.last[c],
                    as_ints(old(buffers)@[c]@),
                    alpha_spec(old(self)@.sample_rate, cutoff_frequency as int),
                ),
            forall|c: int|
                0 <= c < old(buffers)@.len() ==> final(buffers)@[c]@.len() == old(
                    buffers,
                )@[c]@.len(),
    {
        let ghost origbufs = buffers@;
        let ghost origlast = self.last@;
        let ghost sr = self@.sample_rate;
        let ghost a = alpha_spec(sr, cutoff_frequency as int);
        proof {
            assert forall|j: int| 0 <= j < origlast.len() implies in_sample_range(
                origlast[j] as int,
            ) by {
                assert(as_ints(origlast)[j] == origlast[j] as int);
            }
        }
        let alpha = alpha_for(self.sample_rate, cutoff_frequency);
        let n = buffers.len();
        let mut c: usize = 0;
        while c < n
            invariant
                n == buffers@.len(),
                n == self.last@.len(),
                origbufs.len() == n,
                origlast.len() == n,
                0 < self.sample_rate <= MAX_HZ,
                self.sample_rate as int == sr,
                a == alpha_spec(sr, cutoff_frequency as int),
                alpha as int == a,
                0 <= alpha <= FIXED_ONE,
                0 <= gain <= GAIN_LIMIT,
                0 <= c <= n,
                forall|j: int| c <= j < n ==> buffers@[j] == origbufs[j],
                forall|j: int| c <= j < n ==> self.last@[j] == origlast[j],
                forall|j: int| 0 <= j < n ==> in_sample_range(origlast[j] as int),
                forall|j: int, i: int|
                    0 <= j < n && 0 <= i < origbufs[j]@.len() ==> in_sample_range(
                        origbufs[j]@[i] as int,
                    ),
                forall|j: int|
                    0 <= j < c ==> as_ints(buffers@[j]@) == channel_outputs(
                        origlast[j] as int,
                        as_ints(origbufs[j]@),
                        a,
                        gain as int,
                    ),
                forall|j: int| 0 <= j < c ==> buffers@[j]@.len() == origbufs[j]@.len(),
                forall|j: int|
                    0 <= j < c ==> self.last@[j] as int == stream_end_state(
                        origlast[j] as int,
                        as_ints(origbufs[j]@),
                        a,
                    ),
                forall|j: int| 0 <= j < n ==> in_sample_range(self.last@[j] as int),
            decreases n - c,
        {
            let prev = self.last[c];
            proof {
                assert(buffers@[c as int] == origbufs[c as int]);
                assert forall|i: int| 0 <= i < buffers@[c as int]@.len() implies in_sample_range(
                    buffers@[c as int]@[i] as int,
                ) by {
                    assert(in_sample_range(origbufs[c as int]@[i] as int));
                }
            }
            let state = process_channel(prev, &mut buffers[c], alpha, gain);
            self.last[c] = state;
            c = c + 1;
        }
    }
}

/// After a reset the driver holds exactly the state of a freshly started
/// session with the same sample rate and channel count. Since every process
/// output is pinned by the contracts to a spec function of the view, the
/// inputs and the parameters alone, the first call after a reset reproduces
/// the cold-start outputs bit for bit.
pub proof fn lemma_reset_matches_cold_start(after_reset: DriverView, fresh: DriverView)
    requires
        after_reset.sample_rate == fresh.sample_rate,
        after_reset.last.len() == fresh.last.len(),
        forall|c: int| 0 <= c < after_reset.last.len() ==> after_reset.last[c] == 0,
        forall|c: int| 0 <= c < fresh.last.len() ==> fresh.last[c] == 0,
    ensures
        after_reset == fresh,
{
    assert(after_reset.last =~= fresh.last);
    assert(after_reset =~= fresh);
}

} // verus!
