//! Oscillator/mixer engine.
//!
//! A `SampleProcessor` turns absolute frame indices into interleaved stereo
//! samples: the left channel carries a pure carrier tone, the right channel
//! the same tone scaled by a slow amplitude envelope. Every sample is a pure
//! function of the engine's parameters and the absolute frame index, so the
//! waveform is phase-continuous no matter how generation is chunked.

use vstd::prelude::*;
use vstd::pervasive::VecAdditionalExecFns;
use crate::trig::{
    angle_at, angle_fixed, lemma_angle_range, lemma_sine_range, signed_sine, sine_fixed,
};
use vstd::arithmetic::div_mod::{lemma_div_by_multiple, lemma_div_is_ordered, lemma_div_pos_is_pos};

verus! {

/// A stereo tone generator: a carrier sine on the left channel and an
/// amplitude-modulated copy of it on the right, both derived from one
/// running frame counter.
pub struct SampleProcessor {
    /// Samples per second of the output transport, in Hz; always positive.
    pub sample_rate: u32,
    /// Frequency of the carrier tone, in Hz.
    pub freq: u32,
    /// Frequency of the amplitude-modulation envelope, in Hz.
    pub mod_freq: u32,
    /// Total frames generated since construction; the absolute phase base.
    pub num_processed_samples: usize,
}

impl SampleProcessor {
    /// A processor is well formed when its sample rate is positive, so that
    /// phase reduction modulo the sample rate is defined.
    pub open spec fn wf(self) -> bool {
        self.sample_rate > 0
    }

    /// The left-channel sample at absolute frame index `t`: the carrier sine,
    /// scaled to peak at 32767.
    pub open spec fn left_at(self, t: nat) -> int {
        signed_sine(angle_at(t, self.freq as nat, self.sample_rate as nat))
    }

    /// The amplitude envelope at absolute frame index `t`, scaled to
    /// `[0, 65534]`: the modulation sine remapped from `[-32767, 32767]`
    /// by adding 32767, so 65534 stands for an envelope of one.
    pub open spec fn envelope_at(self, t: nat) -> int {
        signed_sine(angle_at(t, self.mod_freq as nat, self.sample_rate as nat)) + 32767
    }

    /// The right-channel sample at absolute frame index `t`: the left sample
    /// scaled by the envelope, rounded toward zero.
    pub open spec fn right_at(self, t: nat) -> int {
        let l = self.left_at(t);
        let e = self.envelope_at(t);
        if l >= 0 {
            (l * e) / 65534
        } else {
            -(((-l) * e) / 65534)
        }
    }

    /// The interleaved stereo stream starting at frame `t0`: sample `2 * j`
    /// is the left channel of frame `t0 + j`, sample `2 * j + 1` its right.
    pub open spec fn sample_at(self, t0: nat, k: nat) -> int {
        if k % 2 == 0 {
            self.left_at(t0 + k / 2)
        } else {
            self.right_at(t0 + k / 2)
        }
    }

    /// The interleaved output of generating `frames` stereo frames starting
    /// at absolute frame index `t0`.
    pub open spec fn track(self, t0: nat, frames: nat) -> Seq<int> {
        Seq::new(2 * frames, |k: int| self.sample_at(t0, k as nat))
    }

    /// Creates an engine with a zeroed frame counter.
    pub fn new(sample_rate: u32, freq: u32, mod_freq: u32) -> (p: SampleProcessor)
        requires
            sample_rate > 0,
        ensures
            p.sample_rate == sample_rate,
            p.freq == freq,
            p.mod_freq == mod_freq,
            p.num_processed_samples == 0,
            p.wf(),
    {
        SampleProcessor { sample_rate, freq, mod_freq, num_processed_samples: 0 }
    }

    /// Fills `buffer` in place with interleaved stereo samples, one frame per
    /// `num_channels` slots, starting at the current frame counter, and
    /// advances the counter by exactly the number of frames written. Only
    /// stereo output is supported, and the buffer must hold whole frames.
    pub fn process_samples(&mut self, buffer: &mut Vec<i16>, num_channels: usize)
        requires
            old(self).wf(),
            num_channels == 2,
            old(buffer).len() % 2 == 0,
            old(self).num_processed_samples + old(buffer).len() / 2 <= usize::MAX,
        ensures
            final(self).sample_rate == old(self).sample_rate,
            final(self).freq == old(self).freq,
            final(self).mod_freq == old(self).mod_freq,
            final(self).num_processed_samples == old(self).num_processed_samples + old(
                buffer,
            ).len() / 2,
            final(buffer).len() == old(buffer).len(),
            forall|k: int|
                0 <= k < old(buffer).len() ==> #[trigger] final(buffer)@[k] as int == old(
                    self,
                ).sample_at(old(self).num_processed_samples as nat, k as nat),
            final(buffer)@.map_values(|s: i16| s as int) == old(self).track(
                old(self).num_processed_samples as nat,
                (old(buffer).len() / 2) as nat,
            ),
    {
        let frames: usize = buffer.len() / 2;
        let t0: usize = self.num_processed_samples;
        let ghost p = *self;
        let mut j: usize = 0;
        while j < frames
            invariant
                *self == p,
                p.wf(),
                frames == buffer.len() / 2,
                buffer.len() % 2 == 0,
                buffer.len() == old(buffer).len(),
                t0 == p.num_processed_samples,
                t0 + frames <= usize::MAX,
                0 <= j <= frames,
                forall|k: int|
                    0 <= k < 2 * j ==> #[trigger] buffer@[k] as int == p.sample_at(
                        t0 as nat,
                        k as nat,
                    ),
            decreases frames - j,
        {
            let t: usize = t0 + j;
            let (l, r) = stereo_frame_at(t, self.sample_rate, self.freq, self.mod_freq);
            proof {
                assert(2 * j < buffer.len() && 2 * j + 1 < buffer.len());
            }
            buffer.set(2 * j, l);
            buffer.set(2 * j + 1, r);
            proof {
                assert((2 * j as int) % 2 == 0 && (2 * j as int) / 2 == j);
                assert((2 * j as int + 1) % 2 == 1 && (2 * j as int + 1) / 2 == j);
            }
            j = j + 1;
        }
        self.num_processed_samples = t0 + frames;
        proof {
            let m = buffer@.map_values(|s: i16| s as int);
            let tr = p.track(t0 as nat, frames as nat);
            assert(m.len() == tr.len());
            assert forall|k: int| 0 <= k < m.len() implies m[k] == tr[k] by {
                assert(buffer@[k] as int == p.sample_at(t0 as nat, k as nat));
            }
            assert(m =~= tr);
        }
    }
}

/// Phase continuity: splitting a run of frames into two consecutive calls
/// yields exactly the concatenation of the two partial outputs, because every
/// sample depends only on its absolute frame index, never on call boundaries.
pub proof fn lemma_phase_continuity(p: SampleProcessor, t0: nat, n1: nat, n2: nat)
    ensures
        p.track(t0, n1 + n2) == p.track(t0, n1) + p.track(t0 + n1, n2),
{
    let whole = p.track(t0, n1 + n2);
    let split = p.track(t0, n1) + p.track(t0 + n1, n2);
    assert(whole.len() == split.len());
    assert forall|k: int| 0 <= k < whole.len() implies whole[k] == split[k] by {
        if k >= 2 * n1 {
            let k2 = k - 2 * n1;
            assert(k2 % 2 == k % 2);
            assert(t0 + n1 + k2 / 2 == t0 + k / 2);
        }
    }
    assert(whole =~= split);
}

/// Determinism: two engines with the same generation parameters produce the
/// same output for the same starting counter, whatever their histories.
pub proof fn lemma_determinism(p1: SampleProcessor, p2: SampleProcessor, t0: nat, frames: nat)
    requires
        p1.sample_rate == p2.sample_rate,
        p1.freq == p2.freq,
        p1.mod_freq == p2.mod_freq,
    ensures
        p1.track(t0, frames) == p2.track(t0, frames),
{
    assert(p1.track(t0, frames) =~= p2.track(t0, frames));
}

/// Range: every generated sample, on either channel, lies in
/// `[-32767, 32767]`.
pub proof fn lemma_sample_range(p: SampleProcessor, t: nat)
    requires
        p.wf(),
    ensures
        -32767 <= p.left_at(t) <= 32767,
        -32767 <= p.right_at(t) <= 32767,
{
    lemma_modulation_bounds(p, t);
}

/// Modulation bounds: the envelope stays in `[0, 65534]` (the fixed-point
/// image of `[0, 1]`), and the right channel's magnitude never exceeds the
/// left channel's.
pub proof fn lemma_modulation_bounds(p: SampleProcessor, t: nat)
    requires
        p.wf(),
    ensures
        0 <= p.envelope_at(t) <= 65534,
        -32767 <= p.left_at(t) <= 32767,
        p.left_at(t) >= 0 ==> 0 <= p.right_at(t) <= p.left_at(t),
        p.left_at(t) < 0 ==> p.left_at(t) <= p.right_at(t) <= 0,
{
    lemma_angle_range(t, p.freq as nat, p.sample_rate as nat);
    lemma_angle_range(t, p.mod_freq as nat, p.sample_rate as nat);
    lemma_sine_range(angle_at(t, p.freq as nat, p.sample_rate as nat));
    lemma_sine_range(angle_at(t, p.mod_freq as nat, p.sample_rate as nat));
    let l = p.left_at(t);
    let e = p.envelope_at(t);
    let mag = if l >= 0 { l } else { -l };
    assert(mag * e <= mag * 65534) by (nonlinear_arith)
        requires
            0 <= mag,
            0 <= e <= 65534,
    ;
    lemma_div_pos_is_pos(mag * e, 65534);
    lemma_div_is_ordered(mag * e, mag * 65534, 65534);
    lemma_div_by_multiple(mag, 65534);
}

/// Computes the stereo sample pair at absolute frame index `t`.
fn stereo_frame_at(t: usize, sample_rate: u32, freq: u32, mod_freq: u32) -> (lr: (i16, i16))
    requires
        sample_rate > 0,
    ensures
        ({
            let p = SampleProcessor { sample_rate, freq, mod_freq, num_processed_samples: 0 };
            lr.0 as int == p.left_at(t as nat) && lr.1 as int == p.right_at(t as nat)
        }),
{
    let ghost p = SampleProcessor { sample_rate, freq, mod_freq, num_processed_samples: 0 };
    let a_carrier = angle_fixed(t, freq, sample_rate);
    let l: i16 = sine_fixed(a_carrier);
    let a_mod = angle_fixed(t, mod_freq, sample_rate);
    let s_mod: i16 = sine_fixed(a_mod);
    let e: u32 = (s_mod as i32 + 32767) as u32;
    let li: i32 = l as i32;
    let mag: u32 = if li >= 0 {
        li as u32
    } else {
        (-li) as u32
    };
    proof {
        assert(e == p.envelope_at(t as nat));
        assert((mag as int) * (e as int) <= 32767 * 65534) by (nonlinear_arith)
            requires
                0 <= mag <= 32767,
                0 <= e <= 65534,
        ;
        assert((mag as int) * (e as int) <= (mag as int) * 65534) by (nonlinear_arith)
            requires
                0 <= mag,
                0 <= e <= 65534,
        ;
        lemma_div_pos_is_pos((mag as int) * (e as int), 65534);
        lemma_div_is_ordered((mag as int) * (e as int), (mag as int) * 65534, 65534);
        lemma_div_by_multiple(mag as int, 65534);
    }
    let rm: u32 = ((mag as u64) * (e as u64) / 65534) as u32;
    let r: i16 = if li >= 0 {
        rm as i16
    } else {
        -(rm as i16)
    };
    (l, r)
}

} // verus!
