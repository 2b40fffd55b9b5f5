//! Circular feed controller.
//!
//! The controller owns the oscillator engine and fills writable windows of a
//! circular transfer buffer with little-endian 16-bit stereo frames. A window
//! is committed only in whole-frame units: its length is rounded down to a
//! multiple of one frame (two channels of two bytes), the excess trailing
//! bytes are left untouched, and the engine's frame counter advances by
//! exactly the number of frames committed, so the commit size and the phase
//! advance can never disagree.

use vstd::prelude::*;
use vstd::pervasive::VecAdditionalExecFns;
use crate::engine::SampleProcessor;

verus! {

/// Bytes of one stereo frame: two channels of one 16-bit sample each.
pub const FRAME_BYTES: usize = 4;

/// The unsigned 16-bit pattern that encodes sample value `v`, two's
/// complement, for `v` in `[-32768, 32768)`.
pub open spec fn bits16(v: int) -> int {
    if v >= 0 {
        v
    } else {
        v + 65536
    }
}

/// Low byte of the little-endian encoding of sample value `v`.
pub open spec fn lo_byte(v: int) -> int {
    bits16(v) % 256
}

/// High byte of the little-endian encoding of sample value `v`.
pub open spec fn hi_byte(v: int) -> int {
    bits16(v) / 256
}

/// The number of bytes committed for a window of `len` bytes: `len` rounded
/// down to a whole number of frames.
pub open spec fn committed_bytes(len: nat) -> nat {
    (len / 4) * 4
}

/// Byte `k` of the encoded stereo stream that starts at absolute frame `t0`:
/// each frame contributes four bytes, the left sample little-endian first,
/// then the right.
pub open spec fn stream_byte(p: SampleProcessor, t0: nat, k: nat) -> int {
    let t = t0 + k / 4;
    let s = if k % 4 < 2 {
        p.left_at(t)
    } else {
        p.right_at(t)
    };
    if k % 4 == 0 || k % 4 == 2 {
        lo_byte(s)
    } else {
        hi_byte(s)
    }
}

/// Frame alignment of the commit rule: what a window of `len` bytes commits
/// is a whole number of frames, fits in the window, and leaves strictly less
/// than one frame of the window unused.
pub proof fn lemma_frame_alignment(len: nat)
    ensures
        committed_bytes(len) % 4 == 0,
        committed_bytes(len) <= len,
        len - committed_bytes(len) < 4,
{
}

/// Total frames committed by a sequence of refill windows of the given byte
/// lengths, each rounded down to whole frames.
pub open spec fn total_committed_frames(windows: Seq<nat>) -> nat
    decreases windows.len(),
{
    if windows.len() == 0 {
        0
    } else {
        windows[0] / 4 + total_committed_frames(windows.drop_first())
    }
}

/// The engine's frame counter after refilling each window of `windows` in
/// turn, starting from `counter`: one `fill_window` call advances the counter
/// by `len / 4`, exactly as its contract states.
pub open spec fn counter_after_refills(counter: nat, windows: Seq<nat>) -> nat
    decreases windows.len(),
{
    if windows.len() == 0 {
        counter
    } else {
        counter_after_refills(counter + windows[0] / 4, windows.drop_first())
    }
}

/// Counter advance correctness: across any number of refill cycles the frame
/// counter grows by exactly the total number of committed frames, so the
/// commit sizes reported to the sink and the engine's phase never drift
/// apart.
pub proof fn lemma_counter_advance(counter: nat, windows: Seq<nat>)
    ensures
        counter_after_refills(counter, windows) == counter + total_committed_frames(windows),
    decreases windows.len(),
{
    if windows.len() > 0 {
        lemma_counter_advance(counter + windows[0] / 4, windows.drop_first());
    }
}

/// Splits the sample `v` into its little-endian byte pair.
fn sample_to_le(v: i16) -> (b: (u8, u8))
    ensures
        b.0 as int == lo_byte(v as int),
        b.1 as int == hi_byte(v as int),
{
    let u: u16 = if v >= 0 {
        v as u16
    } else {
        ((v as i32) + 65536) as u16
    };
    ((u % 256) as u8, (u / 256) as u8)
}

/// The feed side of the refill protocol: an oscillator engine plus the rule
/// that turns a writable window into committed frames. The consumer that
/// drains the transfer buffer decides when and how large a window is; this
/// controller decides, deterministically, what goes into it.
pub struct FeedController {
    /// The oscillator that supplies the samples.
    pub engine: SampleProcessor,
}

impl FeedController {
    /// A controller is well formed when its engine is.
    pub open spec fn wf(self) -> bool {
        self.engine.wf()
    }

    /// Creates a controller around a fresh engine.
    pub fn new(sample_rate: u32, freq: u32, mod_freq: u32) -> (c: FeedController)
        requires
            sample_rate > 0,
        ensures
            c.engine.sample_rate == sample_rate,
            c.engine.freq == freq,
            c.engine.mod_freq == mod_freq,
            c.engine.num_processed_samples == 0,
            c.wf(),
    {
        FeedController { engine: SampleProcessor::new(sample_rate, freq, mod_freq) }
    }

    /// The number of whole frames a window of `window_len` bytes can hold.
    pub fn frames_in_window(window_len: usize) -> (frames: usize)
        ensures
            frames == window_len / 4,
            frames * 4 == committed_bytes(window_len as nat),
    {
        window_len / FRAME_BYTES
    }

    /// One refill cycle: fills the front of `window` with as many whole
    /// encoded frames as fit, leaves the remaining tail bytes untouched, and
    /// returns the number of bytes written, which always equals one frame's
    /// bytes per frame committed and is exactly the amount the engine's
    /// counter advanced by (times the frame size). A window shorter than one
    /// frame commits nothing and does not disturb the phase.
    pub fn fill_window(&mut self, window: &mut Vec<u8>) -> (written: usize)
        requires
            old(self).wf(),
            old(self).engine.num_processed_samples + old(window).len() / 4 <= usize::MAX,
        ensures
            final(self).wf(),
            written == committed_bytes(old(window).len() as nat),
            final(window).len() == old(window).len(),
            final(self).engine.sample_rate == old(self).engine.sample_rate,
            final(self).engine.freq == old(self).engine.freq,
            final(self).engine.mod_freq == old(self).engine.mod_freq,
            final(self).engine.num_processed_samples == old(self).engine.num_processed_samples
                + old(window).len() / 4,
            forall|k: int|
                0 <= k < written ==> #[trigger] final(window)@[k] as int == stream_byte(
                    old(self).engine,
                    old(self).engine.num_processed_samples as nat,
                    k as nat,
                ),
            forall|k: int| written <= k < old(window).len() ==> final(window)@[k] == old(
                window,
            )@[k],
    {
        let frames: usize = window.len() / FRAME_BYTES;
        let ghost p = self.engine;
        let ghost t0 = self.engine.num_processed_samples as nat;
        if frames == 0 {
            return 0;
        }
        let mut samples: Vec<i16> = Vec::new();
        let mut i: usize = 0;
        while i < 2 * frames
            invariant
                0 <= i <= 2 * frames,
                samples.len() == i,
                2 * frames <= usize::MAX,
            decreases 2 * frames - i,
        {
            samples.push(0i16);
            i = i + 1;
        }
        self.engine.process_samples(&mut samples, 2);
        let mut j: usize = 0;
        while j < frames
            invariant
                self.engine.sample_rate == p.sample_rate,
                self.engine.freq == p.freq,
                self.engine.mod_freq == p.mod_freq,
                self.engine.num_processed_samples == t0 + frames,
                p.wf(),
                t0 == p.num_processed_samples as nat,
                0 <= j <= frames,
                frames == window.len() / 4,
                window.len() == old(window).len(),
                samples.len() == 2 * frames,
                forall|k: int|
                    0 <= k < 2 * frames ==> #[trigger] samples@[k] as int == p.sample_at(
                        t0,
                        k as nat,
                    ),
                forall|k: int|
                    0 <= k < 4 * j ==> #[trigger] window@[k] as int == stream_byte(p, t0, k as nat),
                forall|k: int| 4 * j <= k < window.len() ==> window@[k] == old(window)@[k],
            decreases frames - j,
        {
            let l = samples[2 * j];
            let r = samples[2 * j + 1];
            let lb = sample_to_le(l);
            let rb = sample_to_le(r);
            window.set(4 * j, lb.0);
            window.set(4 * j + 1, lb.1);
            window.set(4 * j + 2, rb.0);
            window.set(4 * j + 3, rb.1);
            proof {
                let b = 4 * j as int;
                assert(b % 4 == 0 && b / 4 == j);
                assert((b + 1) % 4 == 1 && (b + 1) / 4 == j);
                assert((b + 2) % 4 == 2 && (b + 2) / 4 == j);
                assert((b + 3) % 4 == 3 && (b + 3) / 4 == j);
                assert((2 * j as int) % 2 == 0 && (2 * j as int) / 2 == j);
                assert((2 * j as int + 1) % 2 == 1 && (2 * j as int + 1) / 2 == j);
            }
            j = j + 1;
        }
        frames * FRAME_BYTES
    }
}

} // verus!
