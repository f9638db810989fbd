//! Framing of a waveform for the short-time spectrum that feeds the mel
//! spectrogram: how much padding goes at each end and of which kind, how
//! many frames are cut, and how the frame count is brought to one frame per
//! hop of the original waveform.
use vstd::prelude::*;
use vstd::arithmetic::div_mod::lemma_fundamental_div_mod;
use crate::signal::{reflect_padded, zero_padded, frame_of, reflect_pad, pad_with, frame_signal, copy_range};

verus! {

/// Samples per analysis window.
pub const WIN_SIZE: usize = 1024;

/// Samples between the starts of two consecutive windows.
pub const HOP_LENGTH: usize = 160;

/// Length of the discrete Fourier transform of a window.
pub const N_FFT: usize = 1024;

/// Bands of the mel spectrogram.
pub const N_MELS: usize = 128;

/// Frequency bins of the one-sided spectrum of a window.
pub const N_FREQS: usize = N_FFT / 2 + 1;

/// How a waveform of a given length is padded and cut into frames.
#[derive(Clone, Copy, Debug, PartialEq, Eq)]
pub struct FramingPlan {
    /// Samples added before the waveform.
    pub pad_left: usize,
    /// Samples added after the waveform.
    pub pad_right: usize,
    /// The padding reflects the waveform about its edge samples; otherwise it is silence.
    pub reflect: bool,
    /// Length of the padded waveform.
    pub padded_len: usize,
    /// Frames cut from the padded waveform.
    pub n_frames: usize,
    /// Frames the spectrogram ends up with: one per hop of the waveform, plus one.
    pub target_frames: usize,
}

/// Samples added before a waveform.
pub open spec fn framing_pad_left() -> int {
    (WIN_SIZE - HOP_LENGTH) / 2
}

/// Samples added after a waveform of `t` samples: at least half the
/// difference of window and hop, and enough for one whole window.
pub open spec fn framing_pad_right(t: int) -> int {
    let half = (WIN_SIZE - HOP_LENGTH + 1) / 2;
    let fill = WIN_SIZE - t - framing_pad_left();
    if half >= fill { half } else { fill }
}

/// The framing plan of a waveform of `t` samples.
pub open spec fn framing_spec(t: nat) -> FramingPlan {
    let pl = framing_pad_left();
    let pr = framing_pad_right(t as int);
    let padded = t + pl + pr;
    FramingPlan {
        pad_left: pl as usize,
        pad_right: pr as usize,
        reflect: pr < t,
        padded_len: padded as usize,
        n_frames: (((padded - WIN_SIZE) as nat) / (HOP_LENGTH as nat) + 1) as usize,
        target_frames: (t / (HOP_LENGTH as nat) + 1) as usize,
    }
}

/// Plans the padding and framing of a waveform of `t` samples.
pub fn plan_framing(t: usize) -> (res: FramingPlan)
    requires
        t + (WIN_SIZE - HOP_LENGTH) <= i32::MAX,
    ensures
        res == framing_spec(t as nat),
{
    let pad_left: usize = (WIN_SIZE - HOP_LENGTH) / 2;
    let half: usize = (WIN_SIZE - HOP_LENGTH + 1) / 2;
    let pad_right: usize = if t + pad_left + half >= WIN_SIZE { half } else { WIN_SIZE - t - pad_left };
    let padded_len = t + pad_left + pad_right;
    let n_frames = (padded_len - WIN_SIZE) / HOP_LENGTH + 1;
    let target_frames = t / HOP_LENGTH + 1;
    FramingPlan { pad_left, pad_right, reflect: pad_right < t, padded_len, n_frames, target_frames }
}

/// For every waveform length: the padded waveform holds at least one window,
/// every frame lies inside it, reflected padding never reaches past the
/// waveform, and the frames cut are the frames wanted or one fewer.
pub proof fn lemma_framing_consistent(t: nat)
    requires
        t + (WIN_SIZE - HOP_LENGTH) <= i32::MAX,
    ensures
        framing_spec(t).padded_len >= WIN_SIZE,
        framing_spec(t).padded_len == t + framing_spec(t).pad_left + framing_spec(t).pad_right,
        (framing_spec(t).n_frames - 1) * HOP_LENGTH + WIN_SIZE <= framing_spec(t).padded_len,
        framing_spec(t).n_frames >= 1,
        framing_spec(t).reflect ==> framing_spec(t).pad_left < t && framing_spec(t).pad_right < t,
        framing_spec(t).target_frames == framing_spec(t).n_frames
            || framing_spec(t).target_frames == framing_spec(t).n_frames + 1,
{
    let p = framing_spec(t);
    let d = (p.padded_len - WIN_SIZE) as int;
    lemma_fundamental_div_mod(d, HOP_LENGTH as int);
    lemma_fundamental_div_mod(t as int, HOP_LENGTH as int);
}

/// The framing of a waveform of `t` samples, in numbers: 432 samples before
/// it, and after it 432 or as many as make the padded waveform one whole
/// window; so the padded length is the larger of 1024 and `t + 864`. The
/// padding reflects the waveform exactly when it can, that is when the
/// waveform is longer than each padding, which is when `t > 432`; shorter
/// waveforms are padded with silence. The frames cut are `t / 160` but at
/// least one, and the spectrogram keeps `t / 160 + 1` of them.
pub proof fn lemma_framing_numbers(t: nat)
    requires
        t + (WIN_SIZE - HOP_LENGTH) <= i32::MAX,
    ensures
        framing_spec(t).pad_left == 432,
        framing_spec(t).pad_right == (if t >= 160 { 432 } else { 592 - t }),
        framing_spec(t).padded_len == (if t + 864 >= 1024 { t + 864 } else { 1024 }),
        framing_spec(t).reflect <==> (framing_spec(t).pad_left < t && framing_spec(t).pad_right < t),
        framing_spec(t).reflect <==> t > 432,
        framing_spec(t).n_frames == (if t >= 160 { t / 160 } else { 1 }),
        framing_spec(t).target_frames == t / 160 + 1,
{
    if t >= 160 {
        assert((t + 864 - 1024) as nat / 160 + 1 == t / 160) by {
            lemma_fundamental_div_mod(t as int, 160);
            lemma_fundamental_div_mod((t - 160) as int, 160);
        }
    }
}

/// The waveform `x` padded as its framing plan says, with `zero` for silence.
pub open spec fn padded_waveform<T>(x: Seq<T>, zero: T) -> Seq<T> {
    let p = framing_spec(x.len());
    if p.reflect {
        reflect_padded(x, p.pad_left as nat, p.pad_right as nat)
    } else {
        zero_padded(x, p.pad_left as nat, p.pad_right as nat, zero)
    }
}

/// Pads one waveform as its framing plan says and cuts it into analysis
/// windows of `WIN_SIZE` samples, `HOP_LENGTH` samples apart.
pub fn frame_waveform<T: Copy>(x: &[T], zero: T) -> (frames: Vec<Vec<T>>)
    requires
        x@.len() + (WIN_SIZE - HOP_LENGTH) <= i32::MAX,
    ensures
        frames@.len() == framing_spec(x@.len()).n_frames,
        forall|f: int|
            0 <= f < frames@.len() ==> #[trigger] frames@[f]@ == frame_of(
                padded_waveform(x@, zero),
                f,
                WIN_SIZE as nat,
                HOP_LENGTH as nat,
            ),
{
    let plan = plan_framing(x.len());
    proof {
        lemma_framing_consistent(x@.len());
    }
    let padded = if plan.reflect {
        reflect_pad(x, plan.pad_left, plan.pad_right)
    } else {
        pad_with(x, plan.pad_left, plan.pad_right, zero)
    };
    assert(padded@ == padded_waveform(x@, zero));
    frame_signal(padded.as_slice(), plan.n_frames, WIN_SIZE, HOP_LENGTH)
}

/// Pads and frames every waveform of a batch.
pub fn frame_waveforms<T: Copy>(batch: &Vec<Vec<T>>, zero: T) -> (frames: Vec<Vec<Vec<T>>>)
    requires
        forall|b: int| 0 <= b < batch@.len() ==> #[trigger] batch@[b]@.len() + (WIN_SIZE - HOP_LENGTH) <= i32::MAX,
    ensures
        frames@.len() == batch@.len(),
        forall|b: int|
            0 <= b < batch@.len() ==> (#[trigger] frames@[b])@.len() == framing_spec(batch@[b]@.len()).n_frames,
        forall|b: int, f: int|
            0 <= b < batch@.len() && 0 <= f < frames@[b]@.len() ==> #[trigger] frames@[b]@[f]@ == frame_of(
                padded_waveform(batch@[b]@, zero),
                f,
                WIN_SIZE as nat,
                HOP_LENGTH as nat,
            ),
{
    let mut out: Vec<Vec<Vec<T>>> = Vec::new();
    for b in 0..batch.len()
        invariant
            forall|c: int| 0 <= c < batch@.len() ==> #[trigger] batch@[c]@.len() + (WIN_SIZE - HOP_LENGTH) <= i32::MAX,
            out@.len() == b,
            forall|c: int|
                0 <= c < b ==> (#[trigger] out@[c])@.len() == framing_spec(batch@[c]@.len()).n_frames,
            forall|c: int, f: int|
                0 <= c < b && 0 <= f < out@[c]@.len() ==> #[trigger] out@[c]@[f]@ == frame_of(
                    padded_waveform(batch@[c]@, zero),
                    f,
                    WIN_SIZE as nat,
                    HOP_LENGTH as nat,
                ),
    {
        let row = frame_waveform(batch[b].as_slice(), zero);
        let ghost old_out = out@;
        out.push(row);
        assert forall|c: int| 0 <= c < b + 1 implies (#[trigger] out@[c])@.len() == framing_spec(batch@[c]@.len()).n_frames by {
            if c < b {
                assert(out@[c] == old_out[c]);
            }
        }
        assert forall|c: int, f: int|
            0 <= c < b + 1 && 0 <= f < out@[c]@.len() implies #[trigger] out@[c]@[f]@ == frame_of(
                padded_waveform(batch@[c]@, zero),
                f,
                WIN_SIZE as nat,
                HOP_LENGTH as nat,
            ) by {
            if c < b {
                assert(out@[c] == old_out[c]);
            }
        }
    }
    out
}

/// The frames of one spectrogram brought to `target` frames: the last frame
/// repeated once when there are fewer, the surplus dropped when there are more.
pub open spec fn fitted_frames<T>(frames: Seq<T>, target: nat) -> Seq<T> {
    if target > frames.len() {
        frames.push(frames.last())
    } else if target < frames.len() {
        frames.take(target as int)
    } else {
        frames
    }
}

/// Brings the frames of one spectrogram to `target` frames: one copy of the
/// last frame is appended when there are fewer, the surplus is dropped when
/// there are more.
pub fn fit_frame_count<T: Copy>(frames: Vec<Vec<T>>, target: usize) -> (out: Vec<Vec<T>>)
    requires
        frames@.len() > 0,
    ensures
        out@.len() == fitted_frames(frames@, target as nat).len(),
        forall|f: int| 0 <= f < out@.len() ==> (#[trigger] out@[f])@ == fitted_frames(frames@, target as nat)[f]@,
{
    let n = frames.len();
    if target > n {
        let last = copy_range(frames[n - 1].as_slice(), 0, frames[n - 1].len());
        assert(last@ =~= frames@[n - 1]@);
        let mut out = frames;
        let ghost before = out@;
        out.push(last);
        assert forall|f: int| 0 <= f < out@.len() implies (#[trigger] out@[f])@ == fitted_frames(before, target as nat)[f]@ by {
            if f < n {
                assert(out@[f] == before[f]);
            }
        }
        out
    } else if target < n {
        let mut out = frames;
        out.truncate(target);
        out
    } else {
        frames
    }
}

/// Once the frames cut from a waveform are brought to the plan's target,
/// the spectrogram has exactly one frame per hop of the waveform, plus one.
pub proof fn lemma_fitted_count<T>(t: nat, frames: Seq<T>)
    requires
        t + (WIN_SIZE - HOP_LENGTH) <= i32::MAX,
        frames.len() == framing_spec(t).n_frames,
    ensures
        fitted_frames(frames, framing_spec(t).target_frames as nat).len() == t / (HOP_LENGTH as nat) + 1,
{
    lemma_framing_consistent(t);
}

} // verus!
