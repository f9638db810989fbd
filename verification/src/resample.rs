//! Planning of the windowed-sinc polyphase resampler: the reduced rate ratio,
//! the filter width, the zero padding around the input, the number of
//! filter positions and the number of output samples, and the assembly of
//! the output from one filter evaluation per output sample.
use vstd::prelude::*;
use vstd::slice::slice_subrange;
use crate::rates::{gcd, gcd_of, lemma_gcd_divides, lemma_reduced_coprime, lemma_gcd_scale};
use crate::signal::{zero_padded, pad_with};
use vstd::arithmetic::div_mod::lemma_fundamental_div_mod;

verus! {

/// Half-width, in input samples, of the low-pass filter: the ceiling of
/// `128 * orig / (0.99 * min(orig, new))`, the roll-off 0.99 taken as the
/// exact ratio 99/100.
pub open spec fn filter_width(orig: nat, new: nat) -> nat {
    let m = if orig <= new { orig } else { new };
    ((12800 * orig + 99 * m - 1) as nat) / (99 * m)
}

/// Ceiling of `a / b`.
pub open spec fn ceil_div(a: nat, b: nat) -> nat {
    ((a + b - 1) as nat) / b
}

/// Everything the resampler derives from the input length and the two rates.
#[derive(Clone, Copy, Debug, PartialEq, Eq)]
pub struct ResamplePlan {
    /// Input rate divided by the greatest common divisor of the two rates.
    pub orig_freq: usize,
    /// Output rate divided by the greatest common divisor of the two rates.
    pub new_freq: usize,
    /// Filter half-width in input samples.
    pub width: usize,
    /// Taps per filter phase: `2 * width + orig_freq`.
    pub kernel_len: usize,
    /// Zeros put before the input.
    pub pad_left: usize,
    /// Zeros put after the input.
    pub pad_right: usize,
    /// Length of the zero-padded input.
    pub padded_len: usize,
    /// Number of filter positions, one every `orig_freq` padded samples.
    pub output_len: usize,
    /// Number of output samples: the ceiling of `new_freq * input_len / orig_freq`.
    pub target_len: usize,
}

/// The plan for `input_len` samples taken at `input_sr` and resampled to `output_sr`.
pub open spec fn plan_spec(input_len: nat, input_sr: nat, output_sr: nat) -> ResamplePlan {
    let g = gcd_of(input_sr, output_sr);
    let orig = input_sr / g;
    let new = output_sr / g;
    let width = filter_width(orig, new);
    let kernel_len = 2 * width + orig;
    let padded_len = input_len + width + (width + orig);
    ResamplePlan {
        orig_freq: orig as usize,
        new_freq: new as usize,
        width: width as usize,
        kernel_len: kernel_len as usize,
        pad_left: width as usize,
        pad_right: (width + orig) as usize,
        padded_len: padded_len as usize,
        output_len: (((padded_len - kernel_len) as nat) / orig + 1) as usize,
        target_len: ceil_div(new * input_len, orig) as usize,
    }
}

/// The machine limits the plan must respect: the filter length is computed in
/// `i32`, the padded length and the output length are `usize` counts.
pub open spec fn plan_fits(input_len: nat, input_sr: nat, output_sr: nat) -> bool {
    let g = gcd_of(input_sr, output_sr);
    let orig = input_sr / g;
    let new = output_sr / g;
    let width = filter_width(orig, new);
    input_sr == output_sr || {
        &&& 2 * width + orig <= i32::MAX
        &&& input_len + 2 * width + orig <= usize::MAX
        &&& new * (input_len / orig + 1) <= usize::MAX
    }
}

/// Two positive rates have a positive greatest common divisor, and dividing
/// either rate by it leaves a positive factor no larger than the rate.
proof fn lemma_reduced_positive(input_sr: nat, output_sr: nat)
    requires
        input_sr > 0,
        output_sr > 0,
    ensures
        gcd_of(input_sr, output_sr) > 0,
        input_sr / gcd_of(input_sr, output_sr) > 0,
        output_sr / gcd_of(input_sr, output_sr) > 0,
        input_sr / gcd_of(input_sr, output_sr) <= input_sr,
        output_sr / gcd_of(input_sr, output_sr) <= output_sr,
{
    let g = gcd_of(input_sr, output_sr);
    lemma_gcd_divides(input_sr, output_sr);
    lemma_fundamental_div_mod(input_sr as int, g as int);
    lemma_fundamental_div_mod(output_sr as int, g as int);
    let a = input_sr / g;
    let b = output_sr / g;
    assert(a > 0 && a <= input_sr) by (nonlinear_arith)
        requires
            input_sr == g * a,
            input_sr > 0,
            g > 0,
    ;
    assert(b > 0 && b <= output_sr) by (nonlinear_arith)
        requires
            output_sr == g * b,
            output_sr > 0,
            g > 0,
    ;
}

proof fn lemma_div_upper(x: nat, d: nat, y: nat)
    requires
        d > 0,
        x < d * (y + 1),
    ensures
        x / d <= y,
{
    lemma_fundamental_div_mod(x as int, d as int);
    assert(x / d <= y) by (nonlinear_arith)
        requires
            x == d * (x / d) + x % d,
            x % d >= 0,
            x < d * (y + 1),
            d > 0,
    ;
}

/// Every output sample has a filter position: the number of output samples
/// never exceeds `new_freq` times the number of filter positions.
pub proof fn lemma_target_within_positions(input_len: nat, orig: nat, new: nat)
    requires
        orig > 0,
    ensures
        ceil_div(new * input_len, orig) <= new * (input_len / orig + 1),
{
    let q = input_len / orig;
    let r = input_len % orig;
    lemma_fundamental_div_mod(input_len as int, orig as int);
    let x = new * input_len + orig - 1;
    assert(x < orig * (new * (q + 1) + 1)) by (nonlinear_arith)
        requires
            input_len == orig * q + r,
            r < orig,
            r >= 0,
            x == new * input_len + orig - 1,
            new >= 0,
            orig > 0,
    ;
    lemma_div_upper(x as nat, orig, new * (q + 1));
}

/// Computes the plan of the resampler, or `None` when the two rates are equal
/// and the input is used as it is.
pub fn plan_resample(input_len: usize, input_sr: usize, output_sr: usize) -> (res: Option<ResamplePlan>)
    requires
        input_sr == output_sr || (input_sr > 0 && output_sr > 0),
        plan_fits(input_len as nat, input_sr as nat, output_sr as nat),
    ensures
        input_sr == output_sr ==> res is None,
        input_sr != output_sr ==> res == Some(plan_spec(input_len as nat, input_sr as nat, output_sr as nat)),
{
    if input_sr == output_sr {
        return None;
    }
    let g = gcd(input_sr, output_sr);
    proof {
        lemma_reduced_positive(input_sr as nat, output_sr as nat);
    }
    let orig = input_sr / g;
    let new = output_sr / g;
    let m: usize = if orig <= new { orig } else { new };
    let num: u128 = 12800u128 * (orig as u128) + 99u128 * (m as u128) - 1;
    let den: u128 = 99u128 * (m as u128);
    let width = (num / den) as usize;
    let kernel_len = 2 * width + orig;
    let pad_left = width;
    let pad_right = width + orig;
    let padded_len = input_len + pad_left + pad_right;
    let output_len = (padded_len - kernel_len) / orig + 1;
    proof {
        lemma_target_within_positions(input_len as nat, orig as nat, new as nat);
        assert((padded_len - kernel_len) as nat == input_len as nat);
        assert(new * (input_len / orig + 1) <= usize::MAX);
    }
    assert((new as u128) * (input_len as u128) <= 0xffff_ffff_ffff_ffffu128 * 0xffff_ffff_ffff_ffffu128)
        by (nonlinear_arith)
        requires
            new <= 0xffff_ffff_ffff_ffffu128,
            input_len <= 0xffff_ffff_ffff_ffffu128,
    ;
    let tnum: u128 = (new as u128) * (input_len as u128) + (orig as u128) - 1;
    let target_len = (tnum / (orig as u128)) as usize;
    Some(ResamplePlan {
        orig_freq: orig,
        new_freq: new,
        width,
        kernel_len,
        pad_left,
        pad_right,
        padded_len,
        output_len,
        target_len,
    })
}

/// Whether the plan for these lengths and rates respects the machine limits
/// of `plan_fits`.
pub fn resample_in_range(input_len: usize, input_sr: usize, output_sr: usize) -> (ok: bool)
    requires
        input_sr == output_sr || (input_sr > 0 && output_sr > 0),
    ensures
        ok == plan_fits(input_len as nat, input_sr as nat, output_sr as nat),
{
    if input_sr == output_sr {
        return true;
    }
    let g = gcd(input_sr, output_sr);
    proof {
        lemma_reduced_positive(input_sr as nat, output_sr as nat);
    }
    let orig = input_sr / g;
    let new = output_sr / g;
    let m: usize = if orig <= new { orig } else { new };
    let num: u128 = 12800u128 * (orig as u128) + 99u128 * (m as u128) - 1;
    let den: u128 = 99u128 * (m as u128);
    let width: u128 = num / den;
    let kernel: u128 = 2 * width + orig as u128;
    if kernel > i32::MAX as u128 {
        return false;
    }
    if input_len as u128 + kernel > usize::MAX as u128 {
        return false;
    }
    let positions: u128 = (input_len / orig) as u128 + 1;
    assert((new as u128) * positions <= 0xffff_ffff_ffff_ffffu128 * 0x1_0000_0000_0000_0000u128)
        by (nonlinear_arith)
        requires
            new <= 0xffff_ffff_ffff_ffffu128,
            positions <= 0x1_0000_0000_0000_0000u128,
    ;
    (new as u128) * positions <= usize::MAX as u128
}

impl ResamplePlan {
    /// The relations that hold between the fields of every plan.
    pub open spec fn wf(self) -> bool {
        &&& self.orig_freq > 0
        &&& self.new_freq > 0
        &&& self.kernel_len == 2 * self.width + self.orig_freq
        &&& self.pad_left == self.width
        &&& self.pad_right == self.width + self.orig_freq
        &&& self.padded_len >= self.pad_left + self.pad_right
        &&& self.padded_len >= self.kernel_len
        &&& self.output_len == (self.padded_len - self.kernel_len) / (self.orig_freq as int) + 1
        &&& self.target_len <= self.new_freq * self.output_len
    }

    /// Number of input samples the plan was made for.
    pub open spec fn input_len(self) -> int {
        self.padded_len - self.pad_left - self.pad_right
    }

    /// First padded sample under the filter for output sample `k`.
    pub open spec fn tap_start(self, k: int) -> int {
        (k / (self.new_freq as int)) * self.orig_freq
    }

    /// Filter phase used for output sample `k`.
    pub open spec fn tap_phase(self, k: int) -> int {
        k % (self.new_freq as int)
    }
}

/// The plan of `plan_spec` is well formed: its rate factors are the reduced
/// rates, the padding adds exactly one filter length to the input
/// (`padded_len - kernel_len == input_len`), and there are enough filter
/// positions for every output sample.
pub proof fn lemma_plan_wf(input_len: nat, input_sr: nat, output_sr: nat)
    requires
        input_sr > 0,
        output_sr > 0,
        input_sr != output_sr,
        plan_fits(input_len, input_sr, output_sr),
    ensures
        plan_spec(input_len, input_sr, output_sr).orig_freq == input_sr / gcd_of(input_sr, output_sr),
        plan_spec(input_len, input_sr, output_sr).new_freq == output_sr / gcd_of(input_sr, output_sr),
        plan_spec(input_len, input_sr, output_sr).wf(),
        plan_spec(input_len, input_sr, output_sr).input_len() == input_len,
        plan_spec(input_len, input_sr, output_sr).padded_len - plan_spec(input_len, input_sr, output_sr).kernel_len == input_len,
{
    lemma_reduced_positive(input_sr, output_sr);
    let g = gcd_of(input_sr, output_sr);
    let orig = input_sr / g;
    let new = output_sr / g;
    lemma_target_within_positions(input_len, orig, new);
    let q = input_len / orig;
    assert(q <= input_len) by {
        lemma_fundamental_div_mod(input_len as int, orig as int);
        assert(q <= input_len) by (nonlinear_arith)
            requires
                input_len == orig * q + input_len % orig,
                input_len % orig >= 0,
                orig > 0,
                q >= 0,
        ;
    }
    assert(new <= new * (q + 1)) by (nonlinear_arith)
        requires
            q >= 0,
            new >= 0,
    ;
}

/// The plan's rate factors are the two rates with their greatest common
/// divisor taken out, so they have no common divisor left.
pub proof fn lemma_plan_rates_coprime(input_len: nat, input_sr: nat, output_sr: nat)
    requires
        input_sr > 0,
        output_sr > 0,
        input_sr != output_sr,
        plan_fits(input_len, input_sr, output_sr),
    ensures
        gcd_of(
            plan_spec(input_len, input_sr, output_sr).orig_freq as nat,
            plan_spec(input_len, input_sr, output_sr).new_freq as nat,
        ) == 1,
{
    lemma_plan_wf(input_len, input_sr, output_sr);
    lemma_reduced_coprime(input_sr, output_sr);
}

/// Only the ratio of the two rates matters: scaling both by the same factor
/// leaves the plan, and whether it fits, unchanged.
pub proof fn lemma_plan_scale_invariant(input_len: nat, input_sr: nat, output_sr: nat, c: nat)
    requires
        input_sr > 0,
        output_sr > 0,
        c > 0,
    ensures
        plan_spec(input_len, c * input_sr, c * output_sr) == plan_spec(input_len, input_sr, output_sr),
        plan_fits(input_len, c * input_sr, c * output_sr) == plan_fits(input_len, input_sr, output_sr),
{
    let g = gcd_of(input_sr, output_sr);
    lemma_gcd_scale(input_sr, output_sr, c);
    lemma_reduced_positive(input_sr, output_sr);
    lemma_gcd_divides(input_sr, output_sr);
    lemma_fundamental_div_mod(input_sr as int, g as int);
    lemma_fundamental_div_mod(output_sr as int, g as int);
    let a = input_sr / g;
    let b = output_sr / g;
    assert(c * input_sr == a * (c * g)) by (nonlinear_arith)
        requires
            input_sr == g * a,
    ;
    assert(c * output_sr == b * (c * g)) by (nonlinear_arith)
        requires
            output_sr == g * b,
    ;
    assert(c * g > 0) by (nonlinear_arith)
        requires
            c > 0,
            g > 0,
    ;
    vstd::arithmetic::div_mod::lemma_fundamental_div_mod_converse(
        (c * input_sr) as int,
        (c * g) as int,
        a as int,
        0,
    );
    vstd::arithmetic::div_mod::lemma_fundamental_div_mod_converse(
        (c * output_sr) as int,
        (c * g) as int,
        b as int,
        0,
    );
    assert(c * input_sr == c * output_sr <==> input_sr == output_sr) by (nonlinear_arith)
        requires
            c > 0,
    ;
}

/// Every output sample of a well-formed plan reads a whole filter window
/// inside the padded input, at a valid filter position and phase.
pub proof fn lemma_taps_in_bounds(p: ResamplePlan, k: int)
    requires
        p.wf(),
        0 <= k < p.target_len,
    ensures
        0 <= k / (p.new_freq as int) < p.output_len,
        0 <= p.tap_phase(k) < p.new_freq,
        0 <= p.tap_start(k),
        p.tap_start(k) + p.kernel_len <= p.padded_len,
{
    let n = p.new_freq as int;
    let o = p.orig_freq as int;
    let i = k / n;
    lemma_fundamental_div_mod(k, n);
    assert(0 <= i < p.output_len) by (nonlinear_arith)
        requires
            k == n * i + k % n,
            0 <= k % n < n,
            0 <= k < p.target_len,
            p.target_len <= n * p.output_len,
            n > 0,
    ;
    let d = p.padded_len - p.kernel_len;
    lemma_fundamental_div_mod(d, o);
    assert(i * o + p.kernel_len <= p.padded_len) by (nonlinear_arith)
        requires
            0 <= i <= p.output_len - 1,
            p.output_len == d / o + 1,
            d == o * (d / o) + d % o,
            d % o >= 0,
            d == p.padded_len - p.kernel_len,
            o > 0,
    ;
    assert(0 <= i * o) by (nonlinear_arith)
        requires
            0 <= i,
            o > 0,
    ;
}

/// The input with `p.pad_left` copies of `zero` before it and `p.pad_right` after it.
pub open spec fn padded_input<T>(input: Seq<T>, p: ResamplePlan, zero: T) -> Seq<T> {
    zero_padded(input, p.pad_left as nat, p.pad_right as nat, zero)
}

/// `x` delayed by `d` samples of `zero`.
pub open spec fn delayed<T>(x: Seq<T>, d: nat, zero: T) -> Seq<T> {
    Seq::new(d, |i: int| zero) + x
}

/// Delaying `x` by `orig_freq` samples of `zero` delays the output by
/// `new_freq` samples: the delayed input's plan keeps the filter and has
/// `new_freq` more output samples, and its output sample `k + new_freq` reads
/// the same window, with the same phase, as output sample `k` of `x`.
pub open spec fn delay_shifts_output<T>(x: Seq<T>, input_sr: nat, output_sr: nat, zero: T) -> bool {
    let p = plan_spec(x.len(), input_sr, output_sr);
    let z = delayed(x, p.orig_freq as nat, zero);
    let q = plan_spec(z.len(), input_sr, output_sr);
    &&& q.orig_freq == p.orig_freq
    &&& q.new_freq == p.new_freq
    &&& q.kernel_len == p.kernel_len
    &&& q.target_len == p.target_len + p.new_freq
    &&& forall|k: int|
        #![trigger p.tap_phase(k)]
        0 <= k < p.target_len ==> q.tap_phase(k + p.new_freq) == p.tap_phase(k)
            && padded_input(z, q, zero).subrange(
            q.tap_start(k + p.new_freq),
            q.tap_start(k + p.new_freq) + q.kernel_len,
        ) == padded_input(x, p, zero).subrange(p.tap_start(k), p.tap_start(k) + p.kernel_len)
}

/// Delaying the input by `orig_freq` zeros delays the output by `new_freq`
/// samples (see `delay_shifts_output`).
pub proof fn lemma_delay<T>(x: Seq<T>, input_sr: nat, output_sr: nat, zero: T)
    requires
        input_sr > 0,
        output_sr > 0,
        input_sr != output_sr,
        plan_fits(x.len(), input_sr, output_sr),
        plan_fits(x.len() + plan_spec(x.len(), input_sr, output_sr).orig_freq as nat, input_sr, output_sr),
    ensures
        delay_shifts_output(x, input_sr, output_sr, zero),
{
    let p = plan_spec(x.len(), input_sr, output_sr);
    let o = p.orig_freq as int;
    let n = p.new_freq as int;
    let z = delayed(x, p.orig_freq as nat, zero);
    let q = plan_spec(z.len(), input_sr, output_sr);
    lemma_plan_wf(x.len(), input_sr, output_sr);
    lemma_plan_wf(z.len(), input_sr, output_sr);
    let big = n * x.len() + o - 1;
    lemma_fundamental_div_mod(big, o);
    assert(big + n * o == (big / o + n) * o + big % o) by (nonlinear_arith)
        requires
            big == o * (big / o) + big % o,
    ;
    vstd::arithmetic::div_mod::lemma_fundamental_div_mod_converse(
        big + n * o,
        o,
        big / o + n,
        big % o,
    );
    assert(n * z.len() + o - 1 == big + n * o) by (nonlinear_arith)
        requires
            z.len() == x.len() + o,
            big == n * x.len() + o - 1,
    ;
    assert((big + n * o) / o == big / o + n);
    lemma_target_within_positions(x.len(), o as nat, n as nat);
    lemma_target_within_positions(z.len(), o as nat, n as nat);
    assert(ceil_div(n as nat * x.len(), o as nat) == big / o);
    assert(ceil_div(n as nat * z.len(), o as nat) == big / o + n);
    assert(p.target_len == big / o);
    assert(q.target_len == p.target_len + n);
    let pp = padded_input(x, p, zero);
    let qq = padded_input(z, q, zero);
    let w = p.pad_left as int;
    assert forall|k: int|
        #![trigger p.tap_phase(k)]
        0 <= k < p.target_len implies q.tap_phase(k + p.new_freq) == p.tap_phase(k)
            && padded_input(z, q, zero).subrange(
            q.tap_start(k + p.new_freq),
            q.tap_start(k + p.new_freq) + q.kernel_len,
        ) == padded_input(x, p, zero).subrange(p.tap_start(k), p.tap_start(k) + p.kernel_len) by {
        lemma_taps_in_bounds(p, k);
        lemma_fundamental_div_mod(k, n);
        assert(k + n == (k / n + 1) * n + k % n) by (nonlinear_arith)
            requires
                k == n * (k / n) + k % n,
        ;
        vstd::arithmetic::div_mod::lemma_fundamental_div_mod_converse(k + n, n, k / n + 1, k % n);
        let s = p.tap_start(k);
        assert(q.tap_start(k + n) == s + o) by (nonlinear_arith)
            requires
                q.tap_start(k + n) == ((k + n) / n) * o,
                s == (k / n) * o,
                (k + n) / n == k / n + 1,
        ;
        let a = qq.subrange(s + o, s + o + p.kernel_len);
        let b = pp.subrange(s, s + p.kernel_len);
        assert forall|j: int| 0 <= j < p.kernel_len implies a[j] == b[j] by {
            let t = s + j;
            if t < w {
            } else if t < w + x.len() {
                assert(qq[t + o] == z[t + o - w]);
                assert(z[t + o - w] == x[t - w]);
            } else {
            }
        }
        assert(a =~= b);
    }
    assert(q.orig_freq == p.orig_freq);
    assert(q.new_freq == p.new_freq);
    assert(q.kernel_len == p.kernel_len);
    assert(q.target_len == p.target_len + p.new_freq);
    assert(delay_shifts_output(x, input_sr, output_sr, zero));
}

/// `v` is what `dot` returns for some slice that holds `window`, with filter phase `phase`.
pub open spec fn computes_tap<T, F: Fn(&[T], usize) -> T>(dot: F, window: Seq<T>, phase: usize, v: T) -> bool {
    exists|w: &[T]| w@ == window && #[trigger] dot.ensures((w, phase), v)
}

/// `out` is what resampling `input` from `input_sr` to `output_sr` gives, with
/// `zero` as padding and `dot` as the filter: the input itself when the rates
/// are equal; otherwise, for a plan that fits the machine, `target_len`
/// samples, sample `k` being what `dot` makes of the `kernel_len` padded
/// samples from `tap_start(k)` on, with the phase `tap_phase(k)`.
pub open spec fn resampled<T, F: Fn(&[T], usize) -> T>(
    out: Seq<T>,
    input: Seq<T>,
    input_sr: nat,
    output_sr: nat,
    zero: T,
    dot: F,
) -> bool {
    if input_sr == output_sr {
        out == input
    } else {
        let p = plan_spec(input.len(), input_sr, output_sr);
        let padded = padded_input(input, p, zero);
        &&& plan_fits(input.len(), input_sr, output_sr)
        &&& out.len() == p.target_len
        &&& forall|k: int|
            0 <= k < p.target_len ==> #[trigger] computes_tap(
                dot,
                padded.subrange(p.tap_start(k), p.tap_start(k) + p.kernel_len),
                p.tap_phase(k) as usize,
                out[k],
            )
    }
}

/// For unequal rates, with `o` and `n` the two rates over their greatest
/// common divisor: a resampling has `ceil(n * len / o)` samples, and sample
/// `k` is what `dot` makes of the `2 * width + o` padded samples from
/// `(k / n) * o` on, with filter phase `k % n`. So the `n` samples of one
/// filter position use phases `0, 1, ..., n - 1` in order.
pub proof fn lemma_resampled_taps<T, F: Fn(&[T], usize) -> T>(
    out: Seq<T>,
    input: Seq<T>,
    input_sr: nat,
    output_sr: nat,
    zero: T,
    dot: F,
)
    requires
        input_sr > 0,
        output_sr > 0,
        input_sr != output_sr,
        resampled(out, input, input_sr, output_sr, zero, dot),
    ensures
        ({
            let o = input_sr / gcd_of(input_sr, output_sr);
            let n = output_sr / gcd_of(input_sr, output_sr);
            let w = filter_width(o, n);
            let padded = zero_padded(input, w, w + o, zero);
            &&& out.len() == (n * input.len() + o - 1) / (o as int)
            &&& forall|k: int|
                0 <= k < out.len() ==> #[trigger] computes_tap(
                    dot,
                    padded.subrange((k / n as int) * o, (k / n as int) * o + 2 * w + o),
                    (k % n as int) as usize,
                    out[k],
                )
        }),
{
    let p = plan_spec(input.len(), input_sr, output_sr);
    lemma_plan_wf(input.len(), input_sr, output_sr);
    lemma_reduced_positive(input_sr, output_sr);
    let o = input_sr / gcd_of(input_sr, output_sr);
    let n = output_sr / gcd_of(input_sr, output_sr);
    let w = filter_width(o, n);
    assert(p.width == w);
    lemma_target_within_positions(input.len(), o, n);
    assert(out.len() == p.target_len);
    assert(p.target_len == ceil_div(n * input.len(), o));
    assert(ceil_div(n * input.len(), o) == (n * input.len() + o - 1) / (o as int));
    assert forall|k: int| 0 <= k < out.len() implies #[trigger] computes_tap(
        dot,
        zero_padded(input, w, w + o, zero).subrange((k / n as int) * o, (k / n as int) * o + 2 * w + o),
        (k % n as int) as usize,
        out[k],
    ) by {
        assert(p.tap_start(k) == (k / n as int) * o);
        assert(p.tap_phase(k) == k % n as int);
        assert(computes_tap(
            dot,
            padded_input(input, p, zero).subrange(p.tap_start(k), p.tap_start(k) + p.kernel_len),
            p.tap_phase(k) as usize,
            out[k],
        ));
    }
}

/// `dot` gives one value for one window and phase, whatever slice holds the window.
pub open spec fn tap_is_function<T, F: Fn(&[T], usize) -> T>(dot: F) -> bool {
    forall|w1: &[T], w2: &[T], j: usize, v1: T, v2: T|
        w1@ == w2@ && #[trigger] dot.ensures((w1, j), v1) && #[trigger] dot.ensures((w2, j), v2)
            ==> v1 == v2
}

/// Two values that `dot` makes of one window with one phase are equal.
proof fn lemma_tap_unique<T, F: Fn(&[T], usize) -> T>(dot: F, window: Seq<T>, phase: usize, v1: T, v2: T)
    requires
        tap_is_function(dot),
        computes_tap(dot, window, phase, v1),
        computes_tap(dot, window, phase, v2),
    ensures
        v1 == v2,
{
    let w1 = choose|w: &[T]| w@ == window && #[trigger] dot.ensures((w, phase), v1);
    let w2 = choose|w: &[T]| w@ == window && #[trigger] dot.ensures((w, phase), v2);
    assert(dot.ensures((w1, phase), v1) && dot.ensures((w2, phase), v2));
}

/// With a filter whose value depends only on its window and phase, an input
/// has one resampling for each pair of rates.
pub proof fn lemma_resampled_unique<T, F: Fn(&[T], usize) -> T>(
    r1: Seq<T>,
    r2: Seq<T>,
    input: Seq<T>,
    input_sr: nat,
    output_sr: nat,
    zero: T,
    dot: F,
)
    requires
        tap_is_function(dot),
        resampled(r1, input, input_sr, output_sr, zero, dot),
        resampled(r2, input, input_sr, output_sr, zero, dot),
    ensures
        r1 == r2,
{
    if input_sr != output_sr {
        let p = plan_spec(input.len(), input_sr, output_sr);
        let padded = padded_input(input, p, zero);
        assert forall|k: int| 0 <= k < r1.len() implies r1[k] == r2[k] by {
            let window = padded.subrange(p.tap_start(k), p.tap_start(k) + p.kernel_len);
            assert(computes_tap(dot, window, p.tap_phase(k) as usize, r1[k]));
            assert(computes_tap(dot, window, p.tap_phase(k) as usize, r2[k]));
            lemma_tap_unique(dot, window, p.tap_phase(k) as usize, r1[k], r2[k]);
        }
        assert(r1 =~= r2);
    }
}

/// Only the ratio of the two rates matters: with a filter whose value depends
/// only on its window and phase, resampling from `c * input_sr` to
/// `c * output_sr` gives what resampling from `input_sr` to `output_sr` gives.
pub proof fn lemma_resampled_scale_invariant<T, F: Fn(&[T], usize) -> T>(
    scaled: Seq<T>,
    out: Seq<T>,
    input: Seq<T>,
    input_sr: nat,
    output_sr: nat,
    c: nat,
    zero: T,
    dot: F,
)
    requires
        input_sr > 0,
        output_sr > 0,
        c > 0,
        tap_is_function(dot),
        resampled(scaled, input, c * input_sr, c * output_sr, zero, dot),
        resampled(out, input, input_sr, output_sr, zero, dot),
    ensures
        scaled == out,
{
    lemma_plan_scale_invariant(input.len(), input_sr, output_sr, c);
    assert(c * input_sr == c * output_sr <==> input_sr == output_sr) by (nonlinear_arith)
        requires
            c > 0,
    ;
    assert(resampled(scaled, input, input_sr, output_sr, zero, dot));
    lemma_resampled_unique(scaled, out, input, input_sr, output_sr, zero, dot);
}

/// Putting `orig_freq` zeros (the input rate over the greatest common divisor
/// of the rates) before the input puts `new_freq` samples (the output rate
/// over that divisor) before its resampling: with a filter whose value depends
/// only on its window and phase, the resampling of the delayed input, past its
/// first `new_freq` samples, is the resampling of the input.
pub proof fn lemma_resampled_delay<T, F: Fn(&[T], usize) -> T>(
    delayed_out: Seq<T>,
    out: Seq<T>,
    input: Seq<T>,
    input_sr: nat,
    output_sr: nat,
    zero: T,
    dot: F,
)
    requires
        input_sr > 0,
        output_sr > 0,
        tap_is_function(dot),
        resampled(out, input, input_sr, output_sr, zero, dot),
        resampled(
            delayed_out,
            delayed(input, input_sr / gcd_of(input_sr, output_sr), zero),
            input_sr,
            output_sr,
            zero,
            dot,
        ),
    ensures
        input_sr != output_sr ==> delayed_out.len() == out.len() + output_sr / gcd_of(input_sr, output_sr),
        input_sr != output_sr ==> delayed_out.subrange(
            (output_sr / gcd_of(input_sr, output_sr)) as int,
            delayed_out.len() as int,
        ) == out,
{
    if input_sr != output_sr {
        let p = plan_spec(input.len(), input_sr, output_sr);
        lemma_plan_wf(input.len(), input_sr, output_sr);
        let o = p.orig_freq as nat;
        let n = p.new_freq as int;
        let z = delayed(input, o, zero);
        let q = plan_spec(z.len(), input_sr, output_sr);
        lemma_delay(input, input_sr, output_sr, zero);
        let tail = delayed_out.subrange(n, delayed_out.len() as int);
        assert forall|k: int| 0 <= k < out.len() implies tail[k] == out[k] by {
            assert(p.tap_phase(k) == p.tap_phase(k));
            let window = padded_input(input, p, zero).subrange(p.tap_start(k), p.tap_start(k) + p.kernel_len);
            assert(computes_tap(dot, window, p.tap_phase(k) as usize, out[k]));
            assert(computes_tap(
                dot,
                padded_input(z, q, zero).subrange(q.tap_start(k + n), q.tap_start(k + n) + q.kernel_len),
                q.tap_phase(k + n) as usize,
                delayed_out[k + n],
            ));
            lemma_tap_unique(dot, window, p.tap_phase(k) as usize, delayed_out[k + n], out[k]);
        }
        assert(tail =~= out);
    }
}

/// Resamples `input` from `input_sr` to `output_sr`. When the rates are equal
/// the input comes back unchanged. Otherwise the input is padded with `zero`
/// as the plan says, and output sample `k` is what `dot` makes of the
/// `kernel_len` padded samples starting at `(k / new_freq) * orig_freq`
/// together with the filter phase `k % new_freq`.
pub fn resample_with<T: Copy, F: Fn(&[T], usize) -> T>(
    input: &[T],
    input_sr: usize,
    output_sr: usize,
    zero: T,
    dot: F,
) -> (out: Vec<T>)
    requires
        input_sr == output_sr || (input_sr > 0 && output_sr > 0),
        plan_fits(input@.len(), input_sr as nat, output_sr as nat),
        forall|w: &[T], j: usize| #[trigger] dot.requires((w, j)),
    ensures
        resampled(out@, input@, input_sr as nat, output_sr as nat, zero, dot),
{
    let plan = plan_resample(input.len(), input_sr, output_sr);
    match plan {
        None => {
            let mut out: Vec<T> = Vec::new();
            let n = input.len();
            for i in 0..n
                invariant
                    n == input@.len(),
                    out@ == input@.subrange(0, i as int),
            {
                out.push(input[i]);
                assert(out@ =~= input@.subrange(0, i + 1));
            }
            assert(input@.subrange(0, n as int) =~= input@);
            out
        },
        Some(p) => {
            proof {
                lemma_plan_wf(input@.len(), input_sr as nat, output_sr as nat);
            }
            let padded = pad_with(input, p.pad_left, p.pad_right, zero);
            let ghost pad_seq = padded_input(input@, p, zero);
            assert(padded@ == pad_seq);
            let mut out: Vec<T> = Vec::new();
            for k in 0..p.target_len
                invariant
                    p == plan_spec(input@.len(), input_sr as nat, output_sr as nat),
                    p.wf(),
                    padded@ == pad_seq,
                    padded@.len() == p.padded_len,
                    forall|w: &[T], j: usize| #[trigger] dot.requires((w, j)),
                    out@.len() == k,
                    forall|m: int|
                        0 <= m < k ==> #[trigger] computes_tap(
                            dot,
                            pad_seq.subrange(p.tap_start(m), p.tap_start(m) + p.kernel_len),
                            p.tap_phase(m) as usize,
                            out@[m],
                        ),
            {
                proof {
                    lemma_taps_in_bounds(p, k as int);
                }
                let i = k / p.new_freq;
                let j = k % p.new_freq;
                let start = i * p.orig_freq;
                let window = slice_subrange(padded.as_slice(), start, start + p.kernel_len);
                let v = dot(window, j);
                let ghost old_out = out@;
                out.push(v);
                proof {
                    assert(window@ == pad_seq.subrange(p.tap_start(k as int), p.tap_start(k as int) + p.kernel_len));
                    assert(computes_tap(dot, window@, j, v));
                    assert forall|m: int| 0 <= m < k + 1 implies #[trigger] computes_tap(
                        dot,
                        pad_seq.subrange(p.tap_start(m), p.tap_start(m) + p.kernel_len),
                        p.tap_phase(m) as usize,
                        out@[m],
                    ) by {
                        if m < k {
                            assert(out@[m] == old_out[m]);
                        }
                    }
                }
            }
            out
        },
    }
}

} // verus!
