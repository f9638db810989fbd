//! Threadgroup sizing for the GPU resampling kernel: every thread of a group
//! reads its own filter window from a window of input held in threadgroup
//! memory, which must stay within 32 KiB.
use vstd::prelude::*;
use vstd::arithmetic::div_mod::lemma_fundamental_div_mod;

verus! {

/// Most threads in one threadgroup.
pub const MAX_THREADGROUP_SIZE: usize = 256;

/// Samples that fit in 32 KiB of threadgroup memory, at four bytes a sample.
pub const MAX_SHARED_SAMPLES: usize = 8192;

/// Bytes of one sample in threadgroup memory.
pub const SAMPLE_BYTES: usize = 4;

/// How a dispatch of the resampling kernel is laid out.
#[derive(Clone, Copy, Debug, PartialEq, Eq)]
pub struct ThreadgroupPlan {
    /// Threads per threadgroup.
    pub tg_size: usize,
    /// Input samples a threadgroup keeps in threadgroup memory.
    pub shared_len: usize,
    /// Bytes of threadgroup memory that hold them.
    pub shared_mem_bytes: u64,
}

/// Threads per group: as many as let `shared_len` stay within
/// `MAX_SHARED_SAMPLES`, at least one, at most `MAX_THREADGROUP_SIZE`.
pub open spec fn tg_size_spec(kernel_len: nat, orig_freq: nat) -> nat {
    let fit = ((MAX_SHARED_SAMPLES - kernel_len) as nat) / orig_freq + 1;
    let at_least_one = if fit >= 1 { fit } else { 1 };
    if at_least_one <= MAX_THREADGROUP_SIZE { at_least_one } else { MAX_THREADGROUP_SIZE as nat }
}

/// Sizes the threadgroups for a filter of `kernel_len` taps that advances
/// `orig_freq` input samples from one thread to the next.
pub fn plan_threadgroup(kernel_len: usize, orig_freq: usize) -> (res: ThreadgroupPlan)
    requires
        kernel_len <= MAX_SHARED_SAMPLES,
        orig_freq > 0,
    ensures
        res.tg_size == tg_size_spec(kernel_len as nat, orig_freq as nat),
        res.shared_len == (res.tg_size - 1) * orig_freq + kernel_len,
        res.shared_mem_bytes == res.shared_len * SAMPLE_BYTES,
        1 <= res.tg_size <= MAX_THREADGROUP_SIZE,
        res.shared_len <= MAX_SHARED_SAMPLES,
        res.shared_mem_bytes <= MAX_SHARED_SAMPLES * SAMPLE_BYTES,
{
    let fit = (MAX_SHARED_SAMPLES - kernel_len) / orig_freq + 1;
    let at_least_one = if fit >= 1 { fit } else { 1 };
    let tg_size = if at_least_one <= MAX_THREADGROUP_SIZE { at_least_one } else { MAX_THREADGROUP_SIZE };
    proof {
        lemma_shared_window_fits(kernel_len as nat, orig_freq as nat);
    }
    let shared_len = (tg_size - 1) * orig_freq + kernel_len;
    let shared_mem_bytes = (shared_len * SAMPLE_BYTES) as u64;
    ThreadgroupPlan { tg_size, shared_len, shared_mem_bytes }
}

/// The input window of a threadgroup, `(tg_size - 1) * orig_freq + kernel_len`
/// samples, never exceeds the threadgroup memory.
pub proof fn lemma_shared_window_fits(kernel_len: nat, orig_freq: nat)
    requires
        kernel_len <= MAX_SHARED_SAMPLES,
        orig_freq > 0,
    ensures
        1 <= tg_size_spec(kernel_len, orig_freq) <= MAX_THREADGROUP_SIZE,
        (tg_size_spec(kernel_len, orig_freq) - 1) * orig_freq + kernel_len <= MAX_SHARED_SAMPLES,
{
    let room = (MAX_SHARED_SAMPLES - kernel_len) as nat;
    let q = room / orig_freq;
    lemma_fundamental_div_mod(room as int, orig_freq as int);
    let t = tg_size_spec(kernel_len, orig_freq);
    assert(t - 1 <= q);
    assert((t - 1) * orig_freq <= q * orig_freq) by (nonlinear_arith)
        requires
            0 <= t - 1 <= q,
            orig_freq > 0,
    ;
    assert(q * orig_freq <= room) by (nonlinear_arith)
        requires
            room == orig_freq * q + room % orig_freq,
            room % orig_freq >= 0,
    ;
}

/// What a threadgroup's outputs read fits in its threadgroup memory: for at
/// most `tg_size` consecutive output samples from `first` on, the windows
/// they read, from the first window's start to the last window's end, span
/// at most `shared_len` input samples.
pub proof fn lemma_group_reads_fit(kernel_len: nat, orig_freq: nat, new_freq: nat, first: nat, count: nat)
    requires
        kernel_len <= MAX_SHARED_SAMPLES,
        orig_freq > 0,
        new_freq > 0,
        1 <= count <= tg_size_spec(kernel_len, orig_freq),
    ensures
        (((first + count - 1) as nat) / new_freq - first / new_freq) * orig_freq + kernel_len
            <= (tg_size_spec(kernel_len, orig_freq) - 1) * orig_freq + kernel_len,
        (tg_size_spec(kernel_len, orig_freq) - 1) * orig_freq + kernel_len <= MAX_SHARED_SAMPLES,
{
    lemma_shared_window_fits(kernel_len, orig_freq);
    let a = (first + count - 1) as int;
    let b = first as int;
    let n = new_freq as int;
    lemma_fundamental_div_mod(a, n);
    lemma_fundamental_div_mod(b, n);
    let d = a - b;
    assert(a / n - b / n <= d) by (nonlinear_arith)
        requires
            a == n * (a / n) + a % n,
            b == n * (b / n) + b % n,
            0 <= a % n < n,
            0 <= b % n < n,
            d == a - b,
            d >= 0,
            n >= 1,
    ;
    assert(a / n >= b / n) by (nonlinear_arith)
        requires
            a == n * (a / n) + a % n,
            b == n * (b / n) + b % n,
            0 <= a % n < n,
            0 <= b % n < n,
            a >= b,
            n >= 1,
    ;
    let t = tg_size_spec(kernel_len, orig_freq) as int;
    assert((a / n - b / n) * orig_freq <= (t - 1) * orig_freq) by (nonlinear_arith)
        requires
            0 <= a / n - b / n <= d,
            d == count - 1,
            count <= t,
            orig_freq > 0,
    ;
}

} // verus!
