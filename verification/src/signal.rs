//! Sample-level operations on one-dimensional signals, for any sample type:
//! constant and reflect padding, copies of a range, and cutting a signal
//! into overlapping frames.
use vstd::prelude::*;

verus! {

/// `x` framed by `left` and `right` copies of `zero`.
pub open spec fn zero_padded<T>(x: Seq<T>, left: nat, right: nat, zero: T) -> Seq<T> {
    Seq::new(left, |i: int| zero) + x + Seq::new(right, |i: int| zero)
}

/// `x` reflected at both ends without repeating the edge samples: before it
/// `x[left], ..., x[1]`, after it `x[len - 2], ..., x[len - 1 - right]`; that
/// is `x[1..left + 1]` reversed, then `x`, then `x[len - 1 - right..len - 1]`
/// reversed.
pub open spec fn reflect_padded<T>(x: Seq<T>, left: nat, right: nat) -> Seq<T> {
    Seq::new(left, |i: int| x[left - i]) + x + Seq::new(right, |i: int| x[x.len() - 2 - i])
}

/// Frame `f` of `x`: the `win` samples that start at `f * hop`.
pub open spec fn frame_of<T>(x: Seq<T>, f: int, win: nat, hop: nat) -> Seq<T> {
    x.subrange(f * hop, f * hop + win)
}

/// A copy of `x[from..to]`.
pub fn copy_range<T: Copy>(x: &[T], from: usize, to: usize) -> (out: Vec<T>)
    requires
        from <= to <= x@.len(),
    ensures
        out@ == x@.subrange(from as int, to as int),
{
    let mut out: Vec<T> = Vec::new();
    let mut i = from;
    while i < to
        invariant
            from <= i <= to <= x@.len(),
            out@ == x@.subrange(from as int, i as int),
        decreases to - i,
    {
        out.push(x[i]);
        i = i + 1;
        assert(out@ =~= x@.subrange(from as int, i as int));
    }
    out
}

/// `input` framed by `left` and `right` copies of `zero`.
pub fn pad_with<T: Copy>(input: &[T], left: usize, right: usize, zero: T) -> (out: Vec<T>)
    requires
        left + input@.len() + right <= usize::MAX,
    ensures
        out@ == zero_padded(input@, left as nat, right as nat, zero),
{
    let mut out: Vec<T> = Vec::new();
    for i in 0..left
        invariant
            out@ == Seq::new(i as nat, |j: int| zero),
    {
        out.push(zero);
        assert(out@ =~= Seq::new((i + 1) as nat, |j: int| zero));
    }
    let n = input.len();
    for i in 0..n
        invariant
            n == input@.len(),
            out@ == Seq::new(left as nat, |j: int| zero) + input@.subrange(0, i as int),
    {
        out.push(input[i]);
        assert(out@ =~= Seq::new(left as nat, |j: int| zero) + input@.subrange(0, i + 1));
    }
    assert(input@.subrange(0, n as int) =~= input@);
    let ghost base = out@;
    for i in 0..right
        invariant
            base == Seq::new(left as nat, |j: int| zero) + input@,
            out@ == base + Seq::new(i as nat, |j: int| zero),
    {
        out.push(zero);
        assert(out@ =~= base + Seq::new((i + 1) as nat, |j: int| zero));
    }
    out
}

/// `x` padded at both ends by reflection about its edge samples, which are
/// not repeated: `left` samples before it and `right` samples after it.
pub fn reflect_pad<T: Copy>(x: &[T], left: usize, right: usize) -> (out: Vec<T>)
    requires
        left == 0 || left < x@.len(),
        right == 0 || right < x@.len(),
        left + x@.len() + right <= usize::MAX,
    ensures
        out@ == reflect_padded(x@, left as nat, right as nat),
        out@.len() == left + x@.len() + right,
{
    let n = x.len();
    let ghost head = Seq::new(left as nat, |j: int| x@[left - j]);
    let ghost tail = Seq::new(right as nat, |j: int| x@[n - 2 - j]);
    let mut out: Vec<T> = Vec::new();
    for i in 0..left
        invariant
            n == x@.len(),
            left == 0 || left < n,
            head == Seq::new(left as nat, |j: int| x@[left - j]),
            out@ == head.subrange(0, i as int),
    {
        out.push(x[left - i]);
        assert(out@ =~= head.subrange(0, i + 1));
    }
    assert(head.subrange(0, left as int) =~= head);
    for i in 0..n
        invariant
            n == x@.len(),
            out@ == head + x@.subrange(0, i as int),
    {
        out.push(x[i]);
        assert(out@ =~= head + x@.subrange(0, i + 1));
    }
    assert(x@.subrange(0, n as int) =~= x@);
    for i in 0..right
        invariant
            n == x@.len(),
            right == 0 || right < n,
            tail == Seq::new(right as nat, |j: int| x@[n - 2 - j]),
            out@ == head + x@ + tail.subrange(0, i as int),
    {
        out.push(x[n - 2 - i]);
        assert(out@ =~= head + x@ + tail.subrange(0, i + 1));
    }
    assert(tail.subrange(0, right as int) =~= tail);
    out
}

/// Cuts `x` into `n_frames` frames of `win` samples, frame `f` starting at
/// sample `f * hop`.
pub fn frame_signal<T: Copy>(x: &[T], n_frames: usize, win: usize, hop: usize) -> (out: Vec<Vec<T>>)
    requires
        n_frames == 0 || (n_frames - 1) * hop + win <= x@.len(),
    ensures
        out@.len() == n_frames,
        forall|f: int| 0 <= f < n_frames ==> #[trigger] out@[f]@ == frame_of(x@, f, win as nat, hop as nat),
{
    let len = x.len();
    let mut out: Vec<Vec<T>> = Vec::new();
    for f in 0..n_frames
        invariant
            len == x@.len(),
            n_frames == 0 || (n_frames - 1) * hop + win <= x@.len(),
            out@.len() == f,
            forall|g: int| 0 <= g < f ==> #[trigger] out@[g]@ == frame_of(x@, g, win as nat, hop as nat),
    {
        assert(n_frames > 0);
        assert((n_frames - 1) * hop + win <= x@.len());
        assert(f * hop <= (n_frames - 1) * hop) by (nonlinear_arith)
            requires
                f <= n_frames - 1,
        ;
        let start = f * hop;
        let frame = copy_range(x, start, start + win);
        let ghost old_out = out@;
        out.push(frame);
        assert forall|g: int| 0 <= g < f + 1 implies #[trigger] out@[g]@ == frame_of(x@, g, win as nat, hop as nat) by {
            if g < f {
                assert(out@[g] == old_out[g]);
            }
        }
    }
    out
}

} // verus!
