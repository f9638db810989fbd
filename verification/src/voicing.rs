//! Filling the unvoiced frames of a pitch track. Each unvoiced frame is
//! interpolated between its nearest voiced neighbours: on the left the last
//! voiced frame before it, on the right the first voiced frame after it.
//! Before the first voiced frame both anchors are the first voiced frame;
//! after the last voiced frame both are the last voiced frame. Voiced frames
//! keep their value.
use vstd::prelude::*;

verus! {

/// Index of the last voiced frame among the first `n` frames, or -1 when
/// they are all unvoiced. `uv[i]` is true when frame `i` is unvoiced.
pub open spec fn last_voiced_before(uv: Seq<bool>, n: int) -> int
    decreases n,
{
    if n <= 0 {
        -1
    } else if !uv[n - 1] {
        n - 1
    } else {
        last_voiced_before(uv, n - 1)
    }
}

/// Index of the first voiced frame at or after frame `i`, or -1 when there is none.
pub open spec fn first_voiced_from(uv: Seq<bool>, i: int) -> int
    decreases uv.len() - i,
{
    if i >= uv.len() {
        -1
    } else if !uv[i] {
        i
    } else {
        first_voiced_from(uv, i + 1)
    }
}

/// The track has at least one voiced frame.
pub open spec fn has_voiced(uv: Seq<bool>) -> bool {
    last_voiced_before(uv, uv.len() as int) >= 0
}

/// Left anchor of frame `x`: the last voiced frame at or before `x`; else the
/// first voiced frame; else frame 0.
pub open spec fn left_anchor(uv: Seq<bool>, x: int) -> int {
    let before = last_voiced_before(uv, x + 1);
    if before >= 0 {
        before
    } else {
        let first = first_voiced_from(uv, 0);
        if first >= 0 { first } else { 0 }
    }
}

/// Right anchor of frame `x`: the first voiced frame at or after `x`; else
/// the last voiced frame; else the last frame.
pub open spec fn right_anchor(uv: Seq<bool>, x: int) -> int {
    let after = first_voiced_from(uv, x);
    if after >= 0 {
        after
    } else {
        let last = last_voiced_before(uv, uv.len() as int);
        if last >= 0 { last } else { uv.len() - 1 }
    }
}

proof fn lemma_last_voiced_bounds(uv: Seq<bool>, n: int)
    requires
        0 <= n <= uv.len(),
    ensures
        -1 <= last_voiced_before(uv, n) < n,
        last_voiced_before(uv, n) >= 0 ==> !uv[last_voiced_before(uv, n)],
        forall|y: int| last_voiced_before(uv, n) < y < n ==> uv[y],
    decreases n,
{
    if n > 0 {
        lemma_last_voiced_bounds(uv, n - 1);
    }
}

proof fn lemma_last_voiced_monotone(uv: Seq<bool>, a: int, b: int)
    requires
        0 <= a <= b <= uv.len(),
    ensures
        last_voiced_before(uv, a) <= last_voiced_before(uv, b),
    decreases b - a,
{
    if a < b {
        lemma_last_voiced_monotone(uv, a, b - 1);
        lemma_last_voiced_bounds(uv, b - 1);
    }
}

proof fn lemma_first_voiced_bounds(uv: Seq<bool>, i: int)
    requires
        0 <= i <= uv.len(),
    ensures
        first_voiced_from(uv, i) == -1 || (i <= first_voiced_from(uv, i) < uv.len() && !uv[first_voiced_from(uv, i)]),
        forall|y: int| i <= y < uv.len() && (first_voiced_from(uv, i) == -1 || y < first_voiced_from(uv, i)) ==> uv[y],
    decreases uv.len() - i,
{
    if i < uv.len() {
        lemma_first_voiced_bounds(uv, i + 1);
    }
}

proof fn lemma_first_voiced_skip(uv: Seq<bool>, i: int, j: int)
    requires
        0 <= i <= j <= uv.len(),
        forall|y: int| i <= y < j ==> uv[y],
    ensures
        first_voiced_from(uv, i) == first_voiced_from(uv, j),
    decreases j - i,
{
    if i < j {
        lemma_first_voiced_skip(uv, i + 1, j);
    }
}

/// Facts about the anchors of every frame: both lie in the track, the left
/// one never comes after the right one, both are voiced when the track has a
/// voiced frame, a voiced frame is its own anchor on both sides, and no
/// voiced frame lies strictly between an anchor and its frame.
pub proof fn lemma_anchors(uv: Seq<bool>, x: int)
    requires
        0 <= x < uv.len(),
    ensures
        0 <= left_anchor(uv, x) <= right_anchor(uv, x) < uv.len(),
        has_voiced(uv) ==> !uv[left_anchor(uv, x)] && !uv[right_anchor(uv, x)],
        last_voiced_before(uv, x + 1) >= 0 ==> left_anchor(uv, x) <= x,
        first_voiced_from(uv, x) >= 0 ==> x <= right_anchor(uv, x),
        forall|y: int| left_anchor(uv, x) < y < x ==> uv[y],
        forall|y: int| x < y < right_anchor(uv, x) ==> uv[y],
        !uv[x] ==> left_anchor(uv, x) == x && right_anchor(uv, x) == x,
{
    let n = uv.len() as int;
    lemma_last_voiced_bounds(uv, x + 1);
    lemma_last_voiced_bounds(uv, n);
    lemma_last_voiced_monotone(uv, x + 1, n);
    lemma_first_voiced_bounds(uv, 0);
    lemma_first_voiced_bounds(uv, x);
    let before = last_voiced_before(uv, x + 1);
    let after = first_voiced_from(uv, x);
    let first = first_voiced_from(uv, 0);
    let last = last_voiced_before(uv, n);
    if before < 0 {
        lemma_first_voiced_skip(uv, 0, x);
        assert(first == after);
    }
    if after < 0 && last >= 0 {
        assert(last < x);
    }
    if last >= 0 {
        assert(first != -1);
        assert(first <= last);
    } else if first >= 0 {
        assert(uv[first]);
    }
}

/// The anchors `(left, right)` of every frame of a track.
pub fn voicing_anchors(uv: &[bool]) -> (anchors: Vec<(usize, usize)>)
    ensures
        anchors@.len() == uv@.len(),
        forall|x: int|
            0 <= x < uv@.len() ==> (#[trigger] anchors@[x]).0 == left_anchor(uv@, x) && anchors@[x].1
                == right_anchor(uv@, x),
{
    let n = uv.len();
    let mut first: usize = 0;
    while first < n && uv[first]
        invariant
            first <= n == uv@.len(),
            first_voiced_from(uv@, 0) == first_voiced_from(uv@, first as int),
        decreases n - first,
    {
        first = first + 1;
    }
    let has_first = first < n;
    let mut last: usize = n;
    let mut found_last = false;
    while last > 0 && !found_last
        invariant
            last <= n == uv@.len(),
            !found_last ==> last_voiced_before(uv@, n as int) == last_voiced_before(uv@, last as int),
            found_last ==> last < n && last_voiced_before(uv@, n as int) == last,
        decreases last + (if found_last { 0int } else { 1int }),
    {
        if !uv[last - 1] {
            last = last - 1;
            found_last = true;
        } else {
            last = last - 1;
        }
    }
    let fallback: usize = if found_last { last } else if n > 0 { n - 1 } else { 0 };
    let mut rights: Vec<usize> = Vec::new();
    for x in 0..n
        invariant
            rights@.len() == x,
    {
        rights.push(0);
    }
    let mut i: usize = n;
    let mut next: usize = 0;
    let mut found_next = false;
    while i > 0
        invariant
            i <= n == uv@.len() == rights@.len(),
            found_last ==> last_voiced_before(uv@, n as int) == last,
            !found_last ==> last_voiced_before(uv@, n as int) == -1,
            found_last ==> fallback == last,
            !found_last && n > 0 ==> fallback == n - 1,
            found_next ==> first_voiced_from(uv@, i as int) == next,
            !found_next ==> first_voiced_from(uv@, i as int) == -1,
            forall|y: int| i <= y < n ==> #[trigger] rights@[y] == right_anchor(uv@, y),
        decreases i,
    {
        let x = i - 1;
        if !uv[x] {
            next = x;
            found_next = true;
        }
        let r: usize = if found_next { next } else { fallback };
        let ghost old_rights = rights@;
        rights.set(x, r);
        assert forall|y: int| x <= y < n implies #[trigger] rights@[y] == right_anchor(uv@, y) by {
            if y > x {
                assert(rights@[y] == old_rights[y]);
            }
        }
        i = x;
    }
    let mut anchors: Vec<(usize, usize)> = Vec::new();
    let mut cur: usize = 0;
    let mut seen = false;
    for x in 0..n
        invariant
            n == uv@.len() == rights@.len(),
            has_first <==> first_voiced_from(uv@, 0) >= 0,
            has_first ==> first_voiced_from(uv@, 0) == first,
            forall|y: int| 0 <= y < n ==> #[trigger] rights@[y] == right_anchor(uv@, y),
            seen ==> last_voiced_before(uv@, x as int) == cur,
            !seen ==> last_voiced_before(uv@, x as int) == -1,
            anchors@.len() == x,
            forall|y: int|
                0 <= y < x ==> (#[trigger] anchors@[y]).0 == left_anchor(uv@, y) && anchors@[y].1
                    == right_anchor(uv@, y),
    {
        if !uv[x] {
            cur = x;
            seen = true;
        }
        let left: usize = if seen { cur } else if has_first { first } else { 0 };
        let ghost old_anchors = anchors@;
        anchors.push((left, rights[x]));
        assert forall|y: int|
            0 <= y < x + 1 implies (#[trigger] anchors@[y]).0 == left_anchor(uv@, y) && anchors@[y].1
                == right_anchor(uv@, y) by {
            if y < x {
                assert(anchors@[y] == old_anchors[y]);
            }
        }
    }
    anchors
}

/// The track `f0` with every unvoiced frame `x` replaced by what `lerp`
/// returns for the values at its anchors, the frame index and the two
/// anchor indices; voiced frames keep their value.
pub fn fill_unvoiced<T: Copy, F: Fn(T, T, usize, usize, usize) -> T>(f0: &[T], uv: &[bool], lerp: F) -> (out: Vec<T>)
    requires
        f0@.len() == uv@.len(),
        forall|a: T, b: T, x: usize, l: usize, r: usize| #[trigger] lerp.requires((a, b, x, l, r)),
    ensures
        out@.len() == f0@.len(),
        forall|x: int| 0 <= x < f0@.len() && !uv@[x] ==> #[trigger] out@[x] == f0@[x],
        forall|x: int|
            0 <= x < f0@.len() && uv@[x] ==> lerp.ensures(
                (
                    f0@[left_anchor(uv@, x)],
                    f0@[right_anchor(uv@, x)],
                    x as usize,
                    left_anchor(uv@, x) as usize,
                    right_anchor(uv@, x) as usize,
                ),
                #[trigger] out@[x],
            ),
{
    let anchors = voicing_anchors(uv);
    let n = f0.len();
    let mut out: Vec<T> = Vec::new();
    for x in 0..n
        invariant
            n == f0@.len() == uv@.len() == anchors@.len(),
            forall|y: int|
                0 <= y < uv@.len() ==> (#[trigger] anchors@[y]).0 == left_anchor(uv@, y) && anchors@[y].1
                    == right_anchor(uv@, y),
            forall|a: T, b: T, x: usize, l: usize, r: usize| #[trigger] lerp.requires((a, b, x, l, r)),
            out@.len() == x,
            forall|y: int| 0 <= y < x && !uv@[y] ==> #[trigger] out@[y] == f0@[y],
            forall|y: int|
                0 <= y < x && uv@[y] ==> lerp.ensures(
                    (
                        f0@[left_anchor(uv@, y)],
                        f0@[right_anchor(uv@, y)],
                        y as usize,
                        left_anchor(uv@, y) as usize,
                        right_anchor(uv@, y) as usize,
                    ),
                    #[trigger] out@[y],
                ),
    {
        proof {
            lemma_anchors(uv@, x as int);
        }
        let ghost old_out = out@;
        if uv[x] {
            let (l, r) = anchors[x];
            let v = lerp(f0[l], f0[r], x, l, r);
            out.push(v);
        } else {
            out.push(f0[x]);
        }
        assert forall|y: int| 0 <= y < x + 1 && !uv@[y] implies #[trigger] out@[y] == f0@[y] by {
            if y < x {
                assert(out@[y] == old_out[y]);
            }
        }
        assert forall|y: int|
            0 <= y < x + 1 && uv@[y] implies lerp.ensures(
                (
                    f0@[left_anchor(uv@, y)],
                    f0@[right_anchor(uv@, y)],
                    y as usize,
                    left_anchor(uv@, y) as usize,
                    right_anchor(uv@, y) as usize,
                ),
                #[trigger] out@[y],
            ) by {
            if y < x {
                assert(out@[y] == old_out[y]);
            }
        }
    }
    out
}

} // verus!
