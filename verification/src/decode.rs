//! Decoding of the network's per-frame pitch salience: the choice of decoder
//! by name, and the window of pitch bins around the most salient bin over
//! which the local weighted average of cents is taken.
use vstd::prelude::*;

verus! {

/// Bins in the local window around the most salient bin.
pub const LOCAL_WINDOW: usize = 9;

/// Bins of the window before the most salient bin.
pub const WINDOW_OFFSET: usize = 4;

/// The ways the salience can be turned into cents.
#[derive(Clone, Copy, Debug, PartialEq, Eq)]
pub enum DecoderMode {
    /// Weighted average of the cents of the bins around the most salient one.
    LocalArgmax,
}

/// `i` brought into the bins `0 ..= out_dims - 1`.
pub open spec fn clamp_bin(i: int, out_dims: int) -> int {
    let low = if i < 0 { 0 } else { i };
    if low > out_dims - 1 { out_dims - 1 } else { low }
}

/// Bin `k` of the local window around bin `max_index`.
pub open spec fn window_bin(max_index: int, out_dims: int, k: int) -> int {
    clamp_bin(max_index + k - WINDOW_OFFSET, out_dims)
}

/// The `LOCAL_WINDOW` bins around `max_index`, from `max_index - 4` to
/// `max_index + 4`, each brought into the bins `0 ..= out_dims - 1`.
pub fn local_window(max_index: usize, out_dims: usize) -> (w: Vec<usize>)
    requires
        out_dims > 0,
        max_index + LOCAL_WINDOW <= usize::MAX,
    ensures
        w@.len() == LOCAL_WINDOW,
        forall|k: int| 0 <= k < LOCAL_WINDOW ==> #[trigger] w@[k] == window_bin(max_index as int, out_dims as int, k),
{
    let mut w: Vec<usize> = Vec::new();
    for k in 0..LOCAL_WINDOW
        invariant
            out_dims > 0,
            max_index + LOCAL_WINDOW <= usize::MAX,
            w@.len() == k,
            forall|j: int| 0 <= j < k ==> #[trigger] w@[j] == window_bin(max_index as int, out_dims as int, j),
    {
        let shifted = max_index + k;
        let low: usize = if shifted < WINDOW_OFFSET { 0 } else { shifted - WINDOW_OFFSET };
        let bin: usize = if low > out_dims - 1 { out_dims - 1 } else { low };
        let ghost old_w = w@;
        w.push(bin);
        assert forall|j: int| 0 <= j < k + 1 implies #[trigger] w@[j] == window_bin(max_index as int, out_dims as int, j) by {
            if j < k {
                assert(w@[j] == old_w[j]);
            }
        }
    }
    w
}

/// The local window stays among the bins, never goes down, moves up by at
/// most one bin at a time, holds the most salient bin at its centre, and is
/// exactly `max_index - 4 ..= max_index + 4` away from the ends of the bins.
pub proof fn lemma_window_shape(max_index: int, out_dims: int, k: int)
    requires
        out_dims > 0,
        0 <= max_index < out_dims,
        0 <= k < LOCAL_WINDOW,
    ensures
        0 <= window_bin(max_index, out_dims, k) < out_dims,
        k + 1 < LOCAL_WINDOW ==> window_bin(max_index, out_dims, k) <= window_bin(max_index, out_dims, k + 1)
            <= window_bin(max_index, out_dims, k) + 1,
        window_bin(max_index, out_dims, WINDOW_OFFSET as int) == max_index,
        WINDOW_OFFSET <= max_index && max_index + WINDOW_OFFSET < out_dims ==> window_bin(max_index, out_dims, k)
            == max_index + k - WINDOW_OFFSET,
{
}

/// The decoder called `name`, if there is one by that name.
pub fn parse_decoder_mode(name: &str) -> (res: Option<DecoderMode>)
    ensures
        res is Some <==> name@ == "local_argmax"@,
        res matches Some(mode) ==> mode == DecoderMode::LocalArgmax,
{
    let expected = "local_argmax";
    proof {
        reveal_strlit("local_argmax");
    }
    let n = expected.unicode_len();
    if name.unicode_len() != n {
        return None;
    }
    for i in 0..n
        invariant
            n == expected@.len() == name@.len(),
            expected@ == "local_argmax"@,
            forall|j: int| 0 <= j < i ==> name@[j] == expected@[j],
    {
        if name.get_char(i) != expected.get_char(i) {
            return None;
        }
    }
    assert(name@ =~= expected@);
    Some(DecoderMode::LocalArgmax)
}

} // verus!
