//! Reading the tensors of a checkpoint in the safetensors format: every
//! tensor the file holds, under its name, with its shape and its raw bytes.
use vstd::prelude::*;
use safetensors::{SafeTensors, SafeTensorError};
use vstd::arithmetic::power::pow;

verus! {

#[verifier::external_type_specification]
#[verifier::external_body]
pub struct ExSafeTensors<'data>(SafeTensors<'data>);

#[verifier::external_type_specification]
#[verifier::external_body]
pub struct ExSafeTensorError(SafeTensorError);

/// What a buffer decodes to as a safetensors file: nothing when it is not a
/// valid file, otherwise the shape and bytes of every tensor by name.
pub uninterp spec fn safetensors_decoded(buffer: Seq<u8>) -> Option<Map<Seq<char>, (Seq<usize>, Seq<u8>)>>;

/// The shape and bytes of every tensor of a parsed file, by name.
pub uninterp spec fn safetensors_tensors(file: SafeTensors) -> Map<Seq<char>, (Seq<usize>, Seq<u8>)>;

/// Value of the little-endian number whose bytes are `bytes`.
pub open spec fn le_value(bytes: Seq<u8>) -> nat
    decreases bytes.len(),
{
    if bytes.len() == 0 {
        0
    } else {
        bytes[0] as nat + 256 * le_value(bytes.drop_first())
    }
}

/// `c` is an ASCII decimal digit.
pub open spec fn is_ascii_digit(c: u8) -> bool {
    48 <= c <= 57
}

/// Where a reader of JSON text stands: outside any string, inside a
/// string, or inside a string right after a backslash.
#[derive(Clone, Copy, Debug, PartialEq, Eq)]
pub enum JsonScan {
    Outside,
    InString,
    Escaped,
}

/// The reader's position after reading byte `c` from position `s`.
pub open spec fn scan_step(s: JsonScan, c: u8) -> JsonScan {
    match s {
        JsonScan::Outside => if c == 34 { JsonScan::InString } else { JsonScan::Outside },
        JsonScan::InString => if c == 92 {
            JsonScan::Escaped
        } else if c == 34 {
            JsonScan::Outside
        } else {
            JsonScan::InString
        },
        JsonScan::Escaped => JsonScan::InString,
    }
}

/// Where the reader stands before byte `i` of `text`.
pub open spec fn scan_before(text: Seq<u8>, i: int) -> JsonScan
    decreases i,
{
    if i <= 0 {
        JsonScan::Outside
    } else {
        scan_step(scan_before(text, i - 1), text[i - 1])
    }
}

/// Value of the run of ASCII digits outside strings that ends with
/// `text[i]`, read from its first digit up to `text[i]`; zero when `text[i]`
/// is no digit or stands inside a string.
pub open spec fn digit_run_value(text: Seq<u8>, i: int) -> nat
    decreases i + 1,
{
    if i < 0 || i >= text.len() || !is_ascii_digit(text[i]) || scan_before(text, i) != JsonScan::Outside {
        0
    } else {
        digit_run_value(text, i - 1) * 10 + (text[i] - 48) as nat
    }
}

fn next_scan(s: JsonScan, c: u8) -> (t: JsonScan)
    ensures
        t == scan_step(s, c),
{
    match s {
        JsonScan::Outside => if c == 34 { JsonScan::InString } else { JsonScan::Outside },
        JsonScan::InString => if c == 92 {
            JsonScan::Escaped
        } else if c == 34 {
            JsonScan::Outside
        } else {
            JsonScan::InString
        },
        JsonScan::Escaped => JsonScan::InString,
    }
}

/// Length of the header that the first eight bytes of a safetensors buffer announce.
pub open spec fn header_len(buffer: Seq<u8>) -> nat {
    le_value(buffer.subrange(0, 8))
}

/// Largest header a safetensors file may announce.
pub const MAX_HEADER_LEN: u64 = 100_000_000;

/// Every number written in the header of `buffer` outside its strings (data
/// offsets, dimensions, and values of unknown fields) is small enough that,
/// taken as the end of the tensor data, it fits in a `usize` together with
/// the header's size and length field. Digits inside strings (names,
/// metadata) do not count. Buffers too short to hold the header they announce, or announcing
/// a header over `MAX_HEADER_LEN`, are refused before any offset is read and
/// count as fitting.
pub open spec fn header_numbers_fit(buffer: Seq<u8>) -> bool {
    let n = header_len(buffer);
    ||| buffer.len() < 8
    ||| n > MAX_HEADER_LEN
    ||| 8 + n > buffer.len()
    ||| forall|i: int|
        0 <= i < n ==> #[trigger] digit_run_value(buffer.subrange(8, 8 + n as int), i) + 8 + n <= usize::MAX
}

/// Whether `header_numbers_fit` holds of `buffer`.
pub fn check_header_numbers(buffer: &[u8]) -> (ok: bool)
    ensures
        ok == header_numbers_fit(buffer@),
{
    let len = buffer.len();
    if len < 8 {
        return true;
    }
    let b = buffer;
    let n: u64 = b[0] as u64 + 256 * (b[1] as u64 + 256 * (b[2] as u64 + 256 * (b[3] as u64 + 256 * (
    b[4] as u64 + 256 * (b[5] as u64 + 256 * (b[6] as u64 + 256 * (b[7] as u64))))))) ;
    proof {
        let h = buffer@.subrange(0, 8);
        reveal_with_fuel(le_value, 9);
        assert(h.drop_first() =~= buffer@.subrange(1, 8));
        assert(h.drop_first().drop_first() =~= buffer@.subrange(2, 8));
        assert(h.drop_first().drop_first().drop_first() =~= buffer@.subrange(3, 8));
        assert(h.drop_first().drop_first().drop_first().drop_first() =~= buffer@.subrange(4, 8));
        assert(buffer@.subrange(4, 8).drop_first() =~= buffer@.subrange(5, 8));
        assert(buffer@.subrange(5, 8).drop_first() =~= buffer@.subrange(6, 8));
        assert(buffer@.subrange(6, 8).drop_first() =~= buffer@.subrange(7, 8));
        assert(buffer@.subrange(7, 8).drop_first() =~= buffer@.subrange(8, 8));
        assert(header_len(buffer@) == n);
    }
    if n > MAX_HEADER_LEN {
        return true;
    }
    let n = n as usize;
    if n > len - 8 {
        return true;
    }
    let bound: usize = usize::MAX - 8 - n;
    assert(bound >= 9);
    let ghost text = buffer@.subrange(8, 8 + n as int);
    let mut cur: usize = 0;
    let mut state = JsonScan::Outside;
    for i in 0..n
        invariant
            state == scan_before(text, i as int),
            n == header_len(buffer@),
            8 + n <= len == buffer@.len(),
            bound == usize::MAX - 8 - n,
            bound >= 9,
            n <= MAX_HEADER_LEN,
            text == buffer@.subrange(8, 8 + n as int),
            cur == digit_run_value(text, i - 1),
            cur <= bound,
            forall|j: int| 0 <= j < i ==> #[trigger] digit_run_value(text, j) + 8 + n <= usize::MAX,
    {
        let c = buffer[8 + i];
        assert(text[i as int] == c);
        let outside = match state {
            JsonScan::Outside => true,
            _ => false,
        };
        if outside && 48 <= c && c <= 57 {
            let d = (c - 48) as usize;
            if cur > (bound - d) / 10 {
                assert(cur * 10 + d > bound) by (nonlinear_arith)
                    requires
                        cur > (bound - d) / 10,
                        bound >= d,
                ;
                assert(digit_run_value(text, i as int) == cur * 10 + d);
                assert(digit_run_value(text, i as int) + 8 + n > usize::MAX);
                assert(!header_numbers_fit(buffer@));
                return false;
            }
            assert(cur * 10 + d <= bound) by (nonlinear_arith)
                requires
                    cur <= (bound - d) / 10,
                    bound >= d,
            ;
            cur = cur * 10 + d;
        } else {
            cur = 0;
        }
        assert(cur == digit_run_value(text, i as int));
        state = next_scan(state, c);
    }
    true
}

/// Number of ASCII digits in a row that end with `text[i]`; zero when
/// `text[i]` is no digit.
pub open spec fn digits_ending_at(text: Seq<u8>, i: int) -> nat
    decreases i + 1,
{
    if i < 0 || i >= text.len() || !is_ascii_digit(text[i]) {
        0
    } else {
        1 + digits_ending_at(text, i - 1)
    }
}

/// A number of the header is read from its own digits alone: the value
/// checked at a byte is below ten to the power of the number of digits in a
/// row that end there. So it is zero at a byte that is no digit, and numbers
/// with a comma, bracket or any other byte between them are never run
/// together.
pub proof fn lemma_number_read_from_its_digits(text: Seq<u8>, i: int)
    ensures
        digit_run_value(text, i) < pow(10, digits_ending_at(text, i)),
        !(0 <= i < text.len() && is_ascii_digit(text[i])) ==> digit_run_value(text, i) == 0,
    decreases i + 1,
{
    reveal(pow);
    if i < 0 || i >= text.len() || !is_ascii_digit(text[i]) {
        assert(pow(10, 0) == 1);
    } else {
        lemma_number_read_from_its_digits(text, i - 1);
        let e = digits_ending_at(text, i - 1);
        assert(digits_ending_at(text, i) == e + 1);
        assert(pow(10, e + 1) == 10 * pow(10, e));
        if scan_before(text, i) == JsonScan::Outside {
            let v = digit_run_value(text, i - 1);
            assert(digit_run_value(text, i) == v * 10 + (text[i] - 48) as nat);
            assert(v * 10 + (text[i] - 48) < 10 * pow(10, e)) by (nonlinear_arith)
                requires
                    v < pow(10, e),
                    0 <= text[i] - 48 <= 9,
            ;
        } else {
            vstd::arithmetic::power::lemma_pow_positive(10, e + 1);
        }
    }
}

/// A header whose digits never stand more than `m` in a row passes the
/// check when every `m`-digit number is small enough to be the end of the
/// tensor data: `10^m - 1` plus the header's size and length field fits in a
/// `usize`. So a checkpoint whose header numbers are all short is never
/// refused as holding too large a number.
pub proof fn lemma_short_numbers_fit(buffer: Seq<u8>, m: nat)
    requires
        buffer.len() >= 8,
        8 + header_len(buffer) <= buffer.len(),
        forall|i: int|
            0 <= i < header_len(buffer) ==> #[trigger] digits_ending_at(
                buffer.subrange(8, 8 + header_len(buffer) as int),
                i,
            ) <= m,
        pow(10, m) - 1 + 8 + header_len(buffer) <= usize::MAX,
    ensures
        header_numbers_fit(buffer),
{
    let n = header_len(buffer);
    let text = buffer.subrange(8, 8 + n as int);
    assert forall|i: int| 0 <= i < n implies #[trigger] digit_run_value(text, i) + 8 + n <= usize::MAX by {
        lemma_number_read_from_its_digits(text, i);
        let e = digits_ending_at(text, i);
        assert(e <= m);
        vstd::arithmetic::power::lemma_pow_increases(10, e, m);
    }
}

/// One tensor of a checkpoint: its shape and its bytes as stored.
pub struct StoredTensor {
    pub shape: Vec<usize>,
    pub data: Vec<u8>,
}

/// One tensor of a checkpoint with its name.
pub struct NamedTensor {
    pub name: String,
    pub shape: Vec<usize>,
    pub data: Vec<u8>,
}

/// Why a checkpoint could not be read.
#[derive(Clone, Copy, Debug, PartialEq, Eq)]
pub enum CheckpointError {
    /// The buffer is not a valid safetensors file.
    Malformed,
    /// The header writes, outside its strings, a number too large to be the
    /// end of the tensor data in a buffer of this machine.
    NumberTooLarge,
}

/// Parses a safetensors buffer with `SafeTensors::deserialize`. Claimed: it
/// succeeds exactly on the buffers that decode, and the parsed file holds
/// what the buffer decodes to. Its `requires` leaves out the buffers whose
/// header writes, outside its strings, a number so large that
/// `read_metadata` could overflow adding the end of the tensor data (the
/// last data offset, a JSON number and so a run of digits outside strings)
/// to the header's size and length field, which panics where overflow
/// checks are on.
#[verifier::external_body]
fn parse_safetensors<'a>(buffer: &'a [u8]) -> (res: Result<SafeTensors<'a>, SafeTensorError>)
    requires
        header_numbers_fit(buffer@),
    ensures
        res is Ok <==> safetensors_decoded(buffer@) is Some,
        res matches Ok(file) ==> safetensors_tensors(file) == safetensors_decoded(buffer@).unwrap(),
{
    SafeTensors::deserialize(buffer)
}

/// The tensor names of a parsed file, from `SafeTensors::names`, each turned
/// into a `String`. Claimed: every name the file holds comes once, and
/// nothing else; the order, which follows a hash map, is left unsaid.
#[verifier::external_body]
fn tensor_names(file: &SafeTensors) -> (names: Vec<String>)
    ensures
        forall|i: int| 0 <= i < names@.len() ==> safetensors_tensors(*file).dom().contains(#[trigger] names@[i]@),
        forall|k: Seq<char>|
            #[trigger] safetensors_tensors(*file).dom().contains(k) ==> exists|i: int|
                0 <= i < names@.len() && #[trigger] names@[i]@ == k,
        forall|i: int, j: int| 0 <= i < j < names@.len() ==> #[trigger] names@[i]@ != #[trigger] names@[j]@,
{
    file.names().into_iter().map(|name| name.to_string()).collect()
}

/// One tensor of a parsed file, from `SafeTensors::tensor`, with the shape
/// and bytes of the returned view copied out by `TensorView::shape` and
/// `TensorView::data`. Claimed: it succeeds exactly for the names the file
/// holds, with the shape and bytes stored under that name.
#[verifier::external_body]
fn tensor_by_name(file: &SafeTensors, name: &str) -> (res: Result<StoredTensor, SafeTensorError>)
    ensures
        res is Ok <==> safetensors_tensors(*file).dom().contains(name@),
        res matches Ok(t) ==> (t.shape@, t.data@) == safetensors_tensors(*file)[name@],
{
    let view = file.tensor(name)?;
    Ok(StoredTensor { shape: view.shape().to_vec(), data: view.data().to_vec() })
}

/// `tensors` are the tensors of the decoded file `stored`: each comes once,
/// under its name, with its shape and bytes.
pub open spec fn holds_exactly(tensors: Seq<NamedTensor>, stored: Map<Seq<char>, (Seq<usize>, Seq<u8>)>) -> bool {
    &&& forall|i: int|
        0 <= i < tensors.len() ==> stored.dom().contains(#[trigger] tensors[i].name@) && (
        tensors[i].shape@,
        tensors[i].data@,
    ) == stored[tensors[i].name@]
    &&& forall|k: Seq<char>|
        #[trigger] stored.dom().contains(k) ==> exists|i: int|
            0 <= i < tensors.len() && #[trigger] tensors[i].name@ == k
    &&& forall|i: int, j: int|
        0 <= i < j < tensors.len() ==> #[trigger] tensors[i].name@ != #[trigger] tensors[j].name@
}

/// Reads every tensor of a safetensors buffer. A header that writes, outside
/// its strings, a number too large for the end of the data is refused first
/// (of valid files, only those with such a dimension beside a zero one, or
/// such a number in a field the format does not know); otherwise it
/// fails exactly when the buffer is not a valid file, and else each tensor
/// of the file comes once, under its name, with its shape and bytes.
pub fn decode_checkpoint(buffer: &[u8]) -> (res: Result<Vec<NamedTensor>, CheckpointError>)
    ensures
        res == Err::<Vec<NamedTensor>, CheckpointError>(CheckpointError::NumberTooLarge) <==> !header_numbers_fit(buffer@),
        res == Err::<Vec<NamedTensor>, CheckpointError>(CheckpointError::Malformed) <==> header_numbers_fit(buffer@)
            && safetensors_decoded(buffer@) is None,
        res matches Ok(tensors) ==> holds_exactly(tensors@, safetensors_decoded(buffer@).unwrap()),
{
    if !check_header_numbers(buffer) {
        return Err(CheckpointError::NumberTooLarge);
    }
    let file = match parse_safetensors(buffer) {
        Ok(file) => file,
        Err(_) => {
            return Err(CheckpointError::Malformed);
        },
    };
    let ghost stored = safetensors_decoded(buffer@).unwrap();
    let names = tensor_names(&file);
    let mut tensors: Vec<NamedTensor> = Vec::new();
    for i in 0..names.len()
        invariant
            stored == safetensors_tensors(file),
            forall|m: int| 0 <= m < names@.len() ==> stored.dom().contains(#[trigger] names@[m]@),
            tensors@.len() == i,
            forall|m: int|
                0 <= m < i ==> (#[trigger] tensors@[m]).name@ == names@[m]@ && (
                tensors@[m].shape@,
                tensors@[m].data@,
            ) == stored[names@[m]@],
    {
        let name = &names[i];
        assert(stored.dom().contains(names@[i as int]@));
        match tensor_by_name(&file, name.as_str()) {
            Ok(t) => {
                let ghost old_tensors = tensors@;
                tensors.push(NamedTensor { name: name.clone(), shape: t.shape, data: t.data });
                assert forall|m: int|
                    0 <= m < i + 1 implies (#[trigger] tensors@[m]).name@ == names@[m]@ && (
                    tensors@[m].shape@,
                    tensors@[m].data@,
                ) == stored[names@[m]@] by {
                    if m < i {
                        assert(tensors@[m] == old_tensors[m]);
                    }
                }
            },
            Err(_) => {
                assert(false);
                return Err(CheckpointError::Malformed);
            },
        }
    }
    assert forall|k: Seq<char>| #[trigger] stored.dom().contains(k) implies exists|i: int|
        0 <= i < tensors@.len() && #[trigger] tensors@[i].name@ == k by {
        let i = choose|i: int| 0 <= i < names@.len() && #[trigger] names@[i]@ == k;
        assert(tensors@[i].name@ == k);
    }
    assert forall|i: int, j: int| 0 <= i < j < tensors@.len() implies #[trigger] tensors@[i].name@
        != #[trigger] tensors@[j].name@ by {
        assert(names@[i]@ != names@[j]@);
    }
    assert(holds_exactly(tensors@, stored));
    Ok(tensors)
}

impl NamedTensor {
    /// The tensor's shape as the `i32` dimensions an array is built with,
    /// each dimension converted by `as`.
    pub fn dims(&self) -> (dims: Vec<i32>)
        ensures
            dims@.len() == self.shape@.len(),
            forall|k: int| 0 <= k < dims@.len() ==> #[trigger] dims@[k] == self.shape@[k] as i32,
    {
        let mut dims: Vec<i32> = Vec::new();
        for k in 0..self.shape.len()
            invariant
                dims@.len() == k,
                forall|j: int| 0 <= j < k ==> #[trigger] dims@[j] == self.shape@[j] as i32,
        {
            dims.push(self.shape[k] as i32);
        }
        dims
    }

    /// Four-byte elements the tensor's bytes hold.
    pub fn element_count(&self) -> (n: usize)
        ensures
            n == self.data@.len() / 4,
    {
        self.data.len() / 4
    }
}

} // verus!
