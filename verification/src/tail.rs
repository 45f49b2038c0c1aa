//! Tail extraction: where output starts, and what is emitted from there.

use crate::decimal::{
    all_digits, decimal_text, digits_part, digits_value, is_digit, lemma_decimal_text_reads_back,
    parse_digits, MINUS, PLUS,
};
use crate::head::{illegal_count, illegal_count_message};
use crate::lines::{
    count_newlines, find_line_offset, lemma_line_count_after_offset, lemma_line_count_bound,
    line_count, line_offset, NEWLINE,
};
use vstd::prelude::*;
use vstd::slice::{slice_subrange, slice_to_vec};
use vstd::string::{StringExecFns, StringSliceAdditionalSpecFns};
use vstd::utf8::encode_utf8;

verus! {

/// A requested count of lines or bytes, before it is resolved against a file.
#[derive(Debug, Clone, Copy, PartialEq, Eq, Structural)]
pub enum TakeValue {
    /// The text `+0`: everything, if there is anything.
    PlusZero,
    /// A signed count. Positive `n` starts at the `n`-th element, counted
    /// from one; negative `n` keeps the last `|n|` elements; zero keeps
    /// nothing.
    TakeNum(i64),
}

/// The request that the text `s` denotes: an optional sign and then one or
/// more digits. Without a sign the number counts from the end, as with a
/// minus sign; `+` and a number that is zero asks for everything. Text of
/// another shape, or whose number does not fit in 64 bits, denotes nothing.
pub open spec fn specifier_of(s: Seq<u8>) -> Option<TakeValue> {
    let digits = digits_part(s, true);
    if digits.len() == 0 || !all_digits(digits) {
        None
    } else if s[0] == PLUS {
        if digits_value(digits) == 0 {
            Some(TakeValue::PlusZero)
        } else if digits_value(digits) <= i64::MAX {
            Some(TakeValue::TakeNum(digits_value(digits) as i64))
        } else {
            None
        }
    } else if digits_value(digits) <= -(i64::MIN as int) {
        Some(TakeValue::TakeNum((-(digits_value(digits) as int)) as i64))
    } else {
        None
    }
}

/// Reads a requested count from its text. Text that denotes no request is
/// handed back as the error.
pub fn parse_num(val: &str) -> (parsed: Result<TakeValue, String>)
    ensures
        match parsed {
            Ok(take) => specifier_of(val.spec_bytes()) == Some(take),
            Err(text) => specifier_of(val.spec_bytes()) is None && text@ == val@,
        },
{
    let bytes: &[u8] = val.as_bytes();
    let plus: bool = bytes.len() > 0 && bytes[0] == PLUS;
    let sign: bool = plus || (bytes.len() > 0 && bytes[0] == MINUS);
    let start: usize = if sign {
        1
    } else {
        0
    };
    let limit: u64 = if plus {
        0x7fff_ffff_ffff_ffff
    } else {
        0x8000_0000_0000_0000
    };
    assert(bytes@.skip(0) =~= bytes@);
    match parse_digits(bytes, start, limit) {
        Some(magnitude) => {
            if !plus {
                Ok(TakeValue::TakeNum((-(magnitude as i128)) as i64))
            } else if magnitude == 0 {
                Ok(TakeValue::PlusZero)
            } else {
                Ok(TakeValue::TakeNum(magnitude as i64))
            }
        },
        None => Err(String::from_str(val)),
    }
}

/// The digits of a number read back as a request for it: bare, or after a
/// minus sign, as a count from the end; after a plus sign as a position
/// from the start, or as everything where the number is zero. This holds up
/// to the largest magnitudes that 64 bits take, on either side.
pub proof fn lemma_specifier_reads_back(m: nat)
    requires
        m <= -(i64::MIN as int),
    ensures
        specifier_of(encode_utf8(decimal_text(m))) == Some(TakeValue::TakeNum((-m) as i64)),
        specifier_of(seq![MINUS] + encode_utf8(decimal_text(m))) == Some(
            TakeValue::TakeNum((-m) as i64),
        ),
        m <= i64::MAX ==> specifier_of(seq![PLUS] + encode_utf8(decimal_text(m))) == Some(
            if m == 0 {
                TakeValue::PlusZero
            } else {
                TakeValue::TakeNum(m as i64)
            },
        ),
{
    let digits = encode_utf8(decimal_text(m));
    lemma_decimal_text_reads_back(m);
    assert(is_digit(digits[0]));
    assert((seq![MINUS] + digits).skip(1) =~= digits);
    assert((seq![PLUS] + digits).skip(1) =~= digits);
}

/// Reads the requested count of what is named by `what`, lines or bytes.
pub fn parse_count(what: &str, val: &str) -> (parsed: Result<TakeValue, String>)
    ensures
        match parsed {
            Ok(take) => specifier_of(val.spec_bytes()) == Some(take),
            Err(message) => specifier_of(val.spec_bytes()) is None && message@ == illegal_count(
                what@,
                val@,
            ),
        },
{
    match parse_num(val) {
        Ok(take) => Ok(take),
        Err(text) => Err(illegal_count_message(what, text.as_str())),
    }
}

/// The zero-based position at which output starts for a file of `total`
/// elements, or `None` where nothing is to be emitted.
pub open spec fn start_index(take: TakeValue, total: int) -> Option<int> {
    match take {
        TakeValue::PlusZero => if total > 0 {
            Some(0)
        } else {
            None
        },
        TakeValue::TakeNum(n) => if n == 0 || total <= 0 || n > total {
            None
        } else if n > 0 {
            Some(n - 1)
        } else if total + n < 0 {
            Some(0)
        } else {
            Some(total + n)
        },
    }
}

/// Resolves a requested count against the total number of elements.
pub fn get_start_index(take_val: &TakeValue, total: i64) -> (start: Option<u64>)
    ensures
        match start {
            Some(i) => start_index(*take_val, total as int) == Some(i as int),
            None => start_index(*take_val, total as int) is None,
        },
{
    match take_val {
        TakeValue::PlusZero => {
            if total > 0 {
                Some(0)
            } else {
                None
            }
        },
        TakeValue::TakeNum(num) => {
            let n: i64 = *num;
            if n == 0 || total <= 0 || n > total {
                None
            } else if n > 0 {
                Some((n - 1) as u64)
            } else {
                let start: i64 = total + n;
                if start < 0 {
                    Some(0)
                } else {
                    Some(start as u64)
                }
            }
        },
    }
}

/// Nothing is emitted for a count of zero, whatever the total.
pub proof fn lemma_zero_takes_nothing(total: int)
    ensures
        start_index(TakeValue::TakeNum(0), total) is None,
{
}

/// `+0` starts at the first element of a file that has one, and emits
/// nothing for an empty file.
pub proof fn lemma_plus_zero_takes_all(total: int)
    ensures
        total > 0 ==> start_index(TakeValue::PlusZero, total) == Some(0int),
        total <= 0 ==> start_index(TakeValue::PlusZero, total) is None,
{
}

/// A positive count `n` starts at position `n - 1`, and emits nothing
/// exactly when it points past the end.
pub proof fn lemma_positive_count(n: i64, total: int)
    requires
        n > 0,
    ensures
        start_index(TakeValue::TakeNum(n), total) is None <==> n > total,
        n <= total ==> start_index(TakeValue::TakeNum(n), total) == Some(n - 1),
{
}

/// A negative count `n` starts `|n|` elements before the end, or at the
/// beginning where the file is shorter than that; for an empty file it emits
/// nothing.
pub proof fn lemma_negative_count(n: i64, total: int)
    requires
        n < 0,
    ensures
        total > 0 ==> start_index(TakeValue::TakeNum(n), total) == Some(
            if total + n > 0 {
                total + n
            } else {
                0int
            },
        ),
        total <= 0 ==> start_index(TakeValue::TakeNum(n), total) is None,
{
}

/// A resolved start position lies inside the file.
pub proof fn lemma_start_index_in_range(take: TakeValue, total: int)
    ensures
        start_index(take, total) matches Some(i) ==> 0 <= i < total,
{
}

/// The line and byte totals of a file's contents.
pub fn count_lines_bytes(data: &[u8]) -> (totals: (i64, i64))
    requires
        data.len() <= i64::MAX,
    ensures
        totals.0 == line_count(data@),
        totals.1 == data.len(),
{
    let len: usize = data.len();
    let newlines: usize = count_newlines(data);
    proof {
        lemma_line_count_bound(data@);
    }
    let lines: usize = if len > 0 && data[len - 1] != NEWLINE {
        newlines + 1
    } else {
        newlines
    };
    (lines as i64, len as i64)
}

/// What the line emitter writes: the data from the resolved start line to
/// the end, or nothing where no start line is resolved.
pub open spec fn lines_from(data: Seq<u8>, take: TakeValue, total: int) -> Seq<u8> {
    match start_index(take, total) {
        Some(k) => data.skip(line_offset(data, k as nat) as int),
        None => Seq::empty(),
    }
}

/// What the byte emitter writes: the data from the resolved start byte to
/// the end, or nothing where no start byte is resolved or it lies past the
/// end.
pub open spec fn bytes_from(data: Seq<u8>, take: TakeValue, total: int) -> Seq<u8> {
    match start_index(take, total) {
        Some(k) => if k <= data.len() {
            data.skip(k)
        } else {
            Seq::empty()
        },
        None => Seq::empty(),
    }
}

/// The bytes to write for a line request: every line from the resolved
/// start line through the end, terminators included.
pub fn print_lines(data: &[u8], num_lines: &TakeValue, total_lines: i64) -> (out: Vec<u8>)
    ensures
        out@ == lines_from(data@, *num_lines, total_lines as int),
{
    match get_start_index(num_lines, total_lines) {
        Some(k) => {
            let offset: usize = find_line_offset(data, k);
            slice_to_vec(slice_subrange(data, offset, data.len()))
        },
        None => Vec::new(),
    }
}

/// The bytes to write for a byte request: every byte from the resolved
/// start offset through the end.
pub fn print_bytes(data: &[u8], num_bytes: &TakeValue, total_bytes: i64) -> (out: Vec<u8>)
    ensures
        out@ == bytes_from(data@, *num_bytes, total_bytes as int),
{
    match get_start_index(num_bytes, total_bytes) {
        Some(k) => {
            if k <= data.len() as u64 {
                slice_to_vec(slice_subrange(data, k as usize, data.len()))
            } else {
                Vec::new()
            }
        },
        None => Vec::new(),
    }
}

/// Emitting lines twice from the same data with the same request writes
/// the same bytes both times.
pub proof fn lemma_lines_repeatable(
    data: Seq<u8>,
    take: TakeValue,
    total: int,
    first: Seq<u8>,
    second: Seq<u8>,
)
    requires
        first == lines_from(data, take, total),
        second == lines_from(data, take, total),
    ensures
        first == second,
{
}

/// Emitting bytes twice from the same data with the same request writes
/// the same bytes both times.
pub proof fn lemma_bytes_repeatable(
    data: Seq<u8>,
    take: TakeValue,
    total: int,
    first: Seq<u8>,
    second: Seq<u8>,
)
    requires
        first == bytes_from(data, take, total),
        second == bytes_from(data, take, total),
    ensures
        first == second,
{
}

/// What is emitted is an end of the data: nothing is changed, added or
/// dropped in between.
pub proof fn lemma_emitted_is_suffix(data: Seq<u8>, take: TakeValue, total: int)
    ensures
        lines_from(data, take, total).is_suffix_of(data),
        bytes_from(data, take, total).is_suffix_of(data),
{
    crate::lines::lemma_line_offset_bound(data, 0);
    let lines = lines_from(data, take, total);
    let bytes = bytes_from(data, take, total);
    match start_index(take, total) {
        Some(k) => {
            crate::lines::lemma_line_offset_bound(data, k as nat);
            assert(lines =~= data.skip(data.len() - lines.len()));
            assert(bytes =~= data.skip(data.len() - bytes.len()));
        },
        None => {
            assert(lines =~= data.skip(data.len() - lines.len()));
            assert(bytes =~= data.skip(data.len() - bytes.len()));
        },
    }
}

/// From an empty file nothing is emitted, whatever is requested.
pub proof fn lemma_empty_file(take: TakeValue)
    ensures
        start_index(take, 0) is None,
        lines_from(Seq::empty(), take, 0) == Seq::<u8>::empty(),
        bytes_from(Seq::empty(), take, 0) == Seq::<u8>::empty(),
{
}

/// Resolved against the data's own line count, a request that starts at
/// position `k` leaves all lines but the first `k`. So a negative count
/// `n` leaves the last `|n|` lines, or all of them where there are fewer.
pub proof fn lemma_lines_left(data: Seq<u8>, take: TakeValue)
    ensures
        match start_index(take, line_count(data) as int) {
            Some(k) => line_count(lines_from(data, take, line_count(data) as int)) == line_count(
                data,
            ) - k,
            None => lines_from(data, take, line_count(data) as int).len() == 0,
        },
        take matches TakeValue::TakeNum(n) ==> n < 0 ==> line_count(
            lines_from(data, take, line_count(data) as int),
        ) == if -n <= line_count(data) {
            -n
        } else {
            line_count(data) as int
        },
{
    match start_index(take, line_count(data) as int) {
        Some(k) => {
            lemma_line_count_after_offset(data, k as nat);
        },
        None => {
            assert(crate::lines::newline_count(Seq::<u8>::empty()) == 0);
        },
    }
}

/// Resolved against the data's own length, a request that starts at
/// position `k` leaves all bytes but the first `k`.
pub proof fn lemma_bytes_left(data: Seq<u8>, take: TakeValue)
    ensures
        match start_index(take, data.len() as int) {
            Some(k) => bytes_from(data, take, data.len() as int).len() == data.len() - k,
            None => bytes_from(data, take, data.len() as int).len() == 0,
        },
{
}

/// The header line of a file's output: its name between arrows, after a
/// blank line for every file but the first.
pub open spec fn header_text(filename: Seq<char>, first: bool) -> Seq<char> {
    if first {
        "==> "@ + filename + " <==\n"@
    } else {
        "\n==> "@ + filename + " <==\n"@
    }
}

/// The header to write before the output of the file at `index` among
/// `num_files`: one is written only where several files are given and
/// `quiet` is not set.
pub fn file_header(
    filename: &str,
    index: usize,
    num_files: usize,
    quiet: bool,
) -> (header: Option<String>)
    ensures
        header is Some <==> (num_files > 1 && !quiet),
        header matches Some(text) ==> text@ == header_text(filename@, index == 0),
{
    if quiet || num_files <= 1 {
        return None;
    }
    let mut text: String = if index == 0 {
        String::from_str("==> ")
    } else {
        String::from_str("\n==> ")
    };
    text.append(filename);
    text.append(" <==\n");
    Some(text)
}

} // verus!
