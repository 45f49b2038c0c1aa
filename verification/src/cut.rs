//! Cutting fields, bytes or characters out of lines: reading the list of
//! positions.
//!
//! A list is made of items with commas between them. An item is a position,
//! counted from one, or two positions with a dash between them, the first
//! lower than the second. Each item stands for a range of zero-based
//! positions that ends before its end.

use crate::decimal::{
    all_digits, decimal_string, decimal_text, integer_within, Integer, MINUS, PLUS,
};
use crate::text::{find_byte, lemma_span_before, skip_ascii, span_before, split_text};
use std::ops::Range;
use vstd::prelude::*;
use vstd::string::{StringExecFns, StringSliceAdditionalSpecFns};
use vstd::utf8::encode_utf8;

verus! {

/// The ranges of an extraction, in the order in which they were asked for.
pub type PositionList = Vec<Range<usize>>;

/// What is cut out of each line.
#[derive(Debug)]
pub enum Extract {
    Fields(PositionList),
    Bytes(PositionList),
    Chars(PositionList),
}

/// Why a list of positions was refused.
#[derive(Debug)]
pub enum PositionError {
    /// This item, or this position of a range, is no position.
    IllegalValue(String),
    /// The first position of a range, given here, is not lower than the
    /// second.
    NotAscending(usize, usize),
}

/// Why a list of positions is refused, over the bytes of the text.
pub enum Refusal {
    IllegalValue(Seq<u8>),
    NotAscending(int, int),
}

/// The byte of the comma.
pub const COMMA: u8 = 44;

impl PositionError {
    /// The refusal that this error stands for.
    pub open spec fn refusal(&self) -> Refusal {
        match self {
            PositionError::IllegalValue(text) => Refusal::IllegalValue(encode_utf8(text@)),
            PositionError::NotAscending(first, second) => Refusal::NotAscending(
                *first as int,
                *second as int,
            ),
        }
    }

    /// The message of this error.
    pub open spec fn message(&self) -> Seq<char> {
        match self {
            PositionError::IllegalValue(text) => "illegal list value: \""@ + text@ + "\""@,
            PositionError::NotAscending(first, second) => "First number in range ("@
                + decimal_text(*first as nat) + ") must be lower than second number ("@
                + decimal_text(*second as nat) + ")"@,
        }
    }

    /// Writes the message of this error.
    pub fn to_string(&self) -> (text: String)
        ensures
            text@ == self.message(),
    {
        match self {
            PositionError::IllegalValue(value) => {
                let mut text: String = String::from_str("illegal list value: \"");
                text.append(value.as_str());
                text.append("\"");
                text
            },
            PositionError::NotAscending(first, second) => {
                let mut text: String = String::from_str("First number in range (");
                text.append(decimal_string(*first as u64).as_str());
                text.append(") must be lower than second number (");
                text.append(decimal_string(*second as u64).as_str());
                text.append(")");
                text
            },
        }
    }
}

/// The message for a delimiter that is not one byte.
pub open spec fn delimiter_refused(text: Seq<char>) -> Seq<char> {
    "--delim \""@ + text + "\" must be a single byte"@
}

/// Reads the delimiter of fields, which is a single byte.
pub fn parse_delimiter(text: &str) -> (parsed: Result<u8, String>)
    ensures
        match parsed {
            Ok(byte) => text.spec_bytes() == seq![byte],
            Err(message) => text.spec_bytes().len() != 1 && message@ == delimiter_refused(text@),
        },
{
    let bytes: &[u8] = text.as_bytes();
    if bytes.len() == 1 {
        assert(bytes@ =~= seq![bytes@[0]]);
        Ok(bytes[0])
    } else {
        let mut message: String = String::from_str("--delim \"");
        message.append(text);
        message.append("\" must be a single byte");
        Err(message)
    }
}

/// The message for an extraction that names nothing to cut out.
pub open spec fn nothing_to_extract() -> Seq<char> {
    "Must have --fields, --bytes, or --chars"@
}

/// Chooses what is cut out from the lists that were given: fields before
/// bytes, and bytes before characters. One of them must be given.
pub fn choose_extract(
    fields: Option<PositionList>,
    bytes: Option<PositionList>,
    chars: Option<PositionList>,
) -> (chosen: Result<Extract, String>)
    ensures
        match chosen {
            Ok(extract) => match (fields, bytes, chars) {
                (Some(list), _, _) => extract == Extract::Fields(list),
                (None, Some(list), _) => extract == Extract::Bytes(list),
                (None, None, Some(list)) => extract == Extract::Chars(list),
                (None, None, None) => false,
            },
            Err(message) => fields is None && bytes is None && chars is None && message@
                == nothing_to_extract(),
        },
{
    match fields {
        Some(list) => Ok(Extract::Fields(list)),
        None => match bytes {
            Some(list) => Ok(Extract::Bytes(list)),
            None => match chars {
                Some(list) => Ok(Extract::Chars(list)),
                None => Err(String::from_str("Must have --fields, --bytes, or --chars")),
            },
        },
    }
}

/// The zero-based position that `item` stands for: a positive number
/// without a sign, less one.
pub open spec fn index_of(item: Seq<u8>) -> Option<int> {
    if item.len() > 0 && item[0] == PLUS {
        None
    } else {
        match integer_within(item, false, 1, usize::MAX as int) {
            Some(n) => Some(n - 1),
            None => None,
        }
    }
}

/// Whether `item` is made of digits, a dash, and digits.
pub open spec fn is_pair(item: Seq<u8>) -> bool {
    let dash = span_before(item, MINUS) as int;
    &&& 0 < dash < item.len() - 1
    &&& all_digits(item.take(dash))
    &&& all_digits(item.skip(dash + 1))
}

/// The range that `item` stands for, as its start and its end, or why it
/// stands for none.
pub open spec fn range_of(item: Seq<u8>) -> Result<(int, int), Refusal> {
    let dash = span_before(item, MINUS) as int;
    match index_of(item) {
        Some(n) => Ok((n, n + 1)),
        None => if !is_pair(item) {
            Err(Refusal::IllegalValue(item))
        } else {
            match index_of(item.take(dash)) {
                None => Err(Refusal::IllegalValue(item.take(dash))),
                Some(first) => match index_of(item.skip(dash + 1)) {
                    None => Err(Refusal::IllegalValue(item.skip(dash + 1))),
                    Some(second) => if first >= second {
                        Err(Refusal::NotAscending(first + 1, second + 1))
                    } else {
                        Ok((first, second + 1))
                    },
                },
            }
        },
    }
}

/// The ranges that the list `text` stands for, or why its first item that
/// stands for none does not.
pub open spec fn ranges_of(text: Seq<u8>) -> Result<Seq<(int, int)>, Refusal>
    decreases text.len(),
{
    let comma = span_before(text, COMMA) as int;
    match range_of(text.take(comma)) {
        Err(refusal) => Err(refusal),
        Ok(range) => if comma >= text.len() {
            Ok(seq![range])
        } else {
            match ranges_of(text.skip(comma + 1)) {
                Err(refusal) => Err(refusal),
                Ok(ranges) => Ok(seq![range] + ranges),
            }
        },
    }
}

/// The starts and ends of a list of ranges.
pub open spec fn bounds(list: Seq<Range<usize>>) -> Seq<(int, int)> {
    list.map_values(|r: Range<usize>| (r.start as int, r.end as int))
}

/// Reads a position: a positive number without a sign, for the
/// zero-based position one below it.
fn parse_index(item: &str) -> (index: Option<usize>)
    ensures
        match index {
            Some(i) => index_of(item.spec_bytes()) == Some(i as int),
            None => index_of(item.spec_bytes()) is None,
        },
{
    let bytes: &[u8] = item.as_bytes();
    if bytes.len() > 0 && bytes[0] == PLUS {
        return None;
    }
    match usize::from_decimal(bytes) {
        Some(n) => {
            if n > 0 {
                Some(n - 1)
            } else {
                None
            }
        },
        None => None,
    }
}

/// Whether every byte of `bytes` is a digit.
fn is_all_digits(bytes: &[u8]) -> (all: bool)
    ensures
        all == all_digits(bytes@),
{
    let mut i: usize = 0;
    while i < bytes.len()
        invariant
            i <= bytes.len(),
            forall|j: int| 0 <= j < i ==> crate::decimal::is_digit(#[trigger] bytes@[j]),
        decreases bytes.len() - i,
    {
        if bytes[i] < 48 || bytes[i] > 57 {
            return false;
        }
        i = i + 1;
    }
    true
}

/// An error for an item that is no position.
fn illegal(item: &str) -> (error: PositionError)
    ensures
        error.refusal() == Refusal::IllegalValue(item.spec_bytes()),
{
    PositionError::IllegalValue(String::from_str(item))
}

/// Reads one item of a list.
fn parse_item(item: &str) -> (parsed: Result<Range<usize>, PositionError>)
    ensures
        match parsed {
            Ok(range) => range_of(item.spec_bytes()) == Ok::<(int, int), Refusal>(
                (range.start as int, range.end as int),
            ),
            Err(error) => range_of(item.spec_bytes()) == Err::<(int, int), Refusal>(
                error.refusal(),
            ),
        },
{
    match parse_index(item) {
        Some(n) => {
            return Ok(n..n + 1);
        },
        None => {},
    }
    let bytes: &[u8] = item.as_bytes();
    let dash: usize = find_byte(bytes, MINUS);
    proof {
        lemma_span_before(bytes@, MINUS);
    }
    if dash == 0 || dash >= bytes.len() {
        return Err(illegal(item));
    }
    let (first_text, tail) = split_text(item, dash);
    let second_text: &str = skip_ascii(tail);
    assert(second_text.spec_bytes() =~= bytes@.skip(dash + 1));
    if second_text.as_bytes().len() == 0 || !is_all_digits(first_text.as_bytes())
        || !is_all_digits(second_text.as_bytes()) {
        return Err(illegal(item));
    }
    let first: usize = match parse_index(first_text) {
        Some(n) => n,
        None => {
            return Err(illegal(first_text));
        },
    };
    let second: usize = match parse_index(second_text) {
        Some(n) => n,
        None => {
            return Err(illegal(second_text));
        },
    };
    if first >= second {
        Err(PositionError::NotAscending(first + 1, second + 1))
    } else {
        Ok(first..second + 1)
    }
}

/// Reads a list of positions.
pub fn parse_pos(range: &str) -> (parsed: Result<PositionList, PositionError>)
    ensures
        match parsed {
            Ok(list) => ranges_of(range.spec_bytes()) == Ok::<Seq<(int, int)>, Refusal>(
                bounds(list@),
            ),
            Err(error) => ranges_of(range.spec_bytes()) == Err::<Seq<(int, int)>, Refusal>(
                error.refusal(),
            ),
        },
{
    let mut list: PositionList = Vec::new();
    let mut rest: &str = range;
    assert(bounds(list@) =~= Seq::<(int, int)>::empty());
    loop
        invariant
            ranges_of(range.spec_bytes()) == match ranges_of(rest.spec_bytes()) {
                Ok(ranges) => Ok::<Seq<(int, int)>, Refusal>(bounds(list@) + ranges),
                Err(refusal) => Err(refusal),
            },
        decreases rest.spec_bytes().len(),
    {
        let bytes: &[u8] = rest.as_bytes();
        let comma: usize = find_byte(bytes, COMMA);
        proof {
            lemma_span_before(bytes@, COMMA);
        }
        let (item, tail) = split_text(rest, comma);
        match parse_item(item) {
            Ok(found) => {
                let ghost before = bounds(list@);
                let ghost pair = (found.start as int, found.end as int);
                list.push(found);
                assert(bounds(list@) =~= before + seq![pair]);
                if comma >= bytes.len() {
                    return Ok(list);
                }
                rest = skip_ascii(tail);
                proof {
                    assert(rest.spec_bytes() =~= bytes@.skip(comma + 1));
                    match ranges_of(rest.spec_bytes()) {
                        Ok(ranges) => {
                            assert(before + (seq![pair] + ranges) =~= bounds(list@) + ranges);
                        },
                        Err(_) => {},
                    }
                }
            },
            Err(error) => {
                return Err(error);
            },
        }
    }
}

} // verus!
