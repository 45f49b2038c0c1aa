//! Decimal numbers in text: which byte strings denote an integer, and which.
//!
//! The text is taken as bytes. Only the ASCII digits and the two ASCII signs
//! mean anything here, so text that holds any other character denotes
//! nothing.

use vstd::prelude::*;
use vstd::string::StringExecFns;
use vstd::utf8::{encode_utf8, is_ascii_chars, is_ascii_chars_encode_utf8};

verus! {

/// The byte of the digit zero.
pub const DIGIT_ZERO: u8 = 48;

/// The byte of the digit nine.
pub const DIGIT_NINE: u8 = 57;

/// The byte of the plus sign.
pub const PLUS: u8 = 43;

/// The byte of the minus sign.
pub const MINUS: u8 = 45;

/// Whether `b` is an ASCII decimal digit.
pub open spec fn is_digit(b: u8) -> bool {
    DIGIT_ZERO <= b <= DIGIT_NINE
}

/// The number that the digit `b` stands for; zero for any other byte.
pub open spec fn digit_value(b: u8) -> nat {
    if is_digit(b) {
        (b - DIGIT_ZERO) as nat
    } else {
        0
    }
}

/// Whether every byte of `s` is a decimal digit.
pub open spec fn all_digits(s: Seq<u8>) -> bool {
    forall|i: int| 0 <= i < s.len() ==> is_digit(#[trigger] s[i])
}

/// The number that a string of digits denotes, most significant digit first.
pub open spec fn digits_value(s: Seq<u8>) -> nat
    decreases s.len(),
{
    if s.len() == 0 {
        0
    } else {
        10 * digits_value(s.drop_last()) + digit_value(s.last())
    }
}

/// The number that `s` denotes as a nonempty string of digits, where that
/// number is at most `limit`.
pub open spec fn digits_within(s: Seq<u8>, limit: nat) -> Option<nat> {
    if s.len() > 0 && all_digits(s) && digits_value(s) <= limit {
        Some(digits_value(s))
    } else {
        None
    }
}

/// Whether `s` begins with a sign that the grammar accepts: a plus sign, or
/// a minus sign where negative numbers are `signed` for.
pub open spec fn has_sign(s: Seq<u8>, signed: bool) -> bool {
    s.len() > 0 && (s[0] == PLUS || (signed && s[0] == MINUS))
}

/// Whether `s` begins with a minus sign that the grammar accepts.
pub open spec fn is_negative(s: Seq<u8>, signed: bool) -> bool {
    signed && s.len() > 0 && s[0] == MINUS
}

/// The digits of `s`: what follows its sign, or all of it where it has none.
pub open spec fn digits_part(s: Seq<u8>, signed: bool) -> Seq<u8> {
    if has_sign(s, signed) {
        s.skip(1)
    } else {
        s
    }
}

/// The integer that `s` denotes: an optional sign and then one or more
/// digits, nothing before, between or after. A minus sign is accepted only
/// where `signed` holds.
pub open spec fn integer_of(s: Seq<u8>, signed: bool) -> Option<int> {
    let digits = digits_part(s, signed);
    if digits.len() > 0 && all_digits(digits) {
        if is_negative(s, signed) {
            Some(-(digits_value(digits) as int))
        } else {
            Some(digits_value(digits) as int)
        }
    } else {
        None
    }
}

/// The integer that `s` denotes where it lies between `lo` and `hi`.
pub open spec fn integer_within(s: Seq<u8>, signed: bool, lo: int, hi: int) -> Option<int> {
    match integer_of(s, signed) {
        Some(v) => if lo <= v <= hi {
            Some(v)
        } else {
            None
        },
        None => None,
    }
}

/// A longer string of digits denotes no smaller a number than its
/// beginning does.
pub proof fn lemma_digits_value_prefix(s: Seq<u8>, i: int)
    requires
        0 <= i <= s.len(),
    ensures
        digits_value(s.take(i)) <= digits_value(s),
    decreases s.len(),
{
    if i == s.len() {
        assert(s.take(i) =~= s);
    } else {
        lemma_digits_value_prefix(s.drop_last(), i);
        assert(s.drop_last().take(i) =~= s.take(i));
    }
}

/// Reads `bytes` from `start` on as a nonempty string of digits and gives
/// the number it denotes, where that is at most `limit`.
pub fn parse_digits(bytes: &[u8], start: usize, limit: u64) -> (value: Option<u64>)
    requires
        start <= bytes.len(),
    ensures
        match value {
            Some(v) => digits_within(bytes@.skip(start as int), limit as nat) == Some(v as nat),
            None => digits_within(bytes@.skip(start as int), limit as nat) is None,
        },
{
    let ghost s = bytes@.skip(start as int);
    let mut acc: u64 = 0;
    let mut i: usize = start;
    assert(s.take(0).len() == 0);
    while i < bytes.len()
        invariant
            start <= i <= bytes.len(),
            s == bytes@.skip(start as int),
            all_digits(s.take(i - start)),
            acc == digits_value(s.take(i - start)),
            acc <= limit,
        decreases bytes.len() - i,
    {
        let b: u8 = bytes[i];
        let ghost j = i - start;
        assert(s[j] == b);
        if b < DIGIT_ZERO || b > DIGIT_NINE {
            return None;
        }
        let next: u128 = (acc as u128) * 10 + ((b - DIGIT_ZERO) as u128);
        proof {
            assert(s.take(j + 1).drop_last() =~= s.take(j));
            assert(s.take(j + 1).last() == b);
            assert(next == digits_value(s.take(j + 1)));
            assert forall|k: int| 0 <= k < j + 1 implies is_digit(#[trigger] s.take(j + 1)[k]) by {
                if k < j {
                    assert(s.take(j)[k] == s.take(j + 1)[k]);
                }
            }
            lemma_digits_value_prefix(s, j + 1);
        }
        if next > limit as u128 {
            return None;
        }
        acc = next as u64;
        i = i + 1;
    }
    assert(s.take(i - start) =~= s);
    if i == start {
        None
    } else {
        Some(acc)
    }
}

/// Reads `bytes` as an integer between `-below` and `above`.
pub fn parse_integer(bytes: &[u8], signed: bool, below: u64, above: u64) -> (value: Option<i128>)
    ensures
        match value {
            Some(v) => integer_within(bytes@, signed, -(below as int), above as int) == Some(
                v as int,
            ),
            None => integer_within(bytes@, signed, -(below as int), above as int) is None,
        },
{
    let negative: bool = signed && bytes.len() > 0 && bytes[0] == MINUS;
    let sign: bool = negative || (bytes.len() > 0 && bytes[0] == PLUS);
    let start: usize = if sign {
        1
    } else {
        0
    };
    assert(bytes@.skip(0) =~= bytes@);
    let limit: u64 = if negative {
        below
    } else {
        above
    };
    match parse_digits(bytes, start, limit) {
        Some(m) => {
            if negative {
                Some(-(m as i128))
            } else {
                Some(m as i128)
            }
        },
        None => None,
    }
}

/// An integer type whose values can be read from decimal text.
pub trait Integer: Sized {
    /// Whether the type has negative values, so that a minus sign may lead.
    spec fn spec_signed() -> bool;

    /// The least value of the type.
    spec fn spec_min() -> int;

    /// The greatest value of the type.
    spec fn spec_max() -> int;

    /// The number that a value of the type stands for.
    spec fn number(&self) -> int;

    /// Reads `bytes` as a value of the type.
    fn from_decimal(bytes: &[u8]) -> (value: Option<Self>)
        ensures
            match value {
                Some(v) => integer_within(
                    bytes@,
                    Self::spec_signed(),
                    Self::spec_min(),
                    Self::spec_max(),
                ) == Some(v.number()),
                None => integer_within(
                    bytes@,
                    Self::spec_signed(),
                    Self::spec_min(),
                    Self::spec_max(),
                ) is None,
            },
    ;
}

impl Integer for u32 {
    open spec fn spec_signed() -> bool {
        false
    }

    open spec fn spec_min() -> int {
        0
    }

    open spec fn spec_max() -> int {
        u32::MAX as int
    }

    open spec fn number(&self) -> int {
        *self as int
    }

    fn from_decimal(bytes: &[u8]) -> (value: Option<u32>) {
        match parse_integer(bytes, false, 0, 0xffff_ffff) {
            Some(v) => Some(v as u32),
            None => None,
        }
    }
}

impl Integer for u64 {
    open spec fn spec_signed() -> bool {
        false
    }

    open spec fn spec_min() -> int {
        0
    }

    open spec fn spec_max() -> int {
        u64::MAX as int
    }

    open spec fn number(&self) -> int {
        *self as int
    }

    fn from_decimal(bytes: &[u8]) -> (value: Option<u64>) {
        match parse_integer(bytes, false, 0, 0xffff_ffff_ffff_ffff) {
            Some(v) => Some(v as u64),
            None => None,
        }
    }
}

impl Integer for usize {
    open spec fn spec_signed() -> bool {
        false
    }

    open spec fn spec_min() -> int {
        0
    }

    open spec fn spec_max() -> int {
        usize::MAX as int
    }

    open spec fn number(&self) -> int {
        *self as int
    }

    fn from_decimal(bytes: &[u8]) -> (value: Option<usize>) {
        match parse_integer(bytes, false, 0, usize::MAX as u64) {
            Some(v) => Some(v as usize),
            None => None,
        }
    }
}

impl Integer for i32 {
    open spec fn spec_signed() -> bool {
        true
    }

    open spec fn spec_min() -> int {
        i32::MIN as int
    }

    open spec fn spec_max() -> int {
        i32::MAX as int
    }

    open spec fn number(&self) -> int {
        *self as int
    }

    fn from_decimal(bytes: &[u8]) -> (value: Option<i32>) {
        match parse_integer(bytes, true, 0x8000_0000, 0x7fff_ffff) {
            Some(v) => Some(v as i32),
            None => None,
        }
    }
}

impl Integer for i64 {
    open spec fn spec_signed() -> bool {
        true
    }

    open spec fn spec_min() -> int {
        i64::MIN as int
    }

    open spec fn spec_max() -> int {
        i64::MAX as int
    }

    open spec fn number(&self) -> int {
        *self as int
    }

    fn from_decimal(bytes: &[u8]) -> (value: Option<i64>) {
        match parse_integer(bytes, true, 0x8000_0000_0000_0000, 0x7fff_ffff_ffff_ffff) {
            Some(v) => Some(v as i64),
            None => None,
        }
    }
}

/// The character of the digit `d`.
pub open spec fn digit_char(d: nat) -> char {
    (DIGIT_ZERO + d) as char
}

/// The decimal digits of `n` as text, without a sign or leading zeros.
pub open spec fn decimal_text(n: nat) -> Seq<char>
    decreases n,
{
    if n < 10 {
        seq![digit_char(n)]
    } else {
        decimal_text(n / 10).push(digit_char(n % 10))
    }
}

/// What is written in digits reads back as the same number: the text of
/// `n` is made of digits alone, and they denote `n`.
pub proof fn lemma_decimal_text_reads_back(n: nat)
    ensures
        decimal_text(n).len() > 0,
        is_ascii_chars(decimal_text(n)),
        all_digits(encode_utf8(decimal_text(n))),
        digits_value(encode_utf8(decimal_text(n))) == n,
        integer_of(encode_utf8(decimal_text(n)), false) == Some(n as int),
    decreases n,
{
    let text = decimal_text(n);
    let bytes = encode_utf8(text);
    if n < 10 {
        assert(is_ascii_chars(text));
        is_ascii_chars_encode_utf8(text);
        assert(bytes[0] == DIGIT_ZERO + n);
        assert(bytes.drop_last().len() == 0);
        assert(digits_value(bytes.drop_last()) == 0);
    } else {
        let front = decimal_text(n / 10);
        lemma_decimal_text_reads_back(n / 10);
        assert forall|i: int| 0 <= i < text.len() implies '\0' <= #[trigger] text[i]
            <= '\u{7f}' by {
            if i < front.len() {
                assert(text[i] == front[i]);
            }
        }
        is_ascii_chars_encode_utf8(text);
        is_ascii_chars_encode_utf8(front);
        let front_bytes = encode_utf8(front);
        assert(bytes.drop_last() =~= front_bytes) by {
            assert forall|i: int| 0 <= i < front_bytes.len() implies bytes.drop_last()[i]
                == front_bytes[i] by {
                assert(text[i] == front[i]);
            }
        }
        assert(bytes.last() == DIGIT_ZERO + n % 10) by {
            assert(text[text.len() - 1] == digit_char(n % 10));
        }
        assert forall|i: int| 0 <= i < bytes.len() implies is_digit(#[trigger] bytes[i]) by {
            if i < front_bytes.len() {
                assert(bytes.drop_last()[i] == bytes[i]);
            }
        }
    }
    assert(bytes[0] != PLUS);
}

/// The text of the digit `d`.
fn digit_text(d: u64) -> (text: &'static str)
    requires
        d < 10,
    ensures
        text@ == seq![digit_char(d as nat)],
{
    proof {
        reveal_strlit("0");
        reveal_strlit("1");
        reveal_strlit("2");
        reveal_strlit("3");
        reveal_strlit("4");
        reveal_strlit("5");
        reveal_strlit("6");
        reveal_strlit("7");
        reveal_strlit("8");
        reveal_strlit("9");
    }
    let text: &'static str = if d == 0 {
        "0"
    } else if d == 1 {
        "1"
    } else if d == 2 {
        "2"
    } else if d == 3 {
        "3"
    } else if d == 4 {
        "4"
    } else if d == 5 {
        "5"
    } else if d == 6 {
        "6"
    } else if d == 7 {
        "7"
    } else if d == 8 {
        "8"
    } else {
        "9"
    };
    assert(text@ =~= seq![digit_char(d as nat)]);
    text
}

/// Writes `n` in decimal digits.
pub fn decimal_string(n: u64) -> (text: String)
    ensures
        text@ == decimal_text(n as nat),
    decreases n,
{
    if n < 10 {
        String::from_str(digit_text(n))
    } else {
        let mut text: String = decimal_string(n / 10);
        text.append(digit_text(n % 10));
        assert(text@ =~= decimal_text(n as nat));
        text
    }
}

} // verus!
