//! Calendar arguments: years and months from text.

use crate::decimal::{integer_within, Integer};
use vstd::prelude::*;
use vstd::string::{StringExecFns, StringSliceAdditionalSpecFns};

verus! {

/// The message for text that denotes no integer of the wanted type.
pub open spec fn invalid_integer(val: Seq<char>) -> Seq<char> {
    "Invalid integer \""@ + val + "\""@
}

/// The message for a year outside the calendar's range.
pub open spec fn year_out_of_range(year: Seq<char>) -> Seq<char> {
    "year \""@ + year + "\" not in the range 1 through 9999"@
}

/// Reads an integer of type `T` from text: an optional sign, a minus sign
/// only for a type with negative values, and then digits.
pub fn parse_int<T: Integer>(val: &str) -> (parsed: Result<T, String>)
    ensures
        match parsed {
            Ok(v) => integer_within(val.spec_bytes(), T::spec_signed(), T::spec_min(), T::spec_max())
                == Some(v.number()),
            Err(message) => integer_within(
                val.spec_bytes(),
                T::spec_signed(),
                T::spec_min(),
                T::spec_max(),
            ) is None && message@ == invalid_integer(val@),
        },
{
    match T::from_decimal(val.as_bytes()) {
        Some(v) => Ok(v),
        None => {
            let mut message: String = String::from_str("Invalid integer \"");
            message.append(val);
            message.append("\"");
            Err(message)
        },
    }
}

/// Reads a year, which lies between 1 and 9999.
pub fn parse_year(year: &str) -> (parsed: Result<i32, String>)
    ensures
        match parsed {
            Ok(y) => integer_within(year.spec_bytes(), true, 1, 9999) == Some(y as int),
            Err(message) => integer_within(year.spec_bytes(), true, 1, 9999) is None && message@
                == if integer_within(year.spec_bytes(), true, i32::MIN as int, i32::MAX as int)
                is Some {
                year_out_of_range(year@)
            } else {
                invalid_integer(year@)
            },
        },
{
    match parse_int::<i32>(year) {
        Ok(num) => {
            if 1 <= num && num <= 9999 {
                Ok(num)
            } else {
                let mut message: String = String::from_str("year \"");
                message.append(year);
                message.append("\" not in the range 1 through 9999");
                Err(message)
            }
        },
        Err(message) => Err(message),
    }
}

/// The message for a month number outside the year.
pub open spec fn month_out_of_range(month: Seq<char>) -> Seq<char> {
    "month \""@ + month + "\" not in the range 1 through 12"@
}

/// The message for text that is no number and names no single month.
pub open spec fn invalid_month(month: Seq<char>) -> Seq<char> {
    "Invalid month \""@ + month + "\""@
}

/// The English name of month `m`, counted from one.
pub open spec fn month_name(m: int) -> Seq<char> {
    if m == 1 {
        "January"@
    } else if m == 2 {
        "February"@
    } else if m == 3 {
        "March"@
    } else if m == 4 {
        "April"@
    } else if m == 5 {
        "May"@
    } else if m == 6 {
        "June"@
    } else if m == 7 {
        "July"@
    } else if m == 8 {
        "August"@
    } else if m == 9 {
        "September"@
    } else if m == 10 {
        "October"@
    } else if m == 11 {
        "November"@
    } else {
        "December"@
    }
}

/// The English name of month `m`, counted from one.
fn month_name_text(m: u32) -> (name: &'static str)
    requires
        1 <= m <= 12,
    ensures
        name@ == month_name(m as int),
{
    if m == 1 {
        "January"
    } else if m == 2 {
        "February"
    } else if m == 3 {
        "March"
    } else if m == 4 {
        "April"
    } else if m == 5 {
        "May"
    } else if m == 6 {
        "June"
    } else if m == 7 {
        "July"
    } else if m == 8 {
        "August"
    } else if m == 9 {
        "September"
    } else if m == 10 {
        "October"
    } else if m == 11 {
        "November"
    } else {
        "December"
    }
}

/// The byte `b` with an ASCII capital letter turned into its small letter.
pub open spec fn spec_lower(b: u8) -> u8 {
    if 65 <= b <= 90 {
        (b + 32) as u8
    } else {
        b
    }
}

/// The byte `b` with an ASCII capital letter turned into its small letter.
fn lower(b: u8) -> (folded: u8)
    ensures
        folded == spec_lower(b),
{
    if 65 <= b && b <= 90 {
        b + 32
    } else {
        b
    }
}

/// Whether `whole` begins with `prefix`, ASCII capital and small letters
/// taken as the same.
pub open spec fn begins_with(whole: Seq<u8>, prefix: Seq<u8>) -> bool {
    prefix.len() <= whole.len() && forall|i: int|
        0 <= i < prefix.len() ==> spec_lower(#[trigger] prefix[i]) == spec_lower(whole[i])
}

/// Whether `text` names month `m`: the month's name begins with it.
pub open spec fn names_month(text: Seq<u8>, m: int) -> bool {
    begins_with(vstd::utf8::encode_utf8(month_name(m)), text)
}

/// The months from January to month `upto` that `text` names, in order.
pub open spec fn months_named(text: Seq<u8>, upto: int) -> Seq<int>
    decreases upto,
{
    if upto <= 0 {
        Seq::empty()
    } else if names_month(text, upto) {
        months_named(text, upto - 1).push(upto)
    } else {
        months_named(text, upto - 1)
    }
}

/// The month that `text` stands for: a number from 1 to 12, or else the
/// one month that it names.
pub open spec fn month_of(text: Seq<u8>) -> Option<int> {
    match integer_within(text, false, 0, u32::MAX as int) {
        Some(n) => if 1 <= n <= 12 {
            Some(n)
        } else {
            None
        },
        None => if months_named(text, 12).len() == 1 {
            Some(months_named(text, 12)[0])
        } else {
            None
        },
    }
}

/// Whether `whole` begins with `prefix`, ASCII capital and small letters
/// taken as the same.
fn starts_with_ignoring_case(whole: &[u8], prefix: &[u8]) -> (found: bool)
    ensures
        found == begins_with(whole@, prefix@),
{
    if prefix.len() > whole.len() {
        return false;
    }
    let mut i: usize = 0;
    while i < prefix.len()
        invariant
            i <= prefix.len() <= whole.len(),
            forall|j: int| 0 <= j < i ==> spec_lower(#[trigger] prefix@[j]) == spec_lower(whole@[j]),
        decreases prefix.len() - i,
    {
        if lower(prefix[i]) != lower(whole[i]) {
            return false;
        }
        i = i + 1;
    }
    true
}

/// Reads a month: its number, or the beginning of its English name in
/// capital or small letters, long enough to name one month only.
pub fn parse_month(month: &str) -> (parsed: Result<u32, String>)
    ensures
        match parsed {
            Ok(m) => month_of(month.spec_bytes()) == Some(m as int),
            Err(message) => month_of(month.spec_bytes()) is None && message@ == if integer_within(
                month.spec_bytes(),
                false,
                0,
                u32::MAX as int,
            ) is Some {
                month_out_of_range(month@)
            } else {
                invalid_month(month@)
            },
        },
{
    match parse_int::<u32>(month) {
        Ok(num) => {
            if 1 <= num && num <= 12 {
                Ok(num)
            } else {
                let mut message: String = String::from_str("month \"");
                message.append(month);
                message.append("\" not in the range 1 through 12");
                Err(message)
            }
        },
        Err(_) => {
            let text: &[u8] = month.as_bytes();
            let mut matches: Vec<u32> = Vec::new();
            let mut m: u32 = 1;
            while m <= 12
                invariant
                    1 <= m <= 13,
                    text@ == month.spec_bytes(),
                    matches@.len() == months_named(text@, m - 1).len(),
                    forall|i: int|
                        0 <= i < matches@.len() ==> #[trigger] matches@[i] as int == months_named(
                            text@,
                            m - 1,
                        )[i],
                decreases 13 - m,
            {
                let name: &str = month_name_text(m);
                if starts_with_ignoring_case(name.as_bytes(), text) {
                    matches.push(m);
                }
                m = m + 1;
            }
            if matches.len() == 1 {
                Ok(matches[0])
            } else {
                let mut message: String = String::from_str("Invalid month \"");
                message.append(month);
                message.append("\"");
                Err(message)
            }
        },
    }
}

/// The month, if one alone is shown, and the year of the calendar, from
/// what was asked for and today's month and year. The whole current year is
/// shown where that is asked for. Where nothing is asked for, the current
/// month is shown. A month without a year is taken in the current year.
pub fn resolve_date(
    month: Option<u32>,
    year: Option<i32>,
    show_current_year: bool,
    this_month: u32,
    this_year: i32,
) -> (shown: (Option<u32>, i32))
    ensures
        shown == if show_current_year {
            (None::<u32>, this_year)
        } else if month is None && year is None {
            (Some(this_month), this_year)
        } else {
            (
                month,
                match year {
                    Some(y) => y,
                    None => this_year,
                },
            )
        },
{
    if show_current_year {
        (None, this_year)
    } else if month.is_none() && year.is_none() {
        (Some(this_month), this_year)
    } else {
        match year {
            Some(y) => (month, y),
            None => (month, this_year),
        }
    }
}

} // verus!
