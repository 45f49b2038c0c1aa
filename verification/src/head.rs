//! The first lines or bytes of a file: reading the requested count.

use crate::decimal::{integer_within, Integer};
use vstd::prelude::*;
use vstd::string::{StringExecFns, StringSliceAdditionalSpecFns};

verus! {

/// Reads a count that must be positive. Text that denotes no positive
/// number that fits is handed back as the error.
pub fn parse_positive_int(val: &str) -> (parsed: Result<usize, String>)
    ensures
        match parsed {
            Ok(n) => integer_within(val.spec_bytes(), false, 1, usize::MAX as int) == Some(
                n as int,
            ),
            Err(text) => integer_within(val.spec_bytes(), false, 1, usize::MAX as int) is None
                && text@ == val@,
        },
{
    match usize::from_decimal(val.as_bytes()) {
        Some(n) => {
            if n > 0 {
                Ok(n)
            } else {
                Err(String::from_str(val))
            }
        },
        None => Err(String::from_str(val)),
    }
}

/// The message for a count that was refused, where `what` says what is
/// counted.
pub open spec fn illegal_count(what: Seq<char>, text: Seq<char>) -> Seq<char> {
    "illegal "@ + what + " count -- "@ + text
}

/// Writes the message for a count that was refused.
pub fn illegal_count_message(what: &str, text: &str) -> (message: String)
    ensures
        message@ == illegal_count(what@, text@),
{
    let mut message: String = String::from_str("illegal ");
    message.append(what);
    message.append(" count -- ");
    message.append(text);
    message
}

/// Reads the count of what is named by `what`, lines or bytes, that is to
/// be shown.
pub fn parse_count(what: &str, val: &str) -> (parsed: Result<usize, String>)
    ensures
        match parsed {
            Ok(n) => integer_within(val.spec_bytes(), false, 1, usize::MAX as int) == Some(
                n as int,
            ),
            Err(message) => integer_within(val.spec_bytes(), false, 1, usize::MAX as int) is None
                && message@ == illegal_count(what@, val@),
        },
{
    match parse_positive_int(val) {
        Ok(n) => Ok(n),
        Err(text) => Err(illegal_count_message(what, text.as_str())),
    }
}

} // verus!
