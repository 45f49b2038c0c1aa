//! Search patterns: compiling one from its source and trying it on text.
//!
//! The patterns are regular expressions of the `regex` crate. What compiles
//! and what matches is that crate's to say; the functions here carry its
//! answers and say what is done with them.

use regex::{Regex, RegexBuilder};
use vstd::prelude::*;
use vstd::string::{StringExecFns, StringSliceAdditionalSpecFns};

verus! {

/// A compiled pattern, `regex::Regex`. Nothing is known of what is in it.
#[verifier::external_type_specification]
#[verifier::external_body]
pub struct ExRegex(Regex);

/// Why a pattern did not compile, `regex::Error`. Nothing is known of what
/// is in it.
#[verifier::external_type_specification]
#[verifier::external_body]
pub struct ExRegexError(regex::Error);

/// Whether `source` is a pattern that can be compiled, with or without
/// regard to case.
pub uninterp spec fn compiles(source: Seq<char>, insensitive: bool) -> bool;

/// Whether the compiled `pattern` matches somewhere in the text with the
/// bytes `text`.
pub uninterp spec fn matches_in(pattern: &Regex, text: Seq<u8>) -> bool;

/// Compiles `source` by `RegexBuilder::new`, `case_insensitive` and
/// `build`. Whether that succeeds depends on the source and the flag alone.
#[verifier::external_body]
fn build(source: &str, insensitive: bool) -> (built: Result<Regex, regex::Error>)
    ensures
        built is Ok <==> compiles(source@, insensitive),
{
    RegexBuilder::new(source).case_insensitive(insensitive).build()
}

/// Tests by `Regex::is_match` whether `pattern` matches somewhere in
/// `text`. The answer depends on the pattern and the text alone.
#[verifier::external_body]
pub(crate) fn is_match(pattern: &Regex, text: &str) -> (found: bool)
    ensures
        found == matches_in(pattern, text.spec_bytes()),
{
    pattern.is_match(text)
}

/// The message for a pattern that cannot be compiled, where `what` says
/// which pattern it is.
pub open spec fn invalid_pattern(what: Seq<char>, source: Seq<char>) -> Seq<char> {
    "Invalid "@ + what + " \""@ + source + "\""@
}

/// Writes the message for a pattern that cannot be compiled.
pub fn invalid_pattern_message(what: &str, source: &str) -> (message: String)
    ensures
        message@ == invalid_pattern(what@, source@),
{
    let mut message: String = String::from_str("Invalid ");
    message.append(what);
    message.append(" \"");
    message.append(source);
    message.append("\"");
    message
}

/// Compiles a pattern. Where it cannot be compiled, the error names it by
/// `what` and gives its source.
pub fn compile(what: &str, source: &str, insensitive: bool) -> (compiled: Result<Regex, String>)
    ensures
        compiled is Ok <==> compiles(source@, insensitive),
        compiled matches Err(message) ==> message@ == invalid_pattern(what@, source@),
{
    match build(source, insensitive) {
        Ok(pattern) => Ok(pattern),
        Err(_) => Err(invalid_pattern_message(what, source)),
    }
}

} // verus!
