//! Searching text for the lines that a pattern matches.

use crate::decimal::{decimal_string, decimal_text};
use crate::lines::NEWLINE;
use crate::pattern::{is_match, matches_in};
use crate::text::{find_byte, lemma_after_ascii, lemma_span_before, span_before, split_text};
use regex::Regex;
use vstd::prelude::*;
use vstd::string::{StringExecFns, StringSliceAdditionalSpecFns};
use vstd::utf8::encode_utf8;

verus! {

/// Whether a line is kept: one that the pattern matched, or, where the
/// match is inverted, one that it did not.
pub fn selects(matched: bool, invert_match: bool) -> (kept: bool)
    ensures
        kept == (matched != invert_match),
{
    matched ^ invert_match
}

/// The lines of `data`, each with the newline that ends it. A last line
/// that no newline ends is kept as it is.
pub open spec fn whole_lines(data: Seq<u8>) -> Seq<Seq<u8>>
    decreases data.len(),
{
    if data.len() == 0 {
        Seq::empty()
    } else if span_before(data, NEWLINE) >= data.len() {
        seq![data]
    } else {
        seq![data.take(span_before(data, NEWLINE) as int + 1)] + whole_lines(
            data.skip(span_before(data, NEWLINE) as int + 1),
        )
    }
}

/// The lines among `lines` that are kept, in their order.
pub open spec fn kept_lines(lines: Seq<Seq<u8>>, pattern: &Regex, invert_match: bool) -> Seq<
    Seq<u8>,
>
    decreases lines.len(),
{
    if lines.len() == 0 {
        Seq::empty()
    } else if matches_in(pattern, lines[0]) != invert_match {
        seq![lines[0]] + kept_lines(lines.skip(1), pattern, invert_match)
    } else {
        kept_lines(lines.skip(1), pattern, invert_match)
    }
}

/// A line is among the kept lines exactly where it is one of the lines and
/// the pattern's answer for it differs from `invert_match`.
pub proof fn lemma_kept_lines(
    lines: Seq<Seq<u8>>,
    pattern: &Regex,
    invert_match: bool,
    line: Seq<u8>,
)
    ensures
        kept_lines(lines, pattern, invert_match).len() <= lines.len(),
        kept_lines(lines, pattern, invert_match).contains(line) <==> (lines.contains(line)
            && matches_in(pattern, line) != invert_match),
    decreases lines.len(),
{
    let kept = kept_lines(lines, pattern, invert_match);
    if lines.len() > 0 {
        let rest = lines.skip(1);
        let kept_rest = kept_lines(rest, pattern, invert_match);
        let head_kept = matches_in(pattern, lines[0]) != invert_match;
        lemma_kept_lines(rest, pattern, invert_match, line);
        if kept.contains(line) {
            let i = choose|i: int| 0 <= i < kept.len() && kept[i] == line;
            if head_kept && i == 0 {
                assert(lines[0] == line);
            } else {
                if head_kept {
                    assert(kept_rest[i - 1] == line);
                } else {
                    assert(kept_rest[i] == line);
                }
                let j = choose|j: int| 0 <= j < rest.len() && rest[j] == line;
                assert(lines[j + 1] == line);
            }
        }
        if lines.contains(line) && matches_in(pattern, line) != invert_match {
            let j = choose|j: int| 0 <= j < lines.len() && lines[j] == line;
            if j == 0 {
                assert(kept[0] == line);
            } else {
                assert(rest[j - 1] == line);
                let i = choose|i: int| 0 <= i < kept_rest.len() && kept_rest[i] == line;
                if head_kept {
                    assert(kept[i + 1] == line);
                } else {
                    assert(kept[i] == line);
                }
            }
        }
    }
}

/// Finds the lines of `content` that `pattern` matches, or, where
/// `invert_match` is set, those that it does not. Each line comes with its
/// newline.
pub fn find_lines(content: &str, pattern: &Regex, invert_match: bool) -> (found: Vec<String>)
    ensures
        found@.len() == kept_lines(
            whole_lines(content.spec_bytes()),
            pattern,
            invert_match,
        ).len(),
        forall|i: int|
            0 <= i < found@.len() ==> encode_utf8((#[trigger] found@[i])@) == kept_lines(
                whole_lines(content.spec_bytes()),
                pattern,
                invert_match,
            )[i],
{
    let mut found: Vec<String> = Vec::new();
    let mut rest: &str = content;
    let ghost mut done: Seq<Seq<u8>> = Seq::empty();
    let ghost all = kept_lines(whole_lines(content.spec_bytes()), pattern, invert_match);
    assert(done + all =~= all);
    while rest.as_bytes().len() > 0
        invariant
            all == kept_lines(whole_lines(content.spec_bytes()), pattern, invert_match),
            all == done + kept_lines(whole_lines(rest.spec_bytes()), pattern, invert_match),
            found@.len() == done.len(),
            forall|i: int| 0 <= i < found@.len() ==> encode_utf8((#[trigger] found@[i])@) == done[i],
        decreases rest.spec_bytes().len(),
    {
        let bytes: &[u8] = rest.as_bytes();
        let at: usize = find_byte(bytes, NEWLINE);
        proof {
            lemma_span_before(bytes@, NEWLINE);
        }
        let end: usize = if at >= bytes.len() {
            at
        } else {
            at + 1
        };
        proof {
            if end < bytes.len() {
                lemma_after_ascii(rest@, at as int);
            }
        }
        let (line, remainder) = split_text(rest, end);
        let ghost lines = whole_lines(bytes@);
        let ghost later = whole_lines(remainder.spec_bytes());
        proof {
            assert(bytes@.take(end as int) == line.spec_bytes());
            if at >= bytes.len() {
                assert(bytes@.take(end as int) =~= bytes@);
                assert(later =~= Seq::<Seq<u8>>::empty());
                assert(lines =~= seq![line.spec_bytes()] + later);
            }
            assert(lines[0] == line.spec_bytes());
            assert(lines.skip(1) =~= later);
        }
        if selects(is_match(pattern, line), invert_match) {
            found.push(String::from_str(line));
            proof {
                let kept = kept_lines(later, pattern, invert_match);
                assert(done + (seq![line.spec_bytes()] + kept) =~= done.push(line.spec_bytes())
                    + kept);
                done = done.push(line.spec_bytes());
            }
        }
        rest = remainder;
    }
    proof {
        assert(whole_lines(rest.spec_bytes()) =~= Seq::<Seq<u8>>::empty());
        assert(done + Seq::<Seq<u8>>::empty() =~= done);
    }
    found
}

/// What is written for one result of a file: the result alone where one
/// file was searched, and after the file's name and a colon where several
/// were.
pub open spec fn result_text(filename: Seq<char>, value: Seq<char>, num_files: int) -> Seq<char> {
    if num_files > 1 {
        filename + ":"@ + value
    } else {
        value
    }
}

/// Writes one result of a file, a line or a count, as it is shown.
pub fn format_result(filename: &str, value: &str, num_files: usize) -> (text: String)
    ensures
        text@ == result_text(filename@, value@, num_files as int),
{
    if num_files > 1 {
        let mut text: String = String::from_str(filename);
        text.append(":");
        text.append(value);
        text
    } else {
        String::from_str(value)
    }
}

/// Writes the line that gives a count of matches.
pub fn count_line(count: usize) -> (text: String)
    ensures
        text@ == decimal_text(count as nat) + "\n"@,
{
    let mut text: String = decimal_string(count as u64);
    text.append("\n");
    text
}

/// The message for a directory that is given but not searched.
pub open spec fn directory_refused(path: Seq<char>) -> Seq<char> {
    path + " is a directory"@
}

/// What is known of a path that is to be searched.
#[derive(Debug, Clone, Copy, PartialEq, Eq, Structural)]
pub enum PathKind {
    /// The path `-`, which stands for the standard input.
    StandardInput,
    /// A file.
    File,
    /// A directory.
    Directory,
    /// Something else, which is passed over.
    Other,
}

/// What is done with a path that is to be searched.
#[derive(Debug)]
pub enum Search {
    /// The path is searched as it is.
    Path,
    /// The files below the directory are searched.
    Below,
    /// The path is passed over.
    Nothing,
    /// The path is refused with this message.
    Refused(String),
}

/// Decides what is done with a path of the given kind: a directory is
/// searched only where the search is recursive, and refused otherwise.
pub fn plan_search(path: &str, kind: PathKind, recursive: bool) -> (search: Search)
    ensures
        match kind {
            PathKind::StandardInput | PathKind::File => search is Path,
            PathKind::Directory => if recursive {
                search is Below
            } else {
                search matches Search::Refused(message) && message@ == directory_refused(path@)
            },
            PathKind::Other => search is Nothing,
        },
{
    match kind {
        PathKind::StandardInput => Search::Path,
        PathKind::File => Search::Path,
        PathKind::Directory => {
            if recursive {
                Search::Below
            } else {
                let mut message: String = String::from_str(path);
                message.append(" is a directory");
                Search::Refused(message)
            }
        },
        PathKind::Other => Search::Nothing,
    }
}

} // verus!
