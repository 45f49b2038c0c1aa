//! Counting the lines, words, bytes and characters of a file's contents.

use crate::lines::{lemma_line_count_bound, line_count, newline_count, NEWLINE};
use vstd::prelude::*;

verus! {

/// The counts of one input.
#[derive(Debug, Clone, Copy, PartialEq, Eq, Structural)]
pub struct FileInfo {
    pub num_lines: usize,
    pub num_words: usize,
    pub num_bytes: usize,
    pub num_chars: usize,
}

/// Whether `b` separates words: a space, or one of the control characters
/// from horizontal tab to carriage return.
pub open spec fn is_space(b: u8) -> bool {
    b == 32 || 9 <= b <= 13
}

/// Whether `b` begins a character in UTF-8 text: any byte but a
/// continuation byte.
pub open spec fn is_char_start(b: u8) -> bool {
    b < 128 || b >= 192
}

/// How many words begin in `data`, where `after_space` says whether the
/// byte before `data` separates words. A word begins at each byte that is
/// no separator and follows one.
pub open spec fn word_starts(data: Seq<u8>, after_space: bool) -> nat
    decreases data.len(),
{
    if data.len() == 0 {
        0
    } else if after_space && !is_space(data[0]) {
        1 + word_starts(data.skip(1), false)
    } else {
        word_starts(data.skip(1), is_space(data[0]))
    }
}

/// How many words `data` holds: maximal runs of bytes that are no
/// separators.
pub open spec fn word_count(data: Seq<u8>) -> nat {
    word_starts(data, true)
}

/// How many characters `data` holds as UTF-8 text: the bytes that begin
/// one.
pub open spec fn char_count(data: Seq<u8>) -> nat
    decreases data.len(),
{
    if data.len() == 0 {
        0
    } else if is_char_start(data[0]) {
        1 + char_count(data.skip(1))
    } else {
        char_count(data.skip(1))
    }
}

/// No count exceeds the number of bytes.
pub proof fn lemma_counts_bounded(data: Seq<u8>, after_space: bool)
    ensures
        word_starts(data, after_space) <= data.len(),
        char_count(data) <= data.len(),
        line_count(data) <= data.len(),
    decreases data.len(),
{
    lemma_line_count_bound(data);
    if data.len() > 0 {
        lemma_counts_bounded(data.skip(1), false);
        lemma_counts_bounded(data.skip(1), is_space(data[0]));
    }
}

/// Text that is ASCII throughout has as many characters as bytes.
pub proof fn lemma_ascii_chars_are_bytes(data: Seq<u8>)
    requires
        forall|i: int| 0 <= i < data.len() ==> data[i] < 128,
    ensures
        char_count(data) == data.len(),
    decreases data.len(),
{
    if data.len() > 0 {
        lemma_ascii_chars_are_bytes(data.skip(1));
    }
}

/// Counts the lines, words, bytes and characters of `data`.
pub fn count(data: &[u8]) -> (info: FileInfo)
    ensures
        info.num_lines == line_count(data@),
        info.num_words == word_count(data@),
        info.num_bytes == data@.len(),
        info.num_chars == char_count(data@),
{
    let len: usize = data.len();
    let mut newlines: usize = 0;
    let mut words: usize = 0;
    let mut chars: usize = 0;
    let mut after_space: bool = true;
    let mut i: usize = 0;
    assert(data@.skip(0) =~= data@);
    while i < len
        invariant
            len == data.len(),
            i <= len,
            newlines <= i,
            words <= i,
            chars <= i,
            newline_count(data@) == newlines + newline_count(data@.skip(i as int)),
            word_count(data@) == words + word_starts(data@.skip(i as int), after_space),
            char_count(data@) == chars + char_count(data@.skip(i as int)),
        decreases len - i,
    {
        assert(data@.skip(i as int).skip(1) =~= data@.skip(i + 1));
        let b: u8 = data[i];
        if b == NEWLINE {
            newlines = newlines + 1;
        }
        let space: bool = b == 32 || (9 <= b && b <= 13);
        if after_space && !space {
            words = words + 1;
        }
        after_space = space;
        if b < 128 || b >= 192 {
            chars = chars + 1;
        }
        i = i + 1;
    }
    assert(data@.skip(i as int).len() == 0);
    proof {
        lemma_line_count_bound(data@);
    }
    let lines: usize = if len > 0 && data[len - 1] != NEWLINE {
        newlines + 1
    } else {
        newlines
    };
    FileInfo { num_lines: lines, num_words: words, num_bytes: len, num_chars: chars }
}

/// Which counts are shown.
#[derive(Debug, Clone, Copy, PartialEq, Eq, Structural)]
pub struct Shown {
    pub lines: bool,
    pub words: bool,
    pub bytes: bool,
    pub chars: bool,
}

/// The counts to show for those that were asked for: where none was asked
/// for, lines, words and bytes; else those that were.
pub fn shown_counts(asked: Shown) -> (shown: Shown)
    ensures
        shown == if asked.lines || asked.words || asked.bytes || asked.chars {
            asked
        } else {
            (Shown { lines: true, words: true, bytes: true, chars: false })
        },
{
    if asked.lines || asked.words || asked.bytes || asked.chars {
        asked
    } else {
        Shown { lines: true, words: true, bytes: true, chars: false }
    }
}

} // verus!
