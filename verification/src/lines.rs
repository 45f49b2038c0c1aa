//! Lines of a byte sequence: how many there are and where each begins.
//!
//! A line is a run of bytes that ends with a newline byte or with the end of
//! the data. A last run without a newline still counts as a line.

use crate::text::span_before;
use vstd::prelude::*;

verus! {

/// The byte that ends a line.
pub const NEWLINE: u8 = 10;

/// How many newline bytes `data` holds.
pub open spec fn newline_count(data: Seq<u8>) -> nat
    decreases data.len(),
{
    if data.len() == 0 {
        0
    } else if data[0] == NEWLINE {
        1 + newline_count(data.skip(1))
    } else {
        newline_count(data.skip(1))
    }
}

/// How many lines `data` holds: one for each newline, and one more for a
/// last run that no newline ends.
pub open spec fn line_count(data: Seq<u8>) -> nat {
    if data.len() > 0 && data.last() != NEWLINE {
        newline_count(data) + 1
    } else {
        newline_count(data)
    }
}

/// The offset at which the line with zero-based index `k` begins: just past
/// the `k`-th newline. Where `data` holds fewer than `k` newlines, this is the
/// length of `data`.
pub open spec fn line_offset(data: Seq<u8>, k: nat) -> nat
    decreases data.len(),
{
    if k == 0 || data.len() == 0 {
        0
    } else if data[0] == NEWLINE {
        1 + line_offset(data.skip(1), (k - 1) as nat)
    } else {
        1 + line_offset(data.skip(1), k)
    }
}

/// The byte that may stand before a newline at the end of a line.
pub const CARRIAGE_RETURN: u8 = 13;

/// A line without the carriage return that ends it, if one does.
pub open spec fn strip_carriage_return(line: Seq<u8>) -> Seq<u8> {
    if line.len() > 0 && line.last() == CARRIAGE_RETURN {
        line.drop_last()
    } else {
        line
    }
}

/// The lines of `data` without their terminators: a newline, or a
/// carriage return and a newline. A last line that no newline ends is
/// kept as it is.
pub open spec fn text_lines(data: Seq<u8>) -> Seq<Seq<u8>>
    decreases data.len(),
{
    if data.len() == 0 {
        Seq::empty()
    } else if span_before(data, NEWLINE) >= data.len() {
        seq![data]
    } else {
        seq![strip_carriage_return(data.take(span_before(data, NEWLINE) as int))] + text_lines(
            data.skip(span_before(data, NEWLINE) as int + 1),
        )
    }
}

/// A newline count never exceeds the length.
pub proof fn lemma_newline_count_bound(data: Seq<u8>)
    ensures
        newline_count(data) <= data.len(),
    decreases data.len(),
{
    if data.len() > 0 {
        lemma_newline_count_bound(data.skip(1));
    }
}

/// A line offset lies within the data.
pub proof fn lemma_line_offset_bound(data: Seq<u8>, k: nat)
    ensures
        line_offset(data, k) <= data.len(),
    decreases data.len(),
{
    if k != 0 && data.len() > 0 {
        if data[0] == NEWLINE {
            lemma_line_offset_bound(data.skip(1), (k - 1) as nat);
        } else {
            lemma_line_offset_bound(data.skip(1), k);
        }
    }
}

/// Newlines add up over a split of the data.
pub proof fn lemma_newline_count_split(data: Seq<u8>, i: int)
    requires
        0 <= i <= data.len(),
    ensures
        newline_count(data) == newline_count(data.take(i)) + newline_count(data.skip(i)),
    decreases i,
{
    if i == 0 {
        assert(data.skip(0) =~= data);
        assert(data.take(0).len() == 0);
    } else {
        lemma_newline_count_split(data.skip(1), i - 1);
        assert(data.skip(1).take(i - 1) =~= data.take(i).skip(1));
        assert(data.skip(1).skip(i - 1) =~= data.skip(i));
        assert(data.take(i)[0] == data[0]);
    }
}

/// A line count never exceeds the length: every line holds a byte.
pub proof fn lemma_line_count_bound(data: Seq<u8>)
    ensures
        line_count(data) <= data.len(),
{
    lemma_newline_count_bound(data);
    if data.len() > 0 && data.last() != NEWLINE {
        let n = data.len() - 1;
        lemma_newline_count_split(data, n);
        lemma_newline_count_bound(data.take(n));
        let last = data.skip(n);
        assert(last.len() == 1 && last[0] == data.last());
        assert(last.skip(1).len() == 0);
        assert(newline_count(last.skip(1)) == 0);
        assert(newline_count(last) == 0);
    }
}

/// The first `k` lines hold exactly `k` newlines where the data has that
/// many, and all of its newlines otherwise.
pub proof fn lemma_line_offset_newlines(data: Seq<u8>, k: nat)
    ensures
        newline_count(data.take(line_offset(data, k) as int)) == if k <= newline_count(data) {
            k
        } else {
            newline_count(data)
        },
    decreases data.len(),
{
    lemma_line_offset_bound(data, k);
    if k == 0 || data.len() == 0 {
        assert(data.take(0).len() == 0);
    } else {
        let rest = data.skip(1);
        let k1 = if data[0] == NEWLINE {
            (k - 1) as nat
        } else {
            k
        };
        lemma_line_offset_newlines(rest, k1);
        lemma_line_offset_bound(rest, k1);
        let off = line_offset(rest, k1) as int;
        assert(data.take(off + 1).skip(1) =~= rest.take(off));
        assert(data.take(off + 1)[0] == data[0]);
    }
}

/// Where the data has at least `k` newlines and `k` is positive, the byte
/// before the offset of line `k` is a newline.
pub proof fn lemma_line_offset_after_newline(data: Seq<u8>, k: nat)
    requires
        0 < k <= newline_count(data),
    ensures
        0 < line_offset(data, k) <= data.len(),
        data[line_offset(data, k) - 1] == NEWLINE,
    decreases data.len(),
{
    lemma_line_offset_bound(data, k);
    if data.len() > 0 {
        let rest = data.skip(1);
        if data[0] == NEWLINE {
            if k > 1 {
                lemma_line_offset_after_newline(rest, (k - 1) as nat);
                assert(rest[line_offset(rest, (k - 1) as nat) - 1] == data[line_offset(data, k) - 1]);
            }
        } else {
            lemma_line_offset_after_newline(rest, k);
            assert(rest[line_offset(rest, k) - 1] == data[line_offset(data, k) - 1]);
        }
    }
}

/// Past the last line there is nothing left: the offset of the line whose
/// index is the line count is the length of the data.
pub proof fn lemma_line_offset_at_line_count(data: Seq<u8>)
    ensures
        line_offset(data, line_count(data)) == data.len(),
    decreases data.len(),
{
    if data.len() > 0 {
        let rest = data.skip(1);
        lemma_line_offset_at_line_count(rest);
        if rest.len() > 0 {
            assert(rest.last() == data.last());
        }
        if data[0] == NEWLINE {
            if rest.len() == 0 {
                assert(newline_count(rest) == 0);
            }
        } else {
            if rest.len() == 0 {
                assert(newline_count(rest) == 0);
                assert(line_offset(rest, 1) == 0);
            }
        }
    }
}

/// Skipping the first `k` lines leaves `k` lines fewer.
pub proof fn lemma_line_count_after_offset(data: Seq<u8>, k: nat)
    requires
        k <= line_count(data),
    ensures
        line_count(data.skip(line_offset(data, k) as int)) == line_count(data) - k,
    decreases data.len(),
{
    if k == 0 || data.len() == 0 {
        assert(data.skip(0) =~= data);
    } else {
        let rest = data.skip(1);
        if rest.len() > 0 {
            assert(rest.last() == data.last());
        } else {
            assert(newline_count(rest) == 0);
        }
        let k1 = if data[0] == NEWLINE {
            (k - 1) as nat
        } else {
            k
        };
        if rest.len() > 0 || data[0] == NEWLINE {
            lemma_line_count_after_offset(rest, k1);
            lemma_line_offset_bound(rest, k1);
            let off = line_offset(rest, k1) as int;
            assert(data.skip(1 + off) =~= rest.skip(off));
        } else {
            assert(line_offset(rest, k) == 0);
            assert(data.skip(1).len() == 0);
        }
    }
}

/// Counts the newline bytes of `data`.
pub fn count_newlines(data: &[u8]) -> (count: usize)
    ensures
        count == newline_count(data@),
{
    let mut count: usize = 0;
    let mut i: usize = 0;
    assert(data@.skip(0) =~= data@);
    while i < data.len()
        invariant
            i <= data.len(),
            count <= i,
            newline_count(data@) == count + newline_count(data@.skip(i as int)),
        decreases data.len() - i,
    {
        assert(data@.skip(i as int).skip(1) =~= data@.skip(i + 1));
        if data[i] == NEWLINE {
            count = count + 1;
        }
        i = i + 1;
    }
    assert(data@.skip(i as int).len() == 0);
    count
}

/// Scans from the beginning for the offset at which line `k` begins.
pub fn find_line_offset(data: &[u8], k: u64) -> (offset: usize)
    ensures
        offset == line_offset(data@, k as nat),
        offset <= data.len(),
{
    let mut seen: u64 = 0;
    let mut i: usize = 0;
    assert(data@.skip(0) =~= data@);
    while i < data.len() && seen < k
        invariant
            i <= data.len(),
            seen <= k,
            line_offset(data@, k as nat) == i + line_offset(
                data@.skip(i as int),
                (k - seen) as nat,
            ),
        decreases data.len() - i,
    {
        assert(data@.skip(i as int).skip(1) =~= data@.skip(i + 1));
        if data[i] == NEWLINE {
            seen = seen + 1;
        }
        i = i + 1;
    }
    i
}

} // verus!
