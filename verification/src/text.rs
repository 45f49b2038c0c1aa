//! Text as bytes: cutting a string where a character begins, and putting
//! strings together, with the bytes of each result stated.

use vstd::prelude::*;
use vstd::string::{StringExecFns, StringSliceAdditionalSpecFns};
use vstd::utf8::{
    decode_utf8_split, encode_utf8, encode_utf8_decode_utf8, encode_utf8_valid_utf8,
    is_char_boundary, is_char_boundary_iff_not_is_continuation_byte,
    is_char_boundary_start_end_of_seq, is_continuation_byte, valid_utf8,
};

verus! {

/// How many bytes of `data` stand before the first byte `stop`, or in all
/// of it where it holds none.
pub open spec fn span_before(data: Seq<u8>, stop: u8) -> nat
    decreases data.len(),
{
    if data.len() == 0 || data[0] == stop {
        0
    } else {
        1 + span_before(data.skip(1), stop)
    }
}

/// The span before `stop` ends at the first `stop` or at the end of the
/// data, and holds no `stop`.
pub proof fn lemma_span_before(data: Seq<u8>, stop: u8)
    ensures
        span_before(data, stop) <= data.len(),
        span_before(data, stop) < data.len() ==> data[span_before(data, stop) as int] == stop,
        forall|i: int| 0 <= i < span_before(data, stop) ==> data[i] != stop,
    decreases data.len(),
{
    if data.len() > 0 && data[0] != stop {
        let rest = data.skip(1);
        lemma_span_before(rest, stop);
        assert forall|i: int| 0 <= i < span_before(data, stop) implies data[i] != stop by {
            if i > 0 {
                assert(rest[i - 1] == data[i]);
            }
        }
    }
}

/// Scans for the first byte `stop` in `data`.
pub fn find_byte(data: &[u8], stop: u8) -> (at: usize)
    ensures
        at == span_before(data@, stop),
        at <= data.len(),
{
    let mut i: usize = 0;
    assert(data@.skip(0) =~= data@);
    while i < data.len() && data[i] != stop
        invariant
            i <= data.len(),
            span_before(data@, stop) == i + span_before(data@.skip(i as int), stop),
        decreases data.len() - i,
    {
        assert(data@.skip(i as int).skip(1) =~= data@.skip(i + 1));
        i = i + 1;
    }
    i
}

/// The bytes of two texts put together are the bytes of the one and then
/// the bytes of the other.
pub proof fn lemma_encode_concat(a: Seq<char>, b: Seq<char>)
    ensures
        encode_utf8(a + b) == encode_utf8(a) + encode_utf8(b),
    decreases a.len(),
{
    if a.len() == 0 {
        assert(a + b =~= b);
        assert(encode_utf8(a) + encode_utf8(b) =~= encode_utf8(b));
    } else {
        lemma_encode_concat(a.drop_first(), b);
        assert((a + b).drop_first() =~= a.drop_first() + b);
        assert((a + b)[0] == a[0]);
        assert(encode_utf8(a + b) =~= encode_utf8(a) + encode_utf8(b));
    }
}

/// In the bytes of a text, a character begins right after every ASCII
/// byte.
pub proof fn lemma_after_ascii(text: Seq<char>, at: int)
    requires
        0 <= at,
        at + 1 < encode_utf8(text).len(),
        encode_utf8(text)[at] < 128,
    ensures
        !is_continuation_byte(encode_utf8(text)[at + 1]),
{
    let bytes = encode_utf8(text);
    encode_utf8_valid_utf8(text);
    is_char_boundary_iff_not_is_continuation_byte(bytes, at);
    vstd::utf8::valid_utf8_split(bytes, at);
    let tail = bytes.subrange(at, bytes.len() as int);
    assert(tail[0] == bytes[at]);
    assert(tail[1] == bytes[at + 1]);
    assert(is_char_boundary(tail, 1)) by {
        reveal_with_fuel(is_char_boundary, 2);
        reveal_with_fuel(valid_utf8, 2);
    }
    is_char_boundary_iff_not_is_continuation_byte(tail, 1);
}

/// Cuts `s` in two before the byte at `at`, where a character begins or
/// the text ends.
pub fn split_text<'a>(s: &'a str, at: usize) -> (parts: (&'a str, &'a str))
    requires
        at <= s.spec_bytes().len(),
        at < s.spec_bytes().len() ==> !is_continuation_byte(s.spec_bytes()[at as int]),
    ensures
        parts.0.spec_bytes() == s.spec_bytes().take(at as int),
        parts.1.spec_bytes() == s.spec_bytes().skip(at as int),
        parts.0@ + parts.1@ == s@,
{
    let ghost bytes = s.spec_bytes();
    proof {
        encode_utf8_valid_utf8(s@);
        if at < bytes.len() {
            is_char_boundary_iff_not_is_continuation_byte(bytes, at as int);
        } else {
            is_char_boundary_start_end_of_seq(bytes);
        }
    }
    let parts = s.split_at(at);
    proof {
        assert(bytes.take(at as int) =~= bytes.subrange(0, at as int));
        assert(bytes.skip(at as int) =~= bytes.subrange(at as int, bytes.len() as int));
        decode_utf8_split(bytes, at as int);
        encode_utf8_decode_utf8(s@);
        encode_utf8_decode_utf8(parts.0@);
        encode_utf8_decode_utf8(parts.1@);
    }
    parts
}

/// Drops the first byte of `s`, which is an ASCII character.
pub fn skip_ascii<'a>(s: &'a str) -> (rest: &'a str)
    requires
        s.spec_bytes().len() > 0,
        s.spec_bytes()[0] < 128,
    ensures
        rest.spec_bytes() == s.spec_bytes().skip(1),
{
    let ghost bytes = s.spec_bytes();
    proof {
        encode_utf8_valid_utf8(s@);
        reveal_with_fuel(is_char_boundary, 2);
        reveal_with_fuel(valid_utf8, 2);
        assert(is_char_boundary(bytes, 1));
    }
    let parts = s.split_at(1);
    proof {
        assert(bytes.skip(1) =~= bytes.subrange(1, bytes.len() as int));
    }
    parts.1
}

/// Appends `piece` to `text`.
pub fn append_text(text: &mut String, piece: &str)
    ensures
        final(text)@ == old(text)@ + piece@,
        encode_utf8(final(text)@) == encode_utf8(old(text)@) + piece.spec_bytes(),
{
    proof {
        lemma_encode_concat(text@, piece@);
    }
    text.append(piece);
}

/// Whether `a` comes before `b` in the order of their bytes: at the first
/// place where they differ `a` has the lower byte, or `a` ends there and
/// `b` goes on.
pub open spec fn comes_before(a: Seq<u8>, b: Seq<u8>) -> bool
    decreases a.len(),
{
    if b.len() == 0 {
        false
    } else if a.len() == 0 {
        true
    } else if a[0] != b[0] {
        a[0] < b[0]
    } else {
        comes_before(a.skip(1), b.skip(1))
    }
}

/// No text comes before itself.
pub proof fn lemma_order_irreflexive(a: Seq<u8>)
    ensures
        !comes_before(a, a),
    decreases a.len(),
{
    if a.len() > 0 {
        lemma_order_irreflexive(a.skip(1));
    }
}

/// What comes before a text comes before all that the text comes before.
pub proof fn lemma_order_transitive(a: Seq<u8>, b: Seq<u8>, c: Seq<u8>)
    requires
        comes_before(a, b),
        comes_before(b, c),
    ensures
        comes_before(a, c),
    decreases a.len(),
{
    if a.len() > 0 && b.len() > 0 && c.len() > 0 && a[0] == b[0] && b[0] == c[0] {
        lemma_order_transitive(a.skip(1), b.skip(1), c.skip(1));
    }
}

/// Of two different texts one comes before the other.
pub proof fn lemma_order_total(a: Seq<u8>, b: Seq<u8>)
    ensures
        a == b || comes_before(a, b) || comes_before(b, a),
    decreases a.len(),
{
    if a.len() > 0 && b.len() > 0 && a[0] == b[0] {
        lemma_order_total(a.skip(1), b.skip(1));
        if a.skip(1) == b.skip(1) {
            assert(a =~= seq![a[0]] + a.skip(1));
            assert(b =~= seq![b[0]] + b.skip(1));
        }
    } else if a.len() == 0 && b.len() == 0 {
        assert(a =~= b);
    }
}

/// How two texts stand to each other in the order of their bytes.
#[derive(Debug, Clone, Copy, PartialEq, Eq, Structural)]
pub enum Place {
    Before,
    Same,
    After,
}

/// Compares two texts in the order of their bytes.
pub fn place_of(a: &[u8], b: &[u8]) -> (place: Place)
    ensures
        place is Before <==> comes_before(a@, b@),
        place is Same <==> a@ == b@,
        place is After <==> comes_before(b@, a@),
{
    let mut i: usize = 0;
    proof {
        assert(a@.skip(0) =~= a@);
        assert(b@.skip(0) =~= b@);
    }
    while i < a.len() && i < b.len()
        invariant
            i <= a.len(),
            i <= b.len(),
            a@.take(i as int) == b@.take(i as int),
            comes_before(a@, b@) == comes_before(a@.skip(i as int), b@.skip(i as int)),
            comes_before(b@, a@) == comes_before(b@.skip(i as int), a@.skip(i as int)),
        decreases a.len() - i,
    {
        proof {
            assert(a@.skip(i as int).skip(1) =~= a@.skip(i + 1));
            assert(b@.skip(i as int).skip(1) =~= b@.skip(i + 1));
            assert(a@.skip(i as int)[0] == a@[i as int]);
            assert(b@.skip(i as int)[0] == b@[i as int]);
        }
        if a[i] < b[i] {
            assert(a@ != b@);
            return Place::Before;
        }
        if a[i] > b[i] {
            assert(a@ != b@);
            return Place::After;
        }
        proof {
            assert(a@.take(i + 1) =~= a@.take(i as int).push(a@[i as int]));
            assert(b@.take(i + 1) =~= b@.take(i as int).push(b@[i as int]));
        }
        i = i + 1;
    }
    if i < b.len() {
        assert(a@.len() != b@.len());
        Place::Before
    } else if i < a.len() {
        assert(a@.len() != b@.len());
        Place::After
    } else {
        proof {
            assert(a@.take(i as int) =~= a@);
            assert(b@.take(i as int) =~= b@);
            lemma_order_irreflexive(a@);
        }
        Place::Same
    }
}

/// The bytes of each of `texts`.
pub open spec fn bytes_of(texts: Seq<String>) -> Seq<Seq<u8>> {
    texts.map_values(|text: String| encode_utf8(text@))
}

/// Whether every text of `texts` comes before those after it, so that
/// none occurs twice.
pub open spec fn ascending(texts: Seq<Seq<u8>>) -> bool {
    forall|i: int, j: int| 0 <= i < j < texts.len() ==> comes_before(texts[i], texts[j])
}

/// Puts `item` in its place in the ascending `list`, unless the list holds
/// the same text already.
pub fn insert_ascending(list: &mut Vec<String>, item: String)
    requires
        ascending(bytes_of(old(list)@)),
    ensures
        ascending(bytes_of(final(list)@)),
        bytes_of(final(list)@).to_set() == bytes_of(old(list)@).to_set().insert(
            encode_utf8(item@),
        ),
{
    let ghost before = bytes_of(list@);
    let ghost new = encode_utf8(item@);
    let mut at: usize = 0;
    while at < list.len()
        invariant
            at <= list.len(),
            bytes_of(list@) == before,
            ascending(before),
            list@ == old(list)@,
            new == encode_utf8(item@),
            forall|i: int| 0 <= i < at ==> comes_before(before[i], new),
        ensures
            at <= list.len(),
            at < list.len() ==> comes_before(new, before[at as int]),
        decreases list.len() - at,
    {
        match place_of(list[at].as_str().as_bytes(), item.as_str().as_bytes()) {
            Place::Before => {
                assert(before[at as int] == encode_utf8(list@[at as int]@));
            },
            Place::Same => {
                proof {
                    assert(before[at as int] == new);
                    assert(before.to_set().insert(new) =~= before.to_set());
                }
                return;
            },
            Place::After => {
                assert(before[at as int] == encode_utf8(list@[at as int]@));
                break;
            },
        }
        at = at + 1;
    }
    list.insert(at, item);
    proof {
        let after = bytes_of(list@);
        assert(after =~= before.insert(at as int, new));
        assert forall|i: int, j: int| 0 <= i < j < after.len() implies comes_before(
            after[i],
            after[j],
        ) by {
            if j == at {
                assert(after[i] == before[i]);
            } else if i == at {
                assert(after[j] == before[j - 1]);
                if j - 1 > at {
                    lemma_order_transitive(new, before[at as int], before[j - 1]);
                }
            } else {
                let io = if i < at {
                    i
                } else {
                    i - 1
                };
                let jo = if j < at {
                    j
                } else {
                    j - 1
                };
                assert(after[i] == before[io] && after[j] == before[jo]);
            }
        }
        assert forall|text: Seq<u8>| after.to_set().contains(text) <==> before.to_set().insert(
            new,
        ).contains(text) by {
            if after.contains(text) {
                let k = choose|k: int| 0 <= k < after.len() && after[k] == text;
                if k < at {
                    assert(before[k] == text);
                } else if k > at {
                    assert(before[k - 1] == text);
                }
            }
            if before.contains(text) {
                let k = choose|k: int| 0 <= k < before.len() && before[k] == text;
                if k < at {
                    assert(after[k] == text);
                } else {
                    assert(after[k + 1] == text);
                }
            }
            if text == new {
                assert(after[at as int] == text);
            }
        }
        assert(after.to_set() =~= before.to_set().insert(new));
    }
}

/// The byte of the slash, which parts the names in a path.
pub const SLASH: u8 = 47;

/// Where the file name begins in `path`: right after its last slash, or
/// at its beginning where it has none.
pub open spec fn file_name_start(path: Seq<u8>) -> nat
    decreases path.len(),
{
    if path.len() == 0 {
        0
    } else if path.last() == SLASH {
        path.len()
    } else {
        file_name_start(path.drop_last())
    }
}

/// The file name in `path`: what follows its last slash.
pub open spec fn file_name(path: Seq<u8>) -> Seq<u8> {
    path.skip(file_name_start(path) as int)
}

/// The file name begins within the path, and holds no slash.
pub proof fn lemma_file_name(path: Seq<u8>)
    ensures
        file_name_start(path) <= path.len(),
        forall|i: int| 0 <= i < file_name(path).len() ==> file_name(path)[i] != SLASH,
    decreases path.len(),
{
    if path.len() > 0 && path.last() != SLASH {
        let shorter = path.drop_last();
        lemma_file_name(shorter);
        assert forall|i: int| 0 <= i < file_name(path).len() implies file_name(path)[i]
            != SLASH by {
            if i < file_name(shorter).len() {
                assert(file_name(shorter)[i] == file_name(path)[i]);
            }
        }
    }
}

/// Scans from the end for where the file name begins in `path`.
pub fn find_file_name(path: &[u8]) -> (start: usize)
    ensures
        start == file_name_start(path@),
        start <= path.len(),
{
    let mut end: usize = path.len();
    assert(path@.take(end as int) =~= path@);
    while end > 0 && path[end - 1] != SLASH
        invariant
            end <= path.len(),
            file_name_start(path@) == file_name_start(path@.take(end as int)),
        decreases end,
    {
        assert(path@.take(end as int).drop_last() =~= path@.take(end - 1));
        end = end - 1;
    }
    end
}

/// A message after the name of what it is about, with a colon and a space
/// between them.
pub open spec fn labelled(label: Seq<char>, message: Seq<char>) -> Seq<char> {
    label + ": "@ + message
}

/// Writes a message after the name of what it is about.
pub fn with_label(label: &str, message: &str) -> (text: String)
    ensures
        text@ == labelled(label@, message@),
{
    let mut text: String = String::from_str(label);
    text.append(": ");
    text.append(message);
    text
}

} // verus!
