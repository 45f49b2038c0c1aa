//! Fortunes: reading them from the text of a fortune file and picking one.
//!
//! A fortune file holds records of one or more lines. A line that holds
//! only a percent sign ends a record. Lines after the last such line
//! belong to no record.

use crate::decimal::{integer_within, Integer};
use crate::lines::{strip_carriage_return, text_lines, CARRIAGE_RETURN, NEWLINE};
use crate::text::{
    append_text, ascending, bytes_of, file_name, find_byte, find_file_name, insert_ascending,
    lemma_span_before, skip_ascii, split_text,
};
use rand::rngs::StdRng;
use rand::seq::SliceRandom;
use rand::SeedableRng;
use vstd::prelude::*;
use vstd::string::{StringExecFns, StringSliceAdditionalSpecFns};
use vstd::utf8::encode_utf8;

verus! {

/// One fortune and the name of the file it came from.
#[derive(Debug, Clone)]
pub struct Fortune {
    pub source: String,
    pub text: String,
}

/// The byte of the percent sign.
pub const PERCENT: u8 = 37;

/// The message for a seed that is no number.
pub open spec fn invalid_seed(val: Seq<char>) -> Seq<char> {
    "\""@ + val + "\" not a valid integer"@
}

/// Reads a seed for the random choice.
pub fn parse_u64(val: &str) -> (parsed: Result<u64, String>)
    ensures
        match parsed {
            Ok(n) => integer_within(val.spec_bytes(), false, 0, u64::MAX as int) == Some(n as int),
            Err(message) => integer_within(val.spec_bytes(), false, 0, u64::MAX as int) is None
                && message@ == invalid_seed(val@),
        },
{
    match u64::from_decimal(val.as_bytes()) {
        Some(n) => Ok(n),
        None => {
            let mut message: String = String::from_str("\"");
            message.append(val);
            message.append("\" not a valid integer");
            Err(message)
        },
    }
}

/// Whether `line` ends a record: it holds a percent sign and nothing else.
pub open spec fn is_separator(line: Seq<u8>) -> bool {
    line.len() == 1 && line[0] == PERCENT
}

/// The lines of a record put together, with a newline between each two.
pub open spec fn joined(lines: Seq<Seq<u8>>) -> Seq<u8>
    decreases lines.len(),
{
    if lines.len() == 0 {
        Seq::empty()
    } else if lines.len() == 1 {
        lines[0]
    } else {
        joined(lines.drop_last()) + seq![NEWLINE] + lines.last()
    }
}

/// The texts of the records that `lines` complete, where the lines in
/// `pending` came before them and belong to the first. A separator after no
/// line at all completes nothing.
pub open spec fn records(lines: Seq<Seq<u8>>, pending: Seq<Seq<u8>>) -> Seq<Seq<u8>>
    decreases lines.len(),
{
    if lines.len() == 0 {
        Seq::empty()
    } else if !is_separator(lines[0]) {
        records(lines.skip(1), pending.push(lines[0]))
    } else if pending.len() > 0 {
        seq![joined(pending)] + records(lines.skip(1), Seq::empty())
    } else {
        records(lines.skip(1), Seq::empty())
    }
}

/// The texts of the fortunes in the contents of a fortune file.
pub open spec fn fortune_texts(content: Seq<u8>) -> Seq<Seq<u8>> {
    records(text_lines(content), Seq::empty())
}

/// Takes the first line off `rest`: the line without its terminator, and
/// what follows it.
fn next_line<'a>(rest: &'a str) -> (parts: (&'a str, &'a str))
    requires
        rest.spec_bytes().len() > 0,
    ensures
        text_lines(rest.spec_bytes()) == seq![parts.0.spec_bytes()] + text_lines(
            parts.1.spec_bytes(),
        ),
        parts.1.spec_bytes().len() < rest.spec_bytes().len(),
{
    let bytes: &[u8] = rest.as_bytes();
    let at: usize = find_byte(bytes, NEWLINE);
    proof {
        lemma_span_before(bytes@, NEWLINE);
    }
    if at >= bytes.len() {
        let parts = split_text(rest, at);
        assert(bytes@.take(at as int) =~= bytes@);
        assert(parts.1.spec_bytes().len() == 0);
        assert(text_lines(parts.1.spec_bytes()) =~= Seq::<Seq<u8>>::empty());
        assert(seq![bytes@] + Seq::<Seq<u8>>::empty() =~= seq![bytes@]);
        parts
    } else {
        let (head, tail) = split_text(rest, at);
        let remainder: &str = skip_ascii(tail);
        assert(remainder.spec_bytes() =~= bytes@.skip(at + 1));
        let head_bytes: &[u8] = head.as_bytes();
        if head_bytes.len() > 0 && head_bytes[head_bytes.len() - 1] == CARRIAGE_RETURN {
            let (line, _) = split_text(head, head_bytes.len() - 1);
            assert(line.spec_bytes() =~= strip_carriage_return(bytes@.take(at as int)));
            (line, remainder)
        } else {
            (head, remainder)
        }
    }
}

/// Reads the fortunes in the contents of one fortune file, each with the
/// file's name as its source.
pub fn parse_fortunes(source: &str, content: &str) -> (fortunes: Vec<Fortune>)
    ensures
        fortunes@.len() == fortune_texts(content.spec_bytes()).len(),
        forall|i: int|
            0 <= i < fortunes@.len() ==> {
                &&& (#[trigger] fortunes@[i]).source@ == source@
                &&& encode_utf8(fortunes@[i].text@) == fortune_texts(content.spec_bytes())[i]
            },
{
    let mut fortunes: Vec<Fortune> = Vec::new();
    let mut buffer: String = String::new();
    let mut has_pending: bool = false;
    let mut rest: &str = content;
    let ghost mut pending: Seq<Seq<u8>> = Seq::empty();
    let ghost mut done: Seq<Seq<u8>> = Seq::empty();
    proof {
        reveal_strlit("\n");
        vstd::string::is_ascii_spec_bytes("\n");
        assert("\n".spec_bytes() =~= seq![NEWLINE]);
        assert(done + fortune_texts(content.spec_bytes()) =~= fortune_texts(content.spec_bytes()));
    }
    while rest.as_bytes().len() > 0
        invariant
            "\n".spec_bytes() == seq![NEWLINE],
            fortune_texts(content.spec_bytes()) == done + records(
                text_lines(rest.spec_bytes()),
                pending,
            ),
            encode_utf8(buffer@) == joined(pending),
            has_pending == (pending.len() > 0),
            fortunes@.len() == done.len(),
            forall|i: int|
                0 <= i < fortunes@.len() ==> {
                    &&& (#[trigger] fortunes@[i]).source@ == source@
                    &&& encode_utf8(fortunes@[i].text@) == done[i]
                },
        decreases rest.spec_bytes().len(),
    {
        let (line, remainder) = next_line(rest);
        let ghost lines = text_lines(rest.spec_bytes());
        let ghost later = text_lines(remainder.spec_bytes());
        proof {
            assert(lines[0] == line.spec_bytes());
            assert(lines.skip(1) =~= later);
        }
        let line_bytes: &[u8] = line.as_bytes();
        if line_bytes.len() == 1 && line_bytes[0] == PERCENT {
            assert(is_separator(lines[0]));
            if has_pending {
                let ghost text = joined(pending);
                fortunes.push(Fortune { source: String::from_str(source), text: buffer });
                buffer = String::new();
                has_pending = false;
                proof {
                    assert(records(lines, pending) == seq![text] + records(later, Seq::empty()));
                    assert(done + (seq![text] + records(later, Seq::empty())) =~= done.push(text)
                        + records(later, Seq::empty()));
                    done = done.push(text);
                    pending = Seq::empty();
                }
            } else {
                assert(pending =~= Seq::<Seq<u8>>::empty());
                assert(records(lines, pending) == records(later, Seq::empty()));
            }
        } else {
            assert(!is_separator(lines[0]));
            assert(records(lines, pending) == records(later, pending.push(lines[0])));
            if has_pending {
                append_text(&mut buffer, "\n");
            }
            append_text(&mut buffer, line);
            has_pending = true;
            proof {
                let longer = pending.push(line.spec_bytes());
                assert(longer.drop_last() =~= pending);
                assert(encode_utf8(buffer@) =~= joined(longer));
                pending = longer;
            }
        }
        rest = remainder;
    }
    proof {
        assert(text_lines(rest.spec_bytes()) =~= Seq::<Seq<u8>>::empty());
        assert(done + Seq::<Seq<u8>>::empty() =~= done);
    }
    fortunes
}

/// The fortunes of several files, each file given as its name and its
/// contents: the source and the text of each fortune, file after file.
pub open spec fn fortunes_of(files: Seq<(String, String)>) -> Seq<(Seq<char>, Seq<u8>)>
    decreases files.len(),
{
    if files.len() == 0 {
        Seq::empty()
    } else {
        fortunes_of(files.drop_last()) + fortune_texts(encode_utf8(files.last().1@)).map_values(
            |text: Seq<u8>| (files.last().0@, text),
        )
    }
}

/// The source and the text of a fortune.
pub open spec fn fortune_view(fortune: Fortune) -> (Seq<char>, Seq<u8>) {
    (fortune.source@, encode_utf8(fortune.text@))
}

/// Reads the fortunes of several fortune files, each given as its name and
/// its contents.
pub fn read_fortunes(files: &[(String, String)]) -> (fortunes: Vec<Fortune>)
    ensures
        fortunes@.map_values(|f: Fortune| fortune_view(f)) == fortunes_of(files@),
{
    let mut fortunes: Vec<Fortune> = Vec::new();
    let mut n: usize = 0;
    assert(files@.take(0) =~= Seq::<(String, String)>::empty());
    while n < files.len()
        invariant
            n <= files.len(),
            fortunes@.map_values(|f: Fortune| fortune_view(f)) == fortunes_of(files@.take(n as int)),
        decreases files.len() - n,
    {
        let ghost before = fortunes@;
        let mut more: Vec<Fortune> = parse_fortunes(files[n].0.as_str(), files[n].1.as_str());
        let ghost added = more@;
        fortunes.append(&mut more);
        proof {
            let file = files@[n as int];
            let texts = fortune_texts(encode_utf8(file.1@));
            assert(files@.take(n + 1).drop_last() =~= files@.take(n as int));
            assert(files@.take(n + 1).last() == file);
            assert(added.map_values(|f: Fortune| fortune_view(f)) =~= texts.map_values(
                |text: Seq<u8>| (file.0@, text),
            ));
            assert(fortunes@.map_values(|f: Fortune| fortune_view(f)) =~= before.map_values(
                |f: Fortune| fortune_view(f),
            ) + added.map_values(|f: Fortune| fortune_view(f)));
        }
        n = n + 1;
    }
    assert(files@.take(n as int) =~= files@);
    fortunes
}

/// Whether the file at `path` is an index file, which holds no fortunes:
/// its file name ends with `.dat` after at least one other byte.
pub open spec fn is_index_file(path: Seq<u8>) -> bool {
    file_name(path).len() > 4 && file_name(path).skip(file_name(path).len() - 4) == seq![
        46u8,
        100u8,
        97u8,
        116u8,
    ]
}

/// Whether the file at `path` is an index file.
pub fn names_index_file(path: &str) -> (index: bool)
    ensures
        index == is_index_file(path.spec_bytes()),
{
    let bytes: &[u8] = path.as_bytes();
    let start: usize = find_file_name(bytes);
    let len: usize = bytes.len();
    if len - start <= 4 {
        return false;
    }
    let ghost name = file_name(bytes@);
    let ghost end = name.skip(name.len() - 4);
    proof {
        assert(end[0] == bytes@[len - 4]);
        assert(end[1] == bytes@[len - 3]);
        assert(end[2] == bytes@[len - 2]);
        assert(end[3] == bytes@[len - 1]);
    }
    let index: bool = bytes[len - 4] == 46 && bytes[len - 3] == 100 && bytes[len - 2] == 97
        && bytes[len - 1] == 116;
    proof {
        if index {
            assert(end =~= seq![46u8, 100u8, 97u8, 116u8]);
        }
    }
    index
}

/// The files among `paths` that hold fortunes: all but the index files.
pub open spec fn fortune_files(paths: Seq<String>) -> Set<Seq<u8>> {
    Set::new(|path: Seq<u8>| !is_index_file(path) && bytes_of(paths).contains(path))
}

/// Picks the fortune files among the files that were found: all but the
/// index files, each once, in the order of their paths.
pub fn find_files(paths: &[String]) -> (files: Vec<String>)
    ensures
        ascending(bytes_of(files@)),
        bytes_of(files@).to_set() == fortune_files(paths@),
{
    let mut files: Vec<String> = Vec::new();
    let mut n: usize = 0;
    proof {
        assert(bytes_of(files@).to_set() =~= fortune_files(paths@.take(0)));
    }
    while n < paths.len()
        invariant
            n <= paths.len(),
            ascending(bytes_of(files@)),
            bytes_of(files@).to_set() == fortune_files(paths@.take(n as int)),
        decreases paths.len() - n,
    {
        let ghost before = bytes_of(paths@.take(n as int));
        let ghost after = bytes_of(paths@.take(n + 1));
        let ghost path = encode_utf8(paths@[n as int]@);
        proof {
            assert(after =~= before.push(path));
            assert forall|text: Seq<u8>| after.contains(text) <==> (before.contains(text) || text
                == path) by {
                if after.contains(text) {
                    let k = choose|k: int| 0 <= k < after.len() && after[k] == text;
                    if k < n {
                        assert(before[k] == text);
                    }
                }
                if before.contains(text) {
                    let k = choose|k: int| 0 <= k < before.len() && before[k] == text;
                    assert(after[k] == text);
                }
                if text == path {
                    assert(after[n as int] == text);
                }
            }
        }
        if !names_index_file(paths[n].as_str()) {
            insert_ascending(&mut files, paths[n].clone());
            assert(fortune_files(paths@.take(n + 1)) =~= fortune_files(
                paths@.take(n as int),
            ).insert(path));
        } else {
            assert(fortune_files(paths@.take(n + 1)) =~= fortune_files(paths@.take(n as int)));
        }
        n = n + 1;
    }
    assert(paths@.take(n as int) =~= paths@);
    files
}

/// The index of the fortune that a generator seeded with `seed` picks among
/// `len` of them.
pub uninterp spec fn seeded_index(seed: u64, len: nat) -> nat;

/// Picks one of `fortunes` with a generator seeded with `seed`, by
/// `SliceRandom::choose` on a `StdRng` made by `SeedableRng::seed_from_u64`.
/// An empty slice gives nothing. Otherwise the pick is the element at an
/// index below the length, and that index depends on the seed and the length
/// alone.
#[verifier::external_body]
fn choose_seeded(fortunes: &[Fortune], seed: u64) -> (chosen: Option<&Fortune>)
    ensures
        chosen is None <==> fortunes@.len() == 0,
        chosen matches Some(fortune) ==> seeded_index(seed, fortunes@.len()) < fortunes@.len()
            && *fortune == fortunes@[seeded_index(seed, fortunes@.len()) as int],
{
    fortunes.choose(&mut StdRng::seed_from_u64(seed))
}

/// Picks one of `fortunes` at random, by `SliceRandom::choose` on
/// `rand::thread_rng`. An empty slice gives nothing. Otherwise the pick is
/// one of the elements; which one is not said.
#[verifier::external_body]
fn choose_random(fortunes: &[Fortune]) -> (chosen: Option<&Fortune>)
    ensures
        chosen is None <==> fortunes@.len() == 0,
        chosen matches Some(fortune) ==> exists|i: int|
            0 <= i < fortunes@.len() && *fortune == #[trigger] fortunes@[i],
{
    fortunes.choose(&mut rand::thread_rng())
}

/// The text of the chosen fortune, if one was chosen.
pub fn fortune_text(chosen: Option<&Fortune>) -> (text: Option<String>)
    ensures
        match chosen {
            Some(fortune) => text matches Some(t) && t@ == fortune.text@,
            None => text is None,
        },
{
    match chosen {
        Some(fortune) => Some(fortune.text.clone()),
        None => None,
    }
}

/// Picks a fortune and gives its text: with a seed, the one that the
/// seed stands for; without, any one. Nothing is picked from no fortunes.
pub fn pick_fortune(fortunes: &[Fortune], seed: Option<u64>) -> (text: Option<String>)
    ensures
        text is None <==> fortunes@.len() == 0,
        text matches Some(t) ==> exists|i: int|
            0 <= i < fortunes@.len() && t@ == (#[trigger] fortunes@[i]).text@,
        text matches Some(t) ==> seed matches Some(s) ==> t@ == fortunes@[seeded_index(
            s,
            fortunes@.len(),
        ) as int].text@,
{
    match seed {
        Some(s) => fortune_text(choose_seeded(fortunes, s)),
        None => fortune_text(choose_random(fortunes)),
    }
}

} // verus!
