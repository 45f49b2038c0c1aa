//! Finding files: the kinds of entries that a search can ask for.

use crate::pattern::{is_match, matches_in};
use regex::Regex;
use vstd::prelude::*;
use vstd::string::StringSliceAdditionalSpecFns;

verus! {

/// A kind of directory entry.
#[derive(Debug, Clone, Copy, PartialEq, Eq, Structural)]
pub enum EntryType {
    Dir,
    File,
    Link,
}

/// The kind of entry that the letter `text` stands for: `d` for a
/// directory, `f` for a file, `l` for a link.
pub open spec fn entry_type_of(text: Seq<u8>) -> Option<EntryType> {
    if text.len() != 1 {
        None
    } else if text[0] == 100 {
        Some(EntryType::Dir)
    } else if text[0] == 102 {
        Some(EntryType::File)
    } else if text[0] == 108 {
        Some(EntryType::Link)
    } else {
        None
    }
}

/// Reads the letter of a kind of entry.
pub fn parse_entry_type(val: &str) -> (kind: Option<EntryType>)
    ensures
        kind == entry_type_of(val.spec_bytes()),
{
    let bytes: &[u8] = val.as_bytes();
    if bytes.len() != 1 {
        None
    } else if bytes[0] == 100 {
        Some(EntryType::Dir)
    } else if bytes[0] == 102 {
        Some(EntryType::File)
    } else if bytes[0] == 108 {
        Some(EntryType::Link)
    } else {
        None
    }
}

/// Whether an entry of the kind `kind` is wanted: any entry where no kinds
/// are asked for, and else one whose kind is among them.
pub fn wants(entry_types: &[EntryType], kind: EntryType) -> (wanted: bool)
    ensures
        wanted == (entry_types@.len() == 0 || entry_types@.contains(kind)),
{
    if entry_types.len() == 0 {
        return true;
    }
    let mut i: usize = 0;
    while i < entry_types.len()
        invariant
            i <= entry_types.len(),
            forall|j: int| 0 <= j < i ==> entry_types@[j] != kind,
        decreases entry_types.len() - i,
    {
        if entry_types[i] == kind {
            return true;
        }
        i = i + 1;
    }
    false
}

/// Whether an entry with the file name `file_name` is wanted: any entry
/// where no names are asked for, and else one that some pattern among them
/// matches.
pub fn name_wanted(names: &[Regex], file_name: &str) -> (wanted: bool)
    ensures
        wanted == (names@.len() == 0 || exists|i: int|
            0 <= i < names@.len() && matches_in(&#[trigger] names@[i], file_name.spec_bytes())),
{
    if names.len() == 0 {
        return true;
    }
    let mut i: usize = 0;
    while i < names.len()
        invariant
            i <= names.len(),
            forall|j: int| 0 <= j < i ==> !matches_in(&#[trigger] names@[j], file_name.spec_bytes()),
        decreases names.len() - i,
    {
        if is_match(&names[i], file_name) {
            return true;
        }
        i = i + 1;
    }
    false
}

} // verus!
