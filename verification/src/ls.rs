//! Listing files: permission strings and which entries are shown.

use crate::decimal::{decimal_string, decimal_text};
use crate::text::{file_name, find_file_name, labelled, with_label};
use tabular::{Row, Table};
use vstd::prelude::*;
use vstd::string::{StringExecFns, StringSliceAdditionalSpecFns};
use vstd::utf8::encode_utf8;

verus! {

/// Whose permissions a triple of mode bits speaks of.
#[derive(Debug, Clone, Copy, PartialEq, Eq, Structural)]
pub enum Owner {
    User,
    Group,
    Other,
}

impl Owner {
    /// The mode bits for reading, writing and executing, in that order.
    pub open spec fn spec_masks(self) -> (u32, u32, u32) {
        match self {
            Owner::User => (0o400u32, 0o200u32, 0o100u32),
            Owner::Group => (0o040u32, 0o020u32, 0o010u32),
            Owner::Other => (0o004u32, 0o002u32, 0o001u32),
        }
    }

    /// The mode bits for reading, writing and executing, in that order.
    pub fn masks(&self) -> (bits: [u32; 3])
        ensures
            bits[0] == self.spec_masks().0,
            bits[1] == self.spec_masks().1,
            bits[2] == self.spec_masks().2,
    {
        match self {
            Owner::User => [0o400, 0o200, 0o100],
            Owner::Group => [0o040, 0o020, 0o010],
            Owner::Other => [0o004, 0o002, 0o001],
        }
    }
}

/// The character for one permission: `granted` where `mode` has the bit
/// `mask`, a dash where it has not.
pub open spec fn permission_char(mode: u32, mask: u32, granted: char) -> char {
    if mode & mask == 0 {
        '-'
    } else {
        granted
    }
}

/// The three permission characters of `owner` in `mode`.
pub open spec fn triple(mode: u32, owner: Owner) -> Seq<char> {
    seq![
        permission_char(mode, owner.spec_masks().0, 'r'),
        permission_char(mode, owner.spec_masks().1, 'w'),
        permission_char(mode, owner.spec_masks().2, 'x'),
    ]
}

/// The nine permission characters of `mode`: user, group, other.
pub open spec fn mode_text(mode: u32) -> Seq<char> {
    triple(mode, Owner::User) + triple(mode, Owner::Group) + triple(mode, Owner::Other)
}

/// Appends to `text` the character for one permission.
fn push_permission(text: &mut String, mode: u32, mask: u32, granted: &str)
    requires
        granted@.len() == 1,
    ensures
        final(text)@ == old(text)@.push(permission_char(mode, mask, granted@[0])),
{
    proof {
        reveal_strlit("-");
    }
    if mode & mask == 0 {
        text.append("-");
        assert(old(text)@ + "-"@ =~= old(text)@.push('-'));
    } else {
        text.append(granted);
        assert(old(text)@ + granted@ =~= old(text)@.push(granted@[0]));
    }
}

/// Appends to `text` the permission characters of `owner` in `mode`.
fn push_triple(text: &mut String, mode: u32, owner: Owner)
    ensures
        final(text)@ == old(text)@ + triple(mode, owner),
{
    proof {
        reveal_strlit("r");
        reveal_strlit("w");
        reveal_strlit("x");
    }
    let bits: [u32; 3] = owner.masks();
    push_permission(text, mode, bits[0], "r");
    push_permission(text, mode, bits[1], "w");
    push_permission(text, mode, bits[2], "x");
    assert(text@ =~= old(text)@ + triple(mode, owner));
}

/// The permissions of `owner` in `mode` as three characters, such as `r-x`.
pub fn mk_triple(mode: u32, owner: Owner) -> (text: String)
    ensures
        text@ == triple(mode, owner),
{
    let mut text: String = String::new();
    push_triple(&mut text, mode, owner);
    assert(text@ =~= triple(mode, owner));
    text
}

/// The permissions in `mode` as nine characters, such as `rwxr-xr-x`.
pub fn format_mode(mode: u32) -> (text: String)
    ensures
        text@ == mode_text(mode),
{
    let mut text: String = String::new();
    push_triple(&mut text, mode, Owner::User);
    push_triple(&mut text, mode, Owner::Group);
    push_triple(&mut text, mode, Owner::Other);
    assert(text@ =~= mode_text(mode));
    text
}

/// A permission string has three characters for each owner, and each is
/// the letter of its permission or a dash.
pub proof fn lemma_mode_text_shape(mode: u32)
    ensures
        mode_text(mode).len() == 9,
        forall|i: int|
            0 <= i < 9 ==> {
                let c = #[trigger] mode_text(mode)[i];
                c == '-' || (i % 3 == 0 && c == 'r') || (i % 3 == 1 && c == 'w') || (i % 3 == 2
                    && c == 'x')
            },
{
}

/// Whether the file at `path` is hidden: its file name begins with a dot.
pub open spec fn hidden(path: Seq<u8>) -> bool {
    file_name(path).len() > 0 && file_name(path)[0] == 46
}

/// Whether a directory entry with the path `path` is listed: all that
/// are not hidden, and the hidden ones where `show_hidden` is set.
pub open spec fn listed(path: Seq<u8>, show_hidden: bool) -> bool {
    show_hidden || !hidden(path)
}

/// Whether a directory entry with this path is listed.
pub fn is_listed(path: &str, show_hidden: bool) -> (shown: bool)
    ensures
        shown == listed(path.spec_bytes(), show_hidden),
{
    let bytes: &[u8] = path.as_bytes();
    let start: usize = find_file_name(bytes);
    show_hidden || !(start < bytes.len() && bytes[start] == 46)
}

/// What stands at a path that is to be listed.
#[derive(Debug, Clone)]
pub enum Listing {
    /// Nothing that could be looked at, and the reason.
    Missing(String),
    /// A file, or anything else that is no directory.
    File,
    /// A directory, and the paths of its entries.
    Directory(Vec<String>),
}

/// The paths to list, and what could not be looked at.
#[derive(Debug)]
pub struct Found {
    /// The paths to list, in the order in which they were found.
    pub files: Vec<String>,
    /// One message for each path that could not be looked at.
    pub errors: Vec<String>,
}

/// The entries among `entries` that are listed, in their order.
pub open spec fn listed_entries(entries: Seq<String>, show_hidden: bool) -> Seq<Seq<char>>
    decreases entries.len(),
{
    if entries.len() == 0 {
        Seq::empty()
    } else if listed(encode_utf8(entries.last()@), show_hidden) {
        listed_entries(entries.drop_last(), show_hidden).push(entries.last()@)
    } else {
        listed_entries(entries.drop_last(), show_hidden)
    }
}

/// The paths to list for one path and what stands there: a file itself,
/// and of a directory the entries that are listed.
pub open spec fn files_at(path: (String, Listing), show_hidden: bool) -> Seq<Seq<char>> {
    match path.1 {
        Listing::Missing(_) => Seq::empty(),
        Listing::File => seq![path.0@],
        Listing::Directory(entries) => listed_entries(entries@, show_hidden),
    }
}

/// The messages for one path and what stands there: for a path that could
/// not be looked at, its name and the reason.
pub open spec fn errors_at(path: (String, Listing)) -> Seq<Seq<char>> {
    match path.1 {
        Listing::Missing(reason) => seq![labelled(path.0@, reason@)],
        _ => Seq::empty(),
    }
}

/// The paths to list for `paths`, path after path.
pub open spec fn files_of(paths: Seq<(String, Listing)>, show_hidden: bool) -> Seq<Seq<char>>
    decreases paths.len(),
{
    if paths.len() == 0 {
        Seq::empty()
    } else {
        files_of(paths.drop_last(), show_hidden) + files_at(paths.last(), show_hidden)
    }
}

/// The messages for `paths`, path after path.
pub open spec fn errors_of(paths: Seq<(String, Listing)>) -> Seq<Seq<char>>
    decreases paths.len(),
{
    if paths.len() == 0 {
        Seq::empty()
    } else {
        errors_of(paths.drop_last()) + errors_at(paths.last())
    }
}

/// The texts of `list`.
pub open spec fn views(list: Seq<String>) -> Seq<Seq<char>> {
    list.map_values(|text: String| text@)
}

/// Collects the paths to list: each file that is given, and the entries
/// of each directory that is given, the hidden ones only where
/// `show_hidden` is set. A path that could not be looked at is passed over
/// with a message.
pub fn find_files(paths: &[(String, Listing)], show_hidden: bool) -> (found: Found)
    ensures
        views(found.files@) == files_of(paths@, show_hidden),
        views(found.errors@) == errors_of(paths@),
{
    let mut files: Vec<String> = Vec::new();
    let mut errors: Vec<String> = Vec::new();
    let mut n: usize = 0;
    proof {
        assert(paths@.take(0) =~= Seq::<(String, Listing)>::empty());
        assert(views(files@) =~= Seq::<Seq<char>>::empty());
        assert(views(errors@) =~= Seq::<Seq<char>>::empty());
    }
    while n < paths.len()
        invariant
            n <= paths.len(),
            views(files@) == files_of(paths@.take(n as int), show_hidden),
            views(errors@) == errors_of(paths@.take(n as int)),
        decreases paths.len() - n,
    {
        let ghost files_before = views(files@);
        let ghost errors_before = views(errors@);
        proof {
            assert(paths@.take(n + 1).drop_last() =~= paths@.take(n as int));
            assert(paths@.take(n + 1).last() == paths@[n as int]);
        }
        match &paths[n].1 {
            Listing::Missing(reason) => {
                errors.push(with_label(paths[n].0.as_str(), reason.as_str()));
                proof {
                    assert(views(errors@) =~= errors_before + errors_at(paths@[n as int]));
                    assert(files_before + files_at(paths@[n as int], show_hidden)
                        =~= files_before);
                }
            },
            Listing::File => {
                files.push(paths[n].0.clone());
                proof {
                    assert(views(files@) =~= files_before + files_at(paths@[n as int], show_hidden));
                    assert(errors_before + errors_at(paths@[n as int]) =~= errors_before);
                }
            },
            Listing::Directory(entries) => {
                let mut k: usize = 0;
                assert(entries@.take(0) =~= Seq::<String>::empty());
                assert(files_before + listed_entries(entries@.take(0), show_hidden)
                    =~= files_before);
                while k < entries.len()
                    invariant
                        k <= entries.len(),
                        views(files@) == files_before + listed_entries(
                            entries@.take(k as int),
                            show_hidden,
                        ),
                    decreases entries.len() - k,
                {
                    let ghost so_far = listed_entries(entries@.take(k as int), show_hidden);
                    proof {
                        assert(entries@.take(k + 1).drop_last() =~= entries@.take(k as int));
                        assert(entries@.take(k + 1).last() == entries@[k as int]);
                    }
                    if is_listed(entries[k].as_str(), show_hidden) {
                        let ghost earlier = views(files@);
                        files.push(entries[k].clone());
                        assert(views(files@) =~= earlier.push(entries@[k as int]@));
                        assert(earlier.push(entries@[k as int]@) =~= files_before + so_far.push(
                            entries@[k as int]@,
                        ));
                    }
                    k = k + 1;
                }
                proof {
                    assert(entries@.take(k as int) =~= entries@);
                    assert(errors_before + errors_at(paths@[n as int]) =~= errors_before);
                }
            },
        }
        n = n + 1;
    }
    assert(paths@.take(n as int) =~= paths@);
    Found { files, errors }
}

/// What the long listing shows of one file.
#[derive(Debug, Clone)]
pub struct LongEntry {
    /// Whether the file is a directory.
    pub is_dir: bool,
    /// The mode bits of the file.
    pub mode: u32,
    /// The number of hard links to the file.
    pub links: u64,
    /// The name of the user who owns the file.
    pub user: String,
    /// The name of the group that owns the file.
    pub group: String,
    /// The size of the file in bytes.
    pub size: u64,
    /// When the file was last modified, as it is to be shown.
    pub modified: String,
    /// The path of the file, as it is to be shown.
    pub path: String,
}

/// The name to show for an owner: the name that was found for the
/// identifier, or else the identifier in digits.
pub fn owner_name(found: Option<String>, id: u32) -> (name: String)
    ensures
        name@ == match found {
            Some(text) => text@,
            None => decimal_text(id as nat),
        },
{
    match found {
        Some(text) => text,
        None => decimal_string(id as u64),
    }
}

/// The mark of the file type: `d` for a directory, a dash for anything
/// else.
pub open spec fn type_mark(is_dir: bool) -> Seq<char> {
    if is_dir {
        "d"@
    } else {
        "-"@
    }
}

/// The cells of the row that shows `entry`.
pub open spec fn long_cells(entry: LongEntry) -> Seq<Seq<char>> {
    seq![
        type_mark(entry.is_dir),
        mode_text(entry.mode),
        decimal_text(entry.links as nat),
        entry.user@,
        entry.group@,
        decimal_text(entry.size as nat),
        entry.modified@,
        entry.path@,
    ]
}

/// The rows that show `entries`, one for each in their order.
pub open spec fn long_rows(entries: Seq<LongEntry>) -> Seq<Seq<Seq<char>>> {
    entries.map_values(|entry: LongEntry| long_cells(entry))
}

/// The layout of a row of the long listing: the type mark and the
/// permissions together, then links, user, group, size, time and path,
/// with numbers aligned to the right.
pub open spec fn long_format() -> Seq<char> {
    "{:<}{:<}  {:>}  {:<}  {:<}  {:>}  {:<}  {:<}"@
}

/// A table that is being filled, `tabular::Table`. What it holds is
/// spoken of through `table_rows` and `table_format`.
#[verifier::external_type_specification]
#[verifier::external_body]
pub struct ExTable(Table);

/// A row that is being filled, `tabular::Row`. What it holds is spoken of
/// through `row_cells`.
#[verifier::external_type_specification]
#[verifier::external_body]
pub struct ExRow(Row);

/// Why a text is no layout, `tabular::Error`. Nothing is known of what is
/// in it.
#[verifier::external_type_specification]
#[verifier::external_body]
pub struct ExTableError(tabular::Error);

/// The texts of the cells that `row` holds, in their order.
pub uninterp spec fn row_cells(row: Row) -> Seq<Seq<char>>;

/// The rows that `table` holds, in their order, each as its cells.
pub uninterp spec fn table_rows(table: Table) -> Seq<Seq<Seq<char>>>;

/// The layout that `table` was made with.
pub uninterp spec fn table_format(table: Table) -> Seq<char>;

/// How many columns the layout `row_spec` has, where it is a layout at
/// all.
pub uninterp spec fn format_columns(row_spec: Seq<char>) -> Option<nat>;

/// The text of a table with the layout `row_spec` and the rows `rows`.
pub uninterp spec fn rendered(row_spec: Seq<char>, rows: Seq<Seq<Seq<char>>>) -> Seq<char>;

/// Makes an empty table by `Table::new_safe`. That succeeds exactly where
/// the text is a layout, and the table then has that layout and no rows.
#[verifier::external_body]
fn new_table(row_spec: &str) -> (made: Result<Table, tabular::Error>)
    ensures
        made is Ok <==> format_columns(row_spec@) is Some,
        made matches Ok(table) ==> table_format(table) == row_spec@ && table_rows(table)
            == Seq::<Seq<Seq<char>>>::empty(),
{
    Table::new_safe(row_spec)
}

/// The number of columns of `table`, by `Table::column_count`: that of
/// the layout it was made with.
#[verifier::external_body]
fn column_count(table: &Table) -> (count: usize)
    ensures
        Some(count as nat) == format_columns(table_format(*table)),
{
    table.column_count()
}

/// Makes an empty row by `Row::new`.
#[verifier::external_body]
fn new_row() -> (row: Row)
    ensures
        row_cells(row) == Seq::<Seq<char>>::empty(),
{
    Row::new()
}

/// Adds a cell with the text `value` at the end of `row`, by
/// `Row::with_cell`.
#[verifier::external_body]
fn with_cell(row: Row, value: &str) -> (longer: Row)
    ensures
        row_cells(longer) == row_cells(row).push(value@),
{
    row.with_cell(value)
}

/// Adds `row` at the end of `table`, by `Table::add_row`, which takes a
/// row with as many cells as the table has columns. The layout stays.
#[verifier::external_body]
fn add_row(table: &mut Table, row: Row)
    requires
        format_columns(table_format(*old(table))) == Some(row_cells(row).len()),
    ensures
        table_rows(*final(table)) == table_rows(*old(table)).push(row_cells(row)),
        table_format(*final(table)) == table_format(*old(table)),
{
    table.add_row(row);
}

/// Writes `table` out by its `Display`: the text of its layout and rows.
#[verifier::external_body]
fn render(table: &Table) -> (text: String)
    ensures
        text@ == rendered(table_format(*table), table_rows(*table)),
{
    format!("{}", table)
}

/// The row that shows `entry`.
fn long_row(entry: &LongEntry) -> (row: Row)
    ensures
        row_cells(row) == long_cells(*entry),
{
    let mark: &str = if entry.is_dir {
        "d"
    } else {
        "-"
    };
    let row = new_row();
    let row = with_cell(row, mark);
    let row = with_cell(row, format_mode(entry.mode).as_str());
    let row = with_cell(row, decimal_string(entry.links).as_str());
    let row = with_cell(row, entry.user.as_str());
    let row = with_cell(row, entry.group.as_str());
    let row = with_cell(row, decimal_string(entry.size).as_str());
    let row = with_cell(row, entry.modified.as_str());
    let row = with_cell(row, entry.path.as_str());
    assert(row_cells(row) =~= long_cells(*entry));
    row
}

/// Lays `entries` out as the long listing: one line for each, in columns.
/// Nothing is given back only where the layout is not taken as one of eight
/// columns.
pub fn format_output(entries: &[LongEntry]) -> (text: Option<String>)
    ensures
        text is Some <==> format_columns(long_format()) == Some(8nat),
        text matches Some(t) ==> t@ == rendered(long_format(), long_rows(entries@)),
{
    let mut table: Table = match new_table("{:<}{:<}  {:>}  {:<}  {:<}  {:>}  {:<}  {:<}") {
        Ok(table) => table,
        Err(_) => {
            return None;
        },
    };
    if column_count(&table) != 8 {
        return None;
    }
    let mut n: usize = 0;
    assert(long_rows(entries@.take(0)) =~= Seq::<Seq<Seq<char>>>::empty());
    while n < entries.len()
        invariant
            n <= entries.len(),
            table_format(table) == long_format(),
            format_columns(long_format()) == Some(8nat),
            table_rows(table) == long_rows(entries@.take(n as int)),
        decreases entries.len() - n,
    {
        let row = long_row(&entries[n]);
        add_row(&mut table, row);
        assert(long_rows(entries@.take(n + 1)) =~= long_rows(entries@.take(n as int)).push(
            long_cells(entries@[n as int]),
        ));
        n = n + 1;
    }
    assert(entries@.take(n as int) =~= entries@);
    Some(render(&table))
}

} // verus!
