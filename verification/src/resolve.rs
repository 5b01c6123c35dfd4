//! Finding the executable that a command name stands for, among the entries
//! of the directories of a search path.

use vstd::prelude::*;

verus! {

/// One entry of a directory, as the host lists it.
pub struct Entry {
    /// The entry's file name.
    pub name: String,
    /// The entry's path, directory included.
    pub path: String,
    /// Whether the entry is a regular file.
    pub is_file: bool,
}

/// An entry with its texts as sequences of characters.
pub struct EntryModel {
    pub name: Seq<char>,
    pub path: Seq<char>,
    pub is_file: bool,
}

impl DeepView for Entry {
    type V = EntryModel;

    open spec fn deep_view(&self) -> EntryModel {
        EntryModel { name: self.name@, path: self.path@, is_file: self.is_file }
    }
}

/// An entry stands for `name` when it is a regular file with exactly that
/// file name.
pub open spec fn stands_for(entry: EntryModel, name: Seq<char>) -> bool {
    entry.is_file && entry.name == name
}

/// The path of the first entry from position `from` on that stands for `name`.
pub open spec fn found_in(entries: Seq<EntryModel>, name: Seq<char>, from: int) -> Option<
    Seq<char>,
>
    decreases entries.len() - from,
{
    if from < 0 || from >= entries.len() {
        None
    } else if stands_for(entries[from], name) {
        Some(entries[from].path)
    } else {
        found_in(entries, name, from + 1)
    }
}

/// The path that `name` resolves to in the directories from position `from`
/// on: that of the first entry that stands for it in the first directory
/// that has one.
pub open spec fn resolved_from(search: Seq<Seq<EntryModel>>, name: Seq<char>, from: int) -> Option<
    Seq<char>,
>
    decreases search.len() - from,
{
    if from < 0 || from >= search.len() {
        None
    } else {
        match found_in(search[from], name, 0) {
            Some(path) => Some(path),
            None => resolved_from(search, name, from + 1),
        }
    }
}

/// The path that `name` resolves to in the directories of `search`, taken in
/// their order.
pub open spec fn resolved(search: Seq<Seq<EntryModel>>, name: Seq<char>) -> Option<Seq<char>> {
    resolved_from(search, name, 0)
}

/// Looks for `name` among the entries of one directory.
pub fn find_in_directory(entries: &[Entry], name: &str) -> (r: Option<String>)
    ensures
        match r {
            Some(path) => found_in(entries.deep_view(), name@, 0) == Some(path@),
            None => found_in(entries.deep_view(), name@, 0) is None,
        },
{
    let n = entries.len();
    for i in 0..n
        invariant
            n == entries@.len(),
            found_in(entries.deep_view(), name@, 0) == found_in(entries.deep_view(), name@, i as int),
    {
        let entry = &entries[i];
        assert(entries.deep_view()[i as int] == entry.deep_view());
        if entry.is_file && entry.name.as_str().eq(name) {
            return Some(entry.path.clone());
        }
    }
    None
}

/// Resolves a command name: the directories are searched in the order given,
/// and the first that holds a regular file of that name decides. A directory
/// that could not be read has no entries and is passed over.
pub fn resolve_executable(name: &str, search: &[Vec<Entry>]) -> (r: Option<String>)
    ensures
        match r {
            Some(path) => resolved(search.deep_view(), name@) == Some(path@),
            None => resolved(search.deep_view(), name@) is None,
        },
{
    let n = search.len();
    for d in 0..n
        invariant
            n == search@.len(),
            resolved(search.deep_view(), name@) == resolved_from(search.deep_view(), name@, d as int),
    {
        assert(search.deep_view()[d as int] == search@[d as int].deep_view());
        match find_in_directory(search[d].as_slice(), name) {
            Some(path) => {
                return Some(path);
            },
            None => {},
        }
    }
    None
}

/// The pieces of `s` between the occurrences of `sep`, from position `from`
/// on; `piece` is what was read of the current piece before `from`.
pub open spec fn pieces_from(s: Seq<char>, sep: char, from: int, piece: Seq<char>) -> Seq<
    Seq<char>,
>
    decreases s.len() - from,
{
    if from < 0 || from >= s.len() {
        seq![piece]
    } else if s[from] == sep {
        seq![piece] + pieces_from(s, sep, from + 1, Seq::empty())
    } else {
        pieces_from(s, sep, from + 1, piece.push(s[from]))
    }
}

/// The directories of a search path: the pieces between its colons, empty
/// ones included.
pub open spec fn search_path_of(path: Seq<char>) -> Seq<Seq<char>> {
    pieces_from(path, ':', 0, Seq::empty())
}

/// Parts a colon-separated search path into its directories.
pub fn split_search_path(path: &str) -> (r: Vec<String>)
    ensures
        r.deep_view() == search_path_of(path@),
{
    let mut dirs: Vec<String> = Vec::new();
    let mut piece = String::new();
    for ch in it: path.chars()
        invariant
            it.seq() == path@,
            search_path_of(path@) == dirs.deep_view() + pieces_from(
                path@,
                ':',
                it.index() as int,
                piece@,
            ),
    {
        let ghost before = dirs.deep_view();
        let ghost done = piece@;
        if ch == ':' {
            dirs.push(piece);
            piece = String::new();
            assert(dirs.deep_view() =~= before + seq![done]);
            assert(before + (seq![done] + pieces_from(path@, ':', it.index() + 1, piece@))
                =~= dirs.deep_view() + pieces_from(path@, ':', it.index() + 1, piece@));
        } else {
            piece.push(ch);
        }
    }
    let ghost before = dirs.deep_view();
    dirs.push(piece);
    assert(dirs.deep_view() =~= before + seq![piece@]);
    dirs
}

} // verus!
