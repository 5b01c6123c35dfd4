//! What holds of every search: the first match decides, within a directory
//! and across directories, and a search path is parted at its colons and
//! nowhere else.

use crate::resolve::{
    found_in, pieces_from, resolved, resolved_from, search_path_of, stands_for, EntryModel,
};
use crate::text::{join, lemma_join_first};
use vstd::prelude::*;

verus! {

/// Within a directory the first entry that stands for the name decides, and
/// nothing is found only where no entry stands for it.
pub proof fn lemma_found_is_first(entries: Seq<EntryModel>, name: Seq<char>, from: int)
    requires
        0 <= from <= entries.len(),
    ensures
        match found_in(entries, name, from) {
            Some(path) => exists|i: int|
                from <= i < entries.len() && stands_for(#[trigger] entries[i], name)
                    && entries[i].path == path && forall|j: int|
                    from <= j < i ==> !stands_for(#[trigger] entries[j], name),
            None => forall|i: int|
                from <= i < entries.len() ==> !stands_for(#[trigger] entries[i], name),
        },
    decreases entries.len() - from,
{
    if from < entries.len() {
        if stands_for(entries[from], name) {
            assert(forall|j: int| from <= j < from ==> !stands_for(#[trigger] entries[j], name));
        } else {
            lemma_found_is_first(entries, name, from + 1);
            if let Some(path) = found_in(entries, name, from + 1) {
                let i = choose|i: int|
                    from + 1 <= i < entries.len() && stands_for(#[trigger] entries[i], name)
                        && entries[i].path == path && forall|j: int|
                        from + 1 <= j < i ==> !stands_for(#[trigger] entries[j], name);
                assert forall|j: int| from <= j < i implies !stands_for(
                    #[trigger] entries[j],
                    name,
                ) by {
                    if j > from {
                    }
                }
            }
        }
    }
}

/// Across directories the first one that holds a match decides, and a name
/// resolves to nothing only where no directory holds one.
pub proof fn lemma_resolved_is_first(search: Seq<Seq<EntryModel>>, name: Seq<char>, from: int)
    requires
        0 <= from <= search.len(),
    ensures
        match resolved_from(search, name, from) {
            Some(path) => exists|d: int|
                from <= d < search.len() && found_in(#[trigger] search[d], name, 0) == Some(path)
                    && forall|e: int|
                    from <= e < d ==> found_in(#[trigger] search[e], name, 0) is None,
            None => forall|d: int|
                from <= d < search.len() ==> found_in(#[trigger] search[d], name, 0) is None,
        },
    decreases search.len() - from,
{
    if from < search.len() {
        if found_in(search[from], name, 0) is Some {
            assert(forall|e: int|
                from <= e < from ==> found_in(#[trigger] search[e], name, 0) is None);
        } else {
            lemma_resolved_is_first(search, name, from + 1);
            if let Some(path) = resolved_from(search, name, from + 1) {
                let d = choose|d: int|
                    from + 1 <= d < search.len() && found_in(#[trigger] search[d], name, 0) == Some(
                        path,
                    ) && forall|e: int|
                        from + 1 <= e < d ==> found_in(#[trigger] search[e], name, 0) is None;
                assert forall|e: int| from <= e < d implies found_in(
                    #[trigger] search[e],
                    name,
                    0,
                ) is None by {
                    if e > from {
                    }
                }
            }
        }
    }
}

/// A directory without entries, such as one that could not be read, decides
/// nothing: the search goes on as if it were not there.
pub proof fn lemma_empty_directory_is_passed_over(search: Seq<Seq<EntryModel>>, name: Seq<char>)
    ensures
        resolved(seq![Seq::<EntryModel>::empty()] + search, name) == resolved(search, name),
{
    let longer = seq![Seq::<EntryModel>::empty()] + search;
    assert(longer[0] == Seq::<EntryModel>::empty());
    lemma_resolved_shifts(longer, search, name, 0);
}

/// Searching from a position on looks at the directories from there on only.
proof fn lemma_resolved_shifts(
    longer: Seq<Seq<EntryModel>>,
    search: Seq<Seq<EntryModel>>,
    name: Seq<char>,
    from: int,
)
    requires
        0 <= from <= search.len(),
        longer.len() == search.len() + 1,
        forall|d: int| 0 <= d < search.len() ==> longer[d + 1] == search[d],
    ensures
        resolved_from(longer, name, from + 1) == resolved_from(search, name, from),
    decreases search.len() - from,
{
    if from < search.len() {
        lemma_resolved_shifts(longer, search, name, from + 1);
    }
}

/// The pieces from a position on, joined by the separator, are the piece
/// begun before it and what the path holds from there on.
pub proof fn lemma_pieces_rejoin(s: Seq<char>, sep: char, from: int, piece: Seq<char>)
    requires
        0 <= from <= s.len(),
    ensures
        pieces_from(s, sep, from, piece).len() > 0,
        join(pieces_from(s, sep, from, piece), seq![sep]) == piece + s.skip(from),
    decreases s.len() - from,
{
    if from >= s.len() {
        assert(piece + s.skip(from) =~= piece);
    } else if s[from] == sep {
        lemma_pieces_rejoin(s, sep, from + 1, Seq::empty());
        lemma_join_first(piece, pieces_from(s, sep, from + 1, Seq::empty()), seq![sep]);
        assert(piece + seq![sep] + (Seq::<char>::empty() + s.skip(from + 1)) =~= piece + s.skip(
            from,
        ));
    } else {
        lemma_pieces_rejoin(s, sep, from + 1, piece.push(s[from]));
        assert(piece.push(s[from]) + s.skip(from + 1) =~= piece + s.skip(from));
    }
}

/// No piece holds the separator, given that the piece begun holds none.
pub proof fn lemma_pieces_hold_no_separator(
    s: Seq<char>,
    sep: char,
    from: int,
    piece: Seq<char>,
    k: int,
)
    requires
        0 <= from <= s.len(),
        !piece.contains(sep),
        0 <= k < pieces_from(s, sep, from, piece).len(),
    ensures
        !pieces_from(s, sep, from, piece)[k].contains(sep),
    decreases s.len() - from,
{
    if from >= s.len() {
    } else if s[from] == sep {
        if k > 0 {
            assert(!Seq::<char>::empty().contains(sep));
            lemma_pieces_hold_no_separator(s, sep, from + 1, Seq::empty(), k - 1);
        }
    } else {
        let longer = piece.push(s[from]);
        assert(!longer.contains(sep)) by {
            if longer.contains(sep) {
                let i = choose|i: int| 0 <= i < longer.len() && longer[i] == sep;
                if i < piece.len() {
                    assert(piece[i] == sep);
                }
            }
        }
        lemma_pieces_hold_no_separator(s, sep, from + 1, longer, k);
    }
}

/// The directories of a search path, joined by colons, are the path again,
/// and no directory holds a colon: the path is parted at every colon and
/// nowhere else.
pub proof fn lemma_search_path_parts(path: Seq<char>)
    ensures
        search_path_of(path).len() > 0,
        join(search_path_of(path), seq![':']) == path,
        forall|k: int|
            0 <= k < search_path_of(path).len() ==> !(#[trigger] search_path_of(path)[k]).contains(
                ':',
            ),
{
    lemma_pieces_rejoin(path, ':', 0, Seq::empty());
    assert(Seq::<char>::empty() + path.skip(0) =~= path);
    assert forall|k: int| 0 <= k < search_path_of(path).len() implies !(
    #[trigger] search_path_of(path)[k]).contains(':') by {
        assert(!Seq::<char>::empty().contains(':'));
        lemma_pieces_hold_no_separator(path, ':', 0, Seq::empty(), k);
    }
}

} // verus!
