//! What holds of the files of `/proc` and of every scan, stated of the files and
//! the processes themselves.

use crate::game_task_finder;
use crate::game_task_finder::{Match, ProcEntry, ProcRecord};
use crate::text;
use crate::text_laws;
use vstd::prelude::*;

verus! {

// ---------------------------------------------------------------------------
// Files
// ---------------------------------------------------------------------------

/// An assignment is split at its first `=`, and without one there is none.
pub proof fn law_assignment_splits_at_the_first_equals(name: Seq<char>, value: Seq<char>)
    requires
        !name.contains('='),
    ensures
        game_task_finder::assignment_in(name.push('=') + value) == Some((name, value)),
        game_task_finder::assignment_in(name) is None,
{
    let s = name.push('=') + value;
    let i = name.len() as int;
    assert(s[i] == '=');
    assert forall|j: int| 0 <= j < i implies s[j] != '=' by {
        assert(s[j] == name[j]);
        assert(name.contains(name[j]));
    }
    text_laws::law_first_index_is_the_first(s, '=', i);
    assert(s.contains('='));
    assert(s.take(i) =~= name);
    assert(s.skip(i + 1) =~= value);
}

/// Whether a piece of an environment sets `key` to `value`.
pub open spec fn sets(piece: Seq<u8>, key: Seq<char>, value: Seq<char>) -> bool {
    piece.len() > 0 && !key.contains('=') && text::utf8_lossy(piece) == key.push('=') + value
}

proof fn lemma_piece_sets(piece: Seq<u8>, key: Seq<char>, value: Seq<char>)
    ensures
        game_task_finder::environ_variable(piece) == Some((key, value)) <==> sets(
            piece,
            key,
            value,
        ),
{
    let s = text::utf8_lossy(piece);
    if sets(piece, key, value) {
        law_assignment_splits_at_the_first_equals(key, value);
    }
    if game_task_finder::environ_variable(piece) == Some((key, value)) {
        let i = choose|i: int|
            0 <= i < s.len() && s[i] == '=' && forall|j: int| 0 <= j < i ==> s[j] != '=';
        lemma_first_exists(s, '=');
        text_laws::law_first_index_is_the_first(s, '=', i);
        assert(key =~= s.take(i));
        assert(value =~= s.skip(i + 1));
        assert(s =~= key.push('=') + value);
        assert(!key.contains('=')) by {
            if key.contains('=') {
                let j = choose|j: int| 0 <= j < key.len() && key[j] == '=';
                assert(s[j] == '=');
            }
        }
    }
}

proof fn lemma_first_exists(s: Seq<char>, c: char)
    requires
        s.contains(c),
    ensures
        exists|i: int| 0 <= i < s.len() && s[i] == c && forall|j: int| 0 <= j < i ==> s[j] != c,
    decreases s.len(),
{
    if s.drop_last().contains(c) {
        let front = s.drop_last();
        lemma_first_exists(front, c);
        let i = choose|i: int|
            0 <= i < front.len() && front[i] == c && forall|j: int|
                0 <= j < i ==> front[j] != c;
        assert(s[i] == c);
        assert forall|j: int| 0 <= j < i implies s[j] != c by {
            assert(front[j] == s[j]);
        }
    } else {
        let k = choose|k: int| 0 <= k < s.len() && s[k] == c;
        let i = s.len() - 1;
        assert forall|j: int| 0 <= j < i implies s[j] != c by {
            assert(s.drop_last()[j] == s[j]);
            assert(s[j] == c ==> s.drop_last().contains(c));
        }
        assert(k == i);
    }
}

/// A variable has the value that the last piece to set it gives.
pub proof fn law_last_assignment_counts(
    pieces: Seq<Seq<u8>>,
    i: int,
    key: Seq<char>,
    value: Seq<char>,
)
    requires
        0 <= i < pieces.len(),
        sets(pieces[i], key, value),
        forall|j: int, v: Seq<char>| i < j < pieces.len() ==> !(#[trigger] sets(pieces[j], key, v)),
    ensures
        game_task_finder::environ_variables(pieces).contains_key(key),
        game_task_finder::environ_variables(pieces)[key] == value,
    decreases pieces.len(),
{
    let front = pieces.drop_last();
    let last = pieces.len() - 1;
    lemma_piece_sets(pieces[i], key, value);
    if i < last {
        assert forall|j: int, v: Seq<char>| i < j < front.len() implies !(#[trigger] sets(
            front[j],
            key,
            v,
        )) by {
            assert(front[j] == pieces[j]);
            assert(!sets(pieces[j], key, v));
        }
        assert(front[i] == pieces[i]);
        law_last_assignment_counts(front, i, key, value);
        if let Some((k, v)) = game_task_finder::environ_variable(pieces.last()) {
            lemma_piece_sets(pieces.last(), k, v);
            assert(pieces.last() == pieces[last]);
            assert(k == key ==> !sets(pieces[last], key, v));
        }
    }
}

/// A variable that no piece sets is not there.
pub proof fn law_nothing_else_is_set(pieces: Seq<Seq<u8>>, key: Seq<char>)
    requires
        forall|j: int, v: Seq<char>| 0 <= j < pieces.len() ==> !(#[trigger] sets(pieces[j], key, v)),
    ensures
        !game_task_finder::environ_variables(pieces).contains_key(key),
    decreases pieces.len(),
{
    if pieces.len() > 0 {
        let front = pieces.drop_last();
        assert forall|j: int, v: Seq<char>| 0 <= j < front.len() implies !(#[trigger] sets(
            front[j],
            key,
            v,
        )) by {
            assert(front[j] == pieces[j]);
            assert(!sets(pieces[j], key, v));
        }
        law_nothing_else_is_set(front, key);
        let last = pieces.len() - 1;
        if let Some((k, v)) = game_task_finder::environ_variable(pieces.last()) {
            lemma_piece_sets(pieces.last(), k, v);
            assert(pieces.last() == pieces[last]);
            assert(k == key ==> !sets(pieces[last], key, v));
        }
    }
}

/// The pieces of an environment file are those between its NUL bytes; a file that
/// could not be read sets nothing.
pub proof fn law_environment_is_split_at_nul(raw: Vec<u8>, a: Seq<u8>, b: Seq<u8>)
    requires
        raw@ == a.push(0u8) + b,
    ensures
        game_task_finder::environ_of(Some(raw)) == game_task_finder::environ_variables(
            text::fields(a, 0u8) + text::fields(b, 0u8),
        ),
        game_task_finder::environ_of(None) == Map::<Seq<char>, Seq<char>>::empty(),
{
    text_laws::law_fields_part_at_separator(a, b, 0u8);
}

/// An environment file without a NUL byte is one piece.
pub proof fn law_environment_of_one_piece(raw: Vec<u8>)
    requires
        !raw@.contains(0u8),
    ensures
        game_task_finder::environ_of(Some(raw)) == game_task_finder::environ_variables(seq![raw@]),
{
    text_laws::law_one_field(raw@, 0u8);
}

/// A field is the trimmed text of its file, NUL bytes read as spaces; that of a
/// file that could not be read is empty.
pub proof fn law_field_is_the_text_of_its_file(raw: Vec<u8>, spaced: Seq<u8>)
    requires
        spaced.len() == raw@.len(),
        forall|i: int|
            0 <= i < spaced.len() ==> #[trigger] spaced[i] == (if raw@[i] == 0 {
                32u8
            } else {
                raw@[i]
            }),
    ensures
        game_task_finder::field_of(Some(raw)) == text::trimmed(text::utf8_lossy(spaced)),
        game_task_finder::field_of(None) == Seq::<char>::empty(),
{
    assert(spaced =~= game_task_finder::nul_to_space(raw@));
}

/// The parent in a `stat` line is the second word behind the last `)`, whatever
/// stands in front of it; 0 if that word is missing or no number. A line without
/// a `)` is read from its start.
pub proof fn law_parent_stands_behind_the_comm(head: Seq<char>, rest: Seq<char>)
    requires
        !rest.contains(')'),
    ensures
        ({
            let words = text::words(rest);
            let parent = if words.len() >= 2 && text::as_i32(words[1]) is Some {
                text::as_i32(words[1])->0
            } else {
                0
            };
            &&& game_task_finder::ppid_in(head.push(')') + rest) == parent
            &&& game_task_finder::ppid_in(rest) == parent
        }),
    decreases rest.len(),
{
    let s = head.push(')') + rest;
    lemma_last_paren(head, rest);
    assert(s.skip(head.len() as int + 1) =~= rest);
    assert(rest.skip(0) =~= rest);
}

proof fn lemma_last_paren(head: Seq<char>, rest: Seq<char>)
    requires
        !rest.contains(')'),
    ensures
        game_task_finder::last_paren(head.push(')') + rest) == head.len(),
        game_task_finder::last_paren(rest) == -1,
    decreases rest.len(),
{
    let s = head.push(')') + rest;
    if rest.len() == 0 {
        assert(s =~= head.push(')'));
    } else {
        let front = rest.drop_last();
        assert(!front.contains(')')) by {
            if front.contains(')') {
                let i = choose|i: int| 0 <= i < front.len() && front[i] == ')';
                assert(rest[i] == ')');
            }
        }
        assert(rest.last() != ')') by {
            assert(rest[rest.len() - 1] == rest.last());
        }
        lemma_last_paren(head, front);
        assert(s.drop_last() =~= head.push(')') + front);
    }
}

/// The parent of a process is read from the text of its `stat` file; it is 0 if
/// the file could not be read.
pub proof fn law_parent_of_a_file(raw: Vec<u8>)
    ensures
        game_task_finder::ppid_of(Some(raw)) == game_task_finder::ppid_in(text::utf8_lossy(raw@)),
        game_task_finder::ppid_of(None) == 0,
{
}

/// Of one character, normalisation leaves nothing if it is whitespace, and its
/// lower case otherwise.
pub proof fn law_normalized_character(c: char)
    ensures
        game_task_finder::normalized(Seq::<char>::empty()) == Seq::<char>::empty(),
        text::whitespace(c) ==> game_task_finder::normalized(seq![c]) == Seq::<char>::empty(),
        !text::whitespace(c) ==> game_task_finder::normalized(seq![c]) == text::lowercase(c),
{
    reveal_with_fuel(game_task_finder::normalized, 2);
    assert(seq![c].drop_last() =~= Seq::<char>::empty());
    assert(Seq::<char>::empty() + text::lowercase(c) =~= text::lowercase(c));
}

/// The process ids of a listing are the numbers among its names, in their order:
/// part by part, and name by name.
pub proof fn law_pids_name_by_name(a: Seq<String>, b: Seq<String>, name: String)
    ensures
        game_task_finder::pids_in(a + b) == game_task_finder::pids_in(a)
            + game_task_finder::pids_in(b),
        game_task_finder::pids_in(seq![name]) == (match text::as_i32(name@) {
            Some(pid) => seq![pid],
            None => Seq::<i32>::empty(),
        }),
    decreases b.len(),
{
    reveal_with_fuel(game_task_finder::pids_in, 2);
    assert(seq![name].drop_last() =~= Seq::<String>::empty());
    assert(game_task_finder::pids_in(Seq::<String>::empty()) =~= Seq::<i32>::empty());
    assert(game_task_finder::pids_in(seq![name]) =~= (match text::as_i32(name@) {
        Some(pid) => seq![pid],
        None => Seq::<i32>::empty(),
    }));
    if b.len() == 0 {
        assert(a + b =~= a);
        assert(game_task_finder::pids_in(a) + game_task_finder::pids_in(b)
            =~= game_task_finder::pids_in(a));
    } else {
        law_pids_name_by_name(a, b.drop_last(), name);
        assert((a + b).drop_last() =~= a + b.drop_last());
        assert((a + b).last() == b.last());
        assert(game_task_finder::pids_in(a + b) =~= game_task_finder::pids_in(a)
            + game_task_finder::pids_in(b));
    }
}

// ---------------------------------------------------------------------------
// Scans
// ---------------------------------------------------------------------------

/// Whether `entries` are the processes of `procs` whose parent is `parent`, each
/// with its id and comm, in their order.
pub open spec fn lists_children(
    parent: i32,
    procs: Seq<ProcRecord>,
    entries: Seq<ProcEntry>,
) -> bool {
    let children = procs.filter(|p: ProcRecord| game_task_finder::ppid_of(p.stat) == parent);
    &&& entries.len() == children.len()
    &&& forall|k: int|
        0 <= k < entries.len() ==> (#[trigger] entries[k]).pid == children[k].pid
            && entries[k].comm@ == game_task_finder::field_of(children[k].comm)
}

proof fn lemma_family_is_filtered(parent: i32, procs: Seq<ProcRecord>)
    ensures
        ({
            let children = procs.filter(|p: ProcRecord| game_task_finder::ppid_of(p.stat) == parent);
            let family = game_task_finder::family(parent, procs);
            &&& family.len() == children.len()
            &&& forall|k: int|
                0 <= k < family.len() ==> #[trigger] family[k] == (
                    children[k].pid,
                    game_task_finder::field_of(children[k].comm),
                )
        }),
    decreases procs.len(),
{
    reveal(Seq::filter);
    if procs.len() > 0 {
        lemma_family_is_filtered(parent, procs.drop_last());
    }
}

/// The family of a parent is all its children, in the order of the listing.
pub proof fn law_family_lists_the_children(
    parent: i32,
    procs: Seq<ProcRecord>,
    entries: Seq<ProcEntry>,
)
    requires
        game_task_finder::entry_views(entries) == game_task_finder::family(parent, procs),
    ensures
        lists_children(parent, procs, entries),
{
    lemma_family_is_filtered(parent, procs);
    let family = game_task_finder::family(parent, procs);
    assert(game_task_finder::entry_views(entries).len() == entries.len());
    assert forall|k: int| 0 <= k < entries.len() implies {
        let children = procs.filter(|p: ProcRecord| game_task_finder::ppid_of(p.stat) == parent);
        &&& (#[trigger] entries[k]).pid == children[k].pid
        &&& entries[k].comm@ == game_task_finder::field_of(children[k].comm)
    } by {
        assert(game_task_finder::entry_views(entries)[k] == entries[k]@);
        assert(family[k] == entries[k]@);
    }
}

/// What a match holds: the parent of `procs[i]` and all its children.
pub open spec fn is_family_of(procs: Seq<ProcRecord>, i: int, m: Match) -> bool {
    m.ppid == game_task_finder::ppid_of(procs[i].stat) && lists_children(m.ppid, procs, m.procs@)
}

proof fn lemma_match_is_family(procs: Seq<ProcRecord>, i: int, m: Match)
    requires
        m@ == game_task_finder::match_at(procs, i),
    ensures
        is_family_of(procs, i, m),
{
    assert(m@.0 == m.ppid && m@.1 == game_task_finder::entry_views(m.procs@));
    law_family_lists_the_children(m.ppid, procs, m.procs@);
}

/// A scan by name settles on the first process whose comm has the same normal
/// form as the name, and reports its family; it finds nothing exactly if no
/// process has.
pub proof fn law_name_scan_finds_the_first(
    procs: Seq<ProcRecord>,
    name: Seq<char>,
    r: Option<Match>,
)
    requires
        game_task_finder::first_match(
            procs,
            |p: ProcRecord|
                game_task_finder::is_named(p, game_task_finder::normalized(name)),
            r,
        ),
    ensures
        r is None <==> forall|i: int|
            0 <= i < procs.len() ==> game_task_finder::normalized(
                game_task_finder::field_of((#[trigger] procs[i]).comm),
            ) != game_task_finder::normalized(name),
        r matches Some(m) ==> exists|i: int|
            0 <= i < procs.len() && game_task_finder::normalized(
                game_task_finder::field_of((#[trigger] procs[i]).comm),
            ) == game_task_finder::normalized(name) && is_family_of(procs, i, m) && forall|j: int|
                0 <= j < i ==> game_task_finder::normalized(
                    game_task_finder::field_of((#[trigger] procs[j]).comm),
                ) != game_task_finder::normalized(name),
{
    let q = |p: ProcRecord| game_task_finder::is_named(p, game_task_finder::normalized(name));
    if let Some(m) = r {
        let i = choose|i: int| #![trigger procs[i]]
            0 <= i < procs.len() && q(procs[i]) && m@ == game_task_finder::match_at(procs, i) && (
            forall|j: int| 0 <= j < i ==> !q(#[trigger] procs[j]));
        lemma_match_is_family(procs, i, m);
        assert forall|j: int| 0 <= j < i implies game_task_finder::normalized(
            game_task_finder::field_of((#[trigger] procs[j]).comm),
        ) != game_task_finder::normalized(name) by {
            assert(!q(procs[j]));
        }
        assert(q(procs[i]));
    } else {
        assert forall|i: int| 0 <= i < procs.len() implies game_task_finder::normalized(
            game_task_finder::field_of((#[trigger] procs[i]).comm),
        ) != game_task_finder::normalized(name) by {
            assert(!q(procs[i]));
        }
    }
}

/// Whether a process carries a Steam id in its environment and is none of the
/// four helpers that Steam starts with one.
pub open spec fn is_game(p: ProcRecord) -> bool {
    let env = game_task_finder::environ_of(p.environ);
    let comm = game_task_finder::field_of(p.comm);
    &&& env.contains_key("SteamGameId"@) || env.contains_key("STEAM_GAME"@)
    &&& comm != "reaper"@
    &&& comm != "srt-bwrap"@
    &&& comm != "pv-adverb"@
    &&& comm != "steam.exe"@
}

/// The Steam scan settles on the first process that carries a Steam id and is
/// none of Steam's helpers, and reports its family; it finds nothing exactly if
/// there is none.
pub proof fn law_steam_scan_finds_the_first(procs: Seq<ProcRecord>, r: Option<Match>)
    requires
        game_task_finder::first_match(
            procs,
            |p: ProcRecord| game_task_finder::is_steam_game(p),
            r,
        ),
    ensures
        r is None <==> forall|i: int| 0 <= i < procs.len() ==> !is_game(#[trigger] procs[i]),
        r matches Some(m) ==> exists|i: int|
            0 <= i < procs.len() && is_game(#[trigger] procs[i]) && is_family_of(procs, i, m)
                && forall|j: int| 0 <= j < i ==> !is_game(#[trigger] procs[j]),
{
    let q = |p: ProcRecord| game_task_finder::is_steam_game(p);
    assert forall|p: ProcRecord| #[trigger] is_game(p) <==> game_task_finder::is_steam_game(p) by {}
    if let Some(m) = r {
        let i = choose|i: int| #![trigger procs[i]]
            0 <= i < procs.len() && q(procs[i]) && m@ == game_task_finder::match_at(procs, i) && (
            forall|j: int| 0 <= j < i ==> !q(#[trigger] procs[j]));
        lemma_match_is_family(procs, i, m);
        assert forall|j: int| 0 <= j < i implies !is_game(#[trigger] procs[j]) by {
            assert(!q(procs[j]));
        }
        assert(q(procs[i]));
        assert(is_game(procs[i]));
    } else {
        assert forall|i: int| 0 <= i < procs.len() implies !is_game(#[trigger] procs[i]) by {
            assert(!q(procs[i]));
        }
    }
}

} // verus!
