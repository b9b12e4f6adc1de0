//! Find the process family of a running game in what `/proc` says about the
//! running processes.
//!
//! Steam puts `SteamGameId=<appid>` into the environment of a game it launches
//! (older builds `STEAM_GAME=`), so `/proc/<pid>/environ` tells the members of
//! a game's process family. A lookup by comm name serves games typed in by
//! hand.
//!
//! Reading `/proc` is left to the caller, who hands over one [`ProcRecord`]
//! per process.

use crate::text;
use vstd::prelude::*;

verus! {

// ---------------------------------------------------------------------------
// What a scan works on and what it finds
// ---------------------------------------------------------------------------

/// The raw contents of one process's `/proc` files; `None` where a file could
/// not be read.
#[derive(Debug, Clone)]
pub struct ProcRecord {
    pub pid: i32,
    pub stat: Option<Vec<u8>>,
    pub comm: Option<Vec<u8>>,
    pub environ: Option<Vec<u8>>,
}

/// A process discovered during a scan.
#[derive(Debug, Clone)]
pub struct ProcEntry {
    pub pid: i32,
    pub comm: String,
}

impl View for ProcEntry {
    type V = (i32, Seq<char>);

    open spec fn view(&self) -> (i32, Seq<char>) {
        (self.pid, self.comm@)
    }
}

/// Result of a successful scan: the matched PPID and every process under it.
#[derive(Debug, Clone)]
pub struct Match {
    pub ppid: i32,
    pub procs: Vec<ProcEntry>,
}

/// What the entries of a scan result view as.
pub open spec fn entry_views(v: Seq<ProcEntry>) -> Seq<(i32, Seq<char>)> {
    v.map_values(|e: ProcEntry| e@)
}

impl View for Match {
    type V = (i32, Seq<(i32, Seq<char>)>);

    open spec fn view(&self) -> (i32, Seq<(i32, Seq<char>)>) {
        (self.ppid, entry_views(self.procs@))
    }
}

// ---------------------------------------------------------------------------
// One process's files
// ---------------------------------------------------------------------------

/// The name and the value that stand before and after the first `=`.
pub open spec fn assignment_in(s: Seq<char>) -> Option<(Seq<char>, Seq<char>)> {
    if s.contains('=') {
        let i = text::first_index(s, '=');
        Some((s.take(i), s.skip(i + 1)))
    } else {
        None
    }
}

/// Split `name=value` at the first `=`.
pub fn parse_assignment(s: &str) -> (r: Option<(String, String)>)
    ensures
        match r {
            Some((name, value)) => assignment_in(s@) == Some((name@, value@)),
            None => assignment_in(s@) is None,
        },
{
    match text::split_once(&text::chars_of(s), '=') {
        Some((name, value)) => Some((text::string_of(&name), text::string_of(&value))),
        None => None,
    }
}

/// The variable that one NUL-terminated piece of an environment sets, if any.
pub open spec fn environ_variable(piece: Seq<u8>) -> Option<(Seq<char>, Seq<char>)> {
    if piece.len() > 0 {
        assignment_in(text::utf8_lossy(piece))
    } else {
        None
    }
}

/// The variables that the pieces of an environment set; a later one replaces an
/// earlier one of the same name.
pub open spec fn environ_variables(pieces: Seq<Seq<u8>>) -> Map<Seq<char>, Seq<char>>
    decreases pieces.len(),
{
    if pieces.len() == 0 {
        Map::empty()
    } else {
        let front = environ_variables(pieces.drop_last());
        match environ_variable(pieces.last()) {
            Some((k, v)) => front.insert(k, v),
            None => front,
        }
    }
}

/// The environment that a process's `environ` file holds; empty if the file
/// could not be read.
pub open spec fn environ_of(raw: Option<Vec<u8>>) -> Map<Seq<char>, Seq<char>> {
    match raw {
        Some(bytes) => environ_variables(text::fields(bytes@, 0u8)),
        None => Map::empty(),
    }
}

/// A process environment.
pub struct Environ {
    vars: Vec<(String, String)>,
}

spec fn assigned(vars: Seq<(String, String)>) -> Map<Seq<char>, Seq<char>>
    decreases vars.len(),
{
    if vars.len() == 0 {
        Map::empty()
    } else {
        assigned(vars.drop_last()).insert(vars.last().0@, vars.last().1@)
    }
}

impl View for Environ {
    type V = Map<Seq<char>, Seq<char>>;

    closed spec fn view(&self) -> Map<Seq<char>, Seq<char>> {
        assigned(self.vars@)
    }
}

impl Environ {
    /// Whether a variable of this name is set.
    pub fn contains_key(&self, key: &str) -> (r: bool)
        ensures
            r == self@.contains_key(key@),
    {
        let mut found: bool = false;
        for i in 0..self.vars.len()
            invariant
                found == assigned(self.vars@.take(i as int)).contains_key(key@),
        {
            assert(self.vars@.take(i + 1).drop_last() == self.vars@.take(i as int));
            if text::same_text(self.vars[i].0.as_str(), key) {
                found = true;
            }
        }
        assert(self.vars@.take(self.vars@.len() as int) == self.vars@);
        found
    }
}

/// Parse the contents of `/proc/<pid>/environ`.
pub fn read_environ(raw: &Option<Vec<u8>>) -> (r: Environ)
    ensures
        r@ == environ_of(*raw),
{
    let mut vars: Vec<(String, String)> = Vec::new();
    if let Some(bytes) = raw {
        let pieces = text::split_bytes(bytes.as_slice(), 0);
        let ghost all = text::views(pieces@);
        for i in 0..pieces.len()
            invariant
                all == text::views(pieces@),
                assigned(vars@) == environ_variables(all.take(i as int)),
        {
            assert(all.take(i + 1).drop_last() == all.take(i as int));
            assert(all.take(i + 1).last() == pieces@[i as int]@);
            if pieces[i].len() > 0 {
                let piece = text::lossy(pieces[i].as_slice());
                if let Some(assignment) = parse_assignment(piece.as_str()) {
                    let ghost before = vars@;
                    vars.push(assignment);
                    assert(vars@.drop_last() == before);
                }
            }
        }
        assert(all.take(all.len() as int) == all);
    }
    Environ { vars }
}

/// `bytes` with every NUL byte replaced by a space.
pub open spec fn nul_to_space(bytes: Seq<u8>) -> Seq<u8> {
    bytes.map_values(
        |b: u8|
            if b == 0 {
                32u8
            } else {
                b
            },
    )
}

/// The text of a single-field `/proc/<pid>` file; empty if the file could not
/// be read.
pub open spec fn field_of(raw: Option<Vec<u8>>) -> Seq<char> {
    match raw {
        Some(bytes) => text::trimmed(text::utf8_lossy(nul_to_space(bytes@))),
        None => Seq::empty(),
    }
}

/// Parse the contents of a single-field file under `/proc/<pid>` (comm or
/// cmdline): NUL bytes become spaces, surrounding whitespace goes.
pub fn read_field(raw: &Option<Vec<u8>>) -> (r: String)
    ensures
        r@ == field_of(*raw),
{
    match raw {
        Some(bytes) => {
            let mut replaced: Vec<u8> = Vec::new();
            for i in 0..bytes.len()
                invariant
                    replaced@ == nul_to_space(bytes@).take(i as int),
            {
                let b = bytes[i];
                replaced.push(
                    if b == 0 {
                        32
                    } else {
                        b
                    },
                );
                assert(replaced@ =~= nul_to_space(bytes@).take(i + 1));
            }
            assert(replaced@ == nul_to_space(bytes@));
            text::trim_text(text::lossy(replaced.as_slice()).as_str())
        },
        None => String::new(),
    }
}

/// The position of the last `)` in `s`, or -1 if there is none.
pub open spec fn last_paren(s: Seq<char>) -> int
    decreases s.len(),
{
    if s.len() == 0 {
        -1
    } else if s.last() == ')' {
        s.len() - 1
    } else {
        last_paren(s.drop_last())
    }
}

/// The parent that a `stat` line names: `pid (comm) state ppid ...`. The comm
/// may itself hold spaces and parentheses, so the state is the first word after
/// the last `)`. A missing or non-numeric parent counts as 0.
pub open spec fn ppid_in(stat: Seq<char>) -> i32 {
    let after = text::words(stat.skip(last_paren(stat) + 1));
    if after.len() > 1 {
        match text::as_i32(after[1]) {
            Some(ppid) => ppid,
            None => 0,
        }
    } else {
        0
    }
}

/// The parent that a process's `stat` file names; 0 if the file could not be
/// read.
pub open spec fn ppid_of(raw: Option<Vec<u8>>) -> i32 {
    match raw {
        Some(bytes) => ppid_in(text::utf8_lossy(bytes@)),
        None => 0,
    }
}

/// Parse the PPID from the contents of `/proc/<pid>/stat`.
pub fn get_ppid(raw: &Option<Vec<u8>>) -> (r: i32)
    ensures
        r == ppid_of(*raw),
{
    match raw {
        Some(bytes) => {
            let stat = text::lossy(bytes.as_slice());
            parse_stat(stat.as_str())
        },
        None => 0,
    }
}

/// Parse the PPID from a `stat` line.
pub fn parse_stat(stat: &str) -> (r: i32)
    ensures
        r == ppid_in(stat@),
{
    let chars = text::chars_of(stat);
    let mut from: usize = chars.len();
    assert(chars@.take(from as int) == chars@);
    while from > 0 && chars[from - 1] != ')'
        invariant
            from <= chars@.len(),
            last_paren(chars@) == last_paren(chars@.take(from as int)),
        decreases from,
    {
        assert(chars@.take(from as int).drop_last() == chars@.take(from - 1));
        from = from - 1;
    }
    let rest = text::piece(&chars, from, chars.len());
    assert(last_paren(chars@) == from - 1);
    assert(rest@ == chars@.skip(from as int));
    let words = text::split_words(&rest);
    if words.len() > 1 {
        match text::parse_i32(&words[1]) {
            Some(ppid) => ppid,
            None => 0,
        }
    } else {
        0
    }
}

/// `s` with all whitespace removed and the rest in lower case.
pub open spec fn normalized(s: Seq<char>) -> Seq<char>
    decreases s.len(),
{
    if s.len() == 0 {
        Seq::empty()
    } else if text::whitespace(s.last()) {
        normalized(s.drop_last())
    } else {
        normalized(s.drop_last()) + text::lowercase(s.last())
    }
}

/// Whether `s` is ASCII.
pub open spec fn is_ascii(s: Seq<char>) -> bool {
    forall|i: int| 0 <= i < s.len() ==> (#[trigger] s[i]) as u32 <= 0x7f
}

/// What normalisation makes of an ASCII text: all whitespace removed, `A` to `Z`
/// mapped to `a` to `z`.
pub open spec fn ascii_normalized(s: Seq<char>) -> Seq<char>
    decreases s.len(),
{
    if s.len() == 0 {
        Seq::empty()
    } else if text::whitespace(s.last()) {
        ascii_normalized(s.drop_last())
    } else {
        ascii_normalized(s.drop_last()).push(text::ascii_lowercase(s.last()))
    }
}

/// Normalize a comm string for comparison: strip all whitespace, lowercase.
pub fn normalize(s: &str) -> (r: String)
    ensures
        r@ == normalized(s@),
        is_ascii(s@) ==> r@ == ascii_normalized(s@),
{
    let chars = text::chars_of(s);
    let mut r = String::new();
    for i in 0..chars.len()
        invariant
            chars@ == s@,
            r@ == normalized(chars@.take(i as int)),
            is_ascii(s@) ==> r@ == ascii_normalized(chars@.take(i as int)),
    {
        assert(chars@.take(i + 1).drop_last() == chars@.take(i as int));
        assert(is_ascii(s@) ==> chars@[i as int] as u32 <= 0x7f);
        if !chars[i].is_whitespace() {
            let low = text::string_of(&text::lower(chars[i]));
            r.push_str(low.as_str());
        }
    }
    assert(chars@.take(chars@.len() as int) == chars@);
    r
}

/// The directory entry names of `/proc` that are process ids, as numbers.
pub open spec fn pids_in(names: Seq<String>) -> Seq<i32>
    decreases names.len(),
{
    if names.len() == 0 {
        Seq::empty()
    } else {
        let front = pids_in(names.drop_last());
        match text::as_i32(names.last()@) {
            Some(pid) => front.push(pid),
            None => front,
        }
    }
}

/// Keep the numeric entries of a `/proc` listing, in their order.
pub fn pid_entries(names: &Vec<String>) -> (r: Vec<i32>)
    ensures
        r@ == pids_in(names@),
{
    let mut r: Vec<i32> = Vec::new();
    for i in 0..names.len()
        invariant
            r@ == pids_in(names@.take(i as int)),
    {
        assert(names@.take(i + 1).drop_last() == names@.take(i as int));
        if let Some(pid) = text::parse_i32(&text::chars_of(names[i].as_str())) {
            r.push(pid);
        }
    }
    assert(names@.take(names@.len() as int) == names@);
    r
}

// ---------------------------------------------------------------------------
// Scanning
// ---------------------------------------------------------------------------

/// The processes among `procs` whose parent is `parent_pid`, in their order.
pub open spec fn family(parent_pid: i32, procs: Seq<ProcRecord>) -> Seq<(i32, Seq<char>)>
    decreases procs.len(),
{
    if procs.len() == 0 {
        Seq::empty()
    } else {
        let front = family(parent_pid, procs.drop_last());
        let p = procs.last();
        if ppid_of(p.stat) == parent_pid {
            front.push((p.pid, field_of(p.comm)))
        } else {
            front
        }
    }
}

/// List all direct children of `parent_pid`.
pub fn children_of(parent_pid: i32, procs: &Vec<ProcRecord>) -> (r: Vec<ProcEntry>)
    ensures
        entry_views(r@) == family(parent_pid, procs@),
{
    let mut children: Vec<ProcEntry> = Vec::new();
    for i in 0..procs.len()
        invariant
            entry_views(children@) == family(parent_pid, procs@.take(i as int)),
    {
        assert(procs@.take(i + 1).drop_last() == procs@.take(i as int));
        if get_ppid(&procs[i].stat) == parent_pid {
            let ghost before = entry_views(children@);
            let entry = ProcEntry { pid: procs[i].pid, comm: read_field(&procs[i].comm) };
            children.push(entry);
            assert(entry_views(children@) == before.push(entry@));
        }
    }
    assert(procs@.take(procs@.len() as int) == procs@);
    children
}

/// What a scan reports when it settles on `procs[i]`: that process's parent and
/// every process under the same parent.
pub open spec fn match_at(procs: Seq<ProcRecord>, i: int) -> (i32, Seq<(i32, Seq<char>)>) {
    let ppid = ppid_of(procs[i].stat);
    (ppid, family(ppid, procs))
}

/// Whether a process's comm is `target` after normalisation.
pub open spec fn is_named(p: ProcRecord, target: Seq<char>) -> bool {
    normalized(field_of(p.comm)) == target
}

/// Whether an environment marks a Steam-launched process.
pub open spec fn has_steam_id(env: Map<Seq<char>, Seq<char>>) -> bool {
    env.contains_key("SteamGameId"@) || env.contains_key("STEAM_GAME"@)
}

/// Whether a comm is that of a Steam infrastructure process.
pub open spec fn is_steam_infra(comm: Seq<char>) -> bool {
    comm == "reaper"@ || comm == "srt-bwrap"@ || comm == "pv-adverb"@ || comm == "steam.exe"@
}

/// Whether a process was launched by Steam as a game, and is not one of Steam's
/// own helpers.
pub open spec fn is_steam_game(p: ProcRecord) -> bool {
    has_steam_id(environ_of(p.environ)) && !is_steam_infra(field_of(p.comm))
}

/// What a scan that takes the first process to qualify returns: nothing if none
/// does.
pub open spec fn first_match(
    procs: Seq<ProcRecord>,
    qualifies: spec_fn(ProcRecord) -> bool,
    r: Option<Match>,
) -> bool {
    match r {
        None => forall|i: int| 0 <= i < procs.len() ==> !qualifies(#[trigger] procs[i]),
        Some(m) => exists|i: int| #![trigger procs[i]]
            0 <= i < procs.len() && qualifies(procs[i]) && m@ == match_at(procs, i) && (forall|j: int|
                0 <= j < i ==> !qualifies(#[trigger] procs[j])),
    }
}

fn family_match(procs: &Vec<ProcRecord>, i: usize) -> (r: Match)
    requires
        i < procs@.len(),
    ensures
        r@ == match_at(procs@, i as int),
{
    let ppid = get_ppid(&procs[i].stat);
    Match { ppid, procs: children_of(ppid, procs) }
}

/// Look for a process whose comm matches `game_name` (after normalisation),
/// then return that process's PPID together with all processes that share it
/// as their parent.
///
/// Returns None if no process matches the given game name.
pub fn scan_by_game_name(game_name: &str, procs: &Vec<ProcRecord>) -> (r: Option<Match>)
    ensures
        first_match(procs@, |p: ProcRecord| is_named(p, normalized(game_name@)), r),
{
    let target = normalize(game_name);
    for i in 0..procs.len()
        invariant
            target@ == normalized(game_name@),
            forall|j: int| 0 <= j < i ==> !is_named(#[trigger] procs@[j], target@),
    {
        let comm = read_field(&procs[i].comm);
        if normalize(comm.as_str()) == target {
            assert(is_named(procs@[i as int], target@));
            return Some(family_match(procs, i));
        }
    }
    None
}

fn carries_steam_id(env: &Environ) -> (r: bool)
    ensures
        r == has_steam_id(env@),
{
    env.contains_key("SteamGameId") || env.contains_key("STEAM_GAME")
}

fn steam_infra(comm: &str) -> (r: bool)
    ensures
        r == is_steam_infra(comm@),
{
    text::same_text(comm, "reaper") || text::same_text(comm, "srt-bwrap") || text::same_text(
        comm,
        "pv-adverb",
    ) || text::same_text(comm, "steam.exe")
}

/// Look for a process carrying a Steam game id in its environment. On a hit,
/// return the PPID of the first match and every process living under that
/// PPID. Steam infrastructure processes are skipped so the match lands on a
/// real game process. Returns None when nothing is found.
pub fn steam_scan_proc(procs: &Vec<ProcRecord>) -> (r: Option<Match>)
    ensures
        first_match(procs@, |p: ProcRecord| is_steam_game(p), r),
{
    for i in 0..procs.len()
        invariant
            forall|j: int| 0 <= j < i ==> !is_steam_game(#[trigger] procs@[j]),
    {
        let env = read_environ(&procs[i].environ);
        if carries_steam_id(&env) {
            // Skip Steam infrastructure; keep looking for a real game process.
            let comm = read_field(&procs[i].comm);
            if !steam_infra(comm.as_str()) {
                assert(is_steam_game(procs@[i as int]));
                return Some(family_match(procs, i));
            }
        }
    }
    None
}

// ---------------------------------------------------------------------------
// What holds of every scan
// ---------------------------------------------------------------------------

/// A family holds exactly the processes with that parent, each with its comm.
pub proof fn law_family_is_all_children(
    parent_pid: i32,
    procs: Seq<ProcRecord>,
    entry: (i32, Seq<char>),
)
    ensures
        family(parent_pid, procs).contains(entry) <==> exists|i: int|
            0 <= i < procs.len() && ppid_of((#[trigger] procs[i]).stat) == parent_pid && entry == (
                procs[i].pid,
                field_of(procs[i].comm),
            ),
    decreases procs.len(),
{
    if procs.len() > 0 {
        let front = procs.drop_last();
        let last = procs.last();
        law_family_is_all_children(parent_pid, front, entry);
        let before = family(parent_pid, front);
        let all = family(parent_pid, procs);
        let new = (last.pid, field_of(last.comm));
        if all.contains(entry) {
            let k = choose|k: int| 0 <= k < all.len() && all[k] == entry;
            if k < before.len() {
                assert(before[k] == entry);
                assert(before.contains(entry));
                let i = choose|i: int|
                    0 <= i < front.len() && ppid_of((#[trigger] front[i]).stat) == parent_pid
                        && entry == (front[i].pid, field_of(front[i].comm));
                assert(front[i] == procs[i]);
            } else {
                assert(procs[procs.len() - 1] == last);
            }
        }
        if exists|i: int|
            0 <= i < procs.len() && ppid_of((#[trigger] procs[i]).stat) == parent_pid && entry == (
                procs[i].pid,
                field_of(procs[i].comm),
            ) {
            let i = choose|i: int|
                0 <= i < procs.len() && ppid_of((#[trigger] procs[i]).stat) == parent_pid && entry
                    == (procs[i].pid, field_of(procs[i].comm));
            if i < front.len() {
                assert(front[i] == procs[i]);
                assert(before.contains(entry));
                let k = choose|k: int| 0 <= k < before.len() && before[k] == entry;
                assert(all[k] == entry);
            } else {
                assert(all.last() == new);
                assert(all[all.len() - 1] == entry);
            }
        }
    }
}

/// A match holds the process that the scan settled on: it is one of the
/// children of the reported parent, and it qualifies.
pub proof fn law_match_holds_what_was_found(
    procs: Seq<ProcRecord>,
    qualifies: spec_fn(ProcRecord) -> bool,
    m: Match,
)
    requires
        first_match(procs, qualifies, Some(m)),
    ensures
        exists|i: int| #![trigger procs[i]]
            0 <= i < procs.len() && qualifies(procs[i]) && ppid_of(procs[i].stat) == m.ppid
                && m@.1.contains((procs[i].pid, field_of(procs[i].comm))),
        m@.1.len() > 0,
{
    let i = choose|i: int| #![trigger procs[i]]
        0 <= i < procs.len() && qualifies(procs[i]) && m@ == match_at(procs, i) && (forall|j: int|
            0 <= j < i ==> !qualifies(#[trigger] procs[j]));
    law_family_is_all_children(
        ppid_of(procs[i].stat),
        procs,
        (procs[i].pid, field_of(procs[i].comm)),
    );
}

/// A scan finds something exactly if some process qualifies, and then always
/// the same.
pub proof fn law_scan_is_determined(
    procs: Seq<ProcRecord>,
    qualifies: spec_fn(ProcRecord) -> bool,
    a: Option<Match>,
    b: Option<Match>,
)
    requires
        first_match(procs, qualifies, a),
        first_match(procs, qualifies, b),
    ensures
        a is Some <==> exists|i: int| 0 <= i < procs.len() && qualifies(#[trigger] procs[i]),
        a is Some <==> b is Some,
        a is Some ==> a->0@ == b->0@,
{
    if a is Some && b is Some {
        let i = choose|i: int| #![trigger procs[i]]
            0 <= i < procs.len() && qualifies(procs[i]) && a->0@ == match_at(procs, i) && (forall|
                j: int,
            |
                0 <= j < i ==> !qualifies(#[trigger] procs[j]));
        let k = choose|k: int| #![trigger procs[k]]
            0 <= k < procs.len() && qualifies(procs[k]) && b->0@ == match_at(procs, k) && (forall|
                j: int,
            |
                0 <= j < k ==> !qualifies(#[trigger] procs[j]));
        assert(i == k);
    }
}

/// Normalisation works character by character.
pub proof fn law_normalized_by_parts(a: Seq<char>, b: Seq<char>)
    ensures
        normalized(a + b) == normalized(a) + normalized(b),
    decreases b.len(),
{
    if b.len() == 0 {
        assert(a + b == a);
        assert(normalized(b) == Seq::<char>::empty());
        assert(normalized(a) + normalized(b) == normalized(a));
    } else {
        law_normalized_by_parts(a, b.drop_last());
        assert((a + b).drop_last() == a + b.drop_last());
        assert(normalized(a + b) =~= normalized(a) + normalized(b));
    }
}

/// Whitespace makes no difference to a name.
pub proof fn law_whitespace_is_ignored(a: Seq<char>, space: Seq<char>, b: Seq<char>)
    requires
        forall|i: int| 0 <= i < space.len() ==> text::whitespace(#[trigger] space[i]),
    ensures
        normalized(a + space + b) == normalized(a + b),
    decreases space.len(),
{
    if space.len() == 0 {
        assert(a + space == a);
    } else {
        let front = space.drop_last();
        assert forall|i: int| 0 <= i < front.len() implies text::whitespace(
            #[trigger] front[i],
        ) by {
            assert(front[i] == space[i]);
        }
        law_whitespace_is_ignored(a, front, b);
        assert(text::whitespace(space[space.len() - 1]));
        assert((a + space).drop_last() == a + front);
        assert(normalized(a + space) == normalized(a + front));
        law_normalized_by_parts(a + space, b);
        law_normalized_by_parts(a + front, b);
    }
}

/// Whether lower case is settled for the characters of `s`: the lower case of each
/// that is no whitespace holds no whitespace, and its characters are their own
/// lower case.
pub open spec fn lowercase_settles(s: Seq<char>) -> bool {
    forall|i: int, j: int|
        0 <= i < s.len() && !text::whitespace(s[i]) && 0 <= j < text::lowercase(s[i]).len() ==> {
            let c = #[trigger] text::lowercase(s[i])[j];
            !text::whitespace(c) && text::lowercase(c) == seq![c]
        }
}

/// Whether normalising leaves `s` as it is, character by character.
spec fn is_settled(s: Seq<char>) -> bool {
    forall|i: int|
        0 <= i < s.len() ==> !text::whitespace(#[trigger] s[i]) && text::lowercase(s[i]) == seq![
            s[i],
        ]
}

proof fn lemma_settled_stays(s: Seq<char>)
    requires
        is_settled(s),
    ensures
        normalized(s) == s,
    decreases s.len(),
{
    if s.len() > 0 {
        let front = s.drop_last();
        assert forall|i: int| 0 <= i < front.len() implies !text::whitespace(#[trigger] front[i])
            && text::lowercase(front[i]) == seq![front[i]] by {
            assert(front[i] == s[i]);
        }
        lemma_settled_stays(front);
        assert(text::lowercase(s[s.len() - 1]) == seq![s[s.len() - 1]]);
        assert(normalized(s) =~= s);
    }
}

proof fn lemma_normalized_is_settled(s: Seq<char>)
    requires
        lowercase_settles(s),
    ensures
        is_settled(normalized(s)),
    decreases s.len(),
{
    if s.len() > 0 {
        let front = s.drop_last();
        assert(lowercase_settles(front)) by {
            assert forall|i: int, j: int|
                0 <= i < front.len() && !text::whitespace(front[i]) && 0 <= j < text::lowercase(
                    front[i],
                ).len() implies {
                let c = #[trigger] text::lowercase(front[i])[j];
                !text::whitespace(c) && text::lowercase(c) == seq![c]
            } by {
                assert(front[i] == s[i]);
            }
        }
        lemma_normalized_is_settled(front);
        let before = normalized(front);
        let all = normalized(s);
        assert forall|i: int| 0 <= i < all.len() implies !text::whitespace(#[trigger] all[i])
            && text::lowercase(all[i]) == seq![all[i]] by {
            if i < before.len() {
                assert(all[i] == before[i]);
            } else {
                let last = s[s.len() - 1];
                assert(all[i] == text::lowercase(last)[i - before.len()]);
            }
        }
    }
}

/// A normalised name holds no whitespace, and normalising it again changes
/// nothing, where lower case is settled for the characters of the name.
pub proof fn law_normalising_settles(s: Seq<char>)
    requires
        lowercase_settles(s),
    ensures
        forall|i: int|
            0 <= i < normalized(s).len() ==> !text::whitespace(#[trigger] normalized(s)[i]),
        normalized(normalized(s)) == normalized(s),
{
    lemma_normalized_is_settled(s);
    lemma_settled_stays(normalized(s));
}

/// What normalisation makes of an ASCII name is ASCII without whitespace and
/// without capitals, and is left as it is by another normalisation.
pub proof fn law_ascii_normalising_settles(s: Seq<char>)
    requires
        is_ascii(s),
    ensures
        is_ascii(ascii_normalized(s)),
        forall|i: int|
            0 <= i < ascii_normalized(s).len() ==> {
                let c = #[trigger] ascii_normalized(s)[i];
                !text::whitespace(c) && !('A' <= c <= 'Z')
            },
        ascii_normalized(ascii_normalized(s)) == ascii_normalized(s),
    decreases s.len(),
{
    if s.len() > 0 {
        let front = s.drop_last();
        assert(is_ascii(front)) by {
            assert forall|i: int| 0 <= i < front.len() implies (#[trigger] front[i]) as u32
                <= 0x7f by {
                assert(front[i] == s[i]);
            }
        }
        law_ascii_normalising_settles(front);
        let last = s[s.len() - 1];
        if !text::whitespace(last) {
            let before = ascii_normalized(front);
            let all = ascii_normalized(s);
            assert(last as u32 <= 0x7f);
            assert(all.drop_last() =~= before);
            let c = text::ascii_lowercase(last);
            assert(!text::whitespace(c) && !('A' <= c <= 'Z') && c as u32 <= 0x7f);
            assert(all.last() == c);
            assert forall|i: int| 0 <= i < all.len() implies {
                let d = #[trigger] all[i];
                !text::whitespace(d) && !('A' <= d <= 'Z') && d as u32 <= 0x7f
            } by {
                if i < before.len() {
                    assert(all[i] == before[i]);
                }
            }
            assert(ascii_normalized(all) =~= all);
        }
    }
}

} // verus!
