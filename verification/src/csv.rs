//! The table of task features that training reads: one row per task.

use crate::stats_map;
use crate::stats_map::{collect_tasks, StatsMap};
use crate::task_stats;
use crate::task_stats::TaskStats;
use crate::text;
use vstd::prelude::*;

verus! {

// ---------------------------------------------------------------------------
// A task's /proc files
// ---------------------------------------------------------------------------

/// The number that the first of `lines` to begin with `field` and a colon gives
/// for it; nothing if there is no such line or no number on it.
pub open spec fn field_in(lines: Seq<Seq<char>>, field: Seq<char>) -> Option<i32>
    decreases lines.len(),
{
    if lines.len() == 0 {
        None
    } else if text::starts_with(lines[0], field.push(':')) {
        text::as_i32(text::trimmed(lines[0].skip(field.len() as int + 1)))
    } else {
        field_in(lines.drop_first(), field)
    }
}

/// The number that a `status` file gives for `field`; nothing if the file could
/// not be read.
pub open spec fn status_field(content: Option<String>, field: Seq<char>) -> Option<i32> {
    match content {
        Some(s) => field_in(text::fields(s@, '\n'), field),
        None => None,
    }
}

/// Read a field (e.g. "Tgid", "PPid") from the contents of
/// `/proc/<tid>/status`.
pub fn read_proc_field(content: &Option<String>, field: &str) -> (r: Option<i32>)
    ensures
        r == status_field(*content, field@),
{
    let file = match content {
        Some(file) => file,
        None => return None,
    };
    let lines = text::split_chars(&text::chars_of(file.as_str()), '\n');
    let mut prefix = text::chars_of(field);
    prefix.push(':');
    let ghost all = text::views(lines@);
    assert(all.skip(0) == all);
    for i in 0..lines.len()
        invariant
            prefix@ == field@.push(':'),
            all == text::views(lines@),
            status_field(*content, field@) == field_in(all, field@),
            field_in(all, field@) == field_in(all.skip(i as int), field@),
    {
        assert(all.skip(i as int)[0] == lines@[i as int]@);
        assert(all.skip(i as int).drop_first() == all.skip(i + 1));
        if let Some(value) = text::strip_prefix(&lines[i], &prefix) {
            return text::parse_i32(&text::trim(&value));
        }
    }
    assert(all.skip(all.len() as int).len() == 0);
    None
}

/// The command name that a `comm` file gives; empty if the file could not be
/// read.
pub open spec fn comm_of(content: Option<String>) -> Seq<char> {
    match content {
        Some(s) => text::trimmed(s@),
        None => Seq::empty(),
    }
}

/// Read the command name from the contents of `/proc/<tid>/comm`.
pub fn read_proc_comm(content: &Option<String>) -> (r: String)
    ensures
        r@ == comm_of(*content),
{
    match content {
        Some(content) => text::trim_text(content.as_str()),
        None => String::new(),
    }
}

// ---------------------------------------------------------------------------
// Header and rows
// ---------------------------------------------------------------------------

/// The columns of the table.
pub open spec fn columns() -> Seq<Seq<char>> {
    seq!["tid"@, "tgid"@, "ancestor"@, "comm"@] + task_stats::feature_names()
}

/// A task's group as a cell: empty where it is not known.
pub open spec fn tgid_text(tgid: Option<i32>) -> Seq<char> {
    match tgid {
        Some(n) => text::signed_decimal(n as int),
        None => Seq::empty(),
    }
}

/// The cells of a row in front of the features.
pub open spec fn leading_cells(tid: i32, tgid: Option<i32>, ancestor: i32, comm: Seq<char>) -> Seq<
    Seq<char>,
> {
    seq![
        text::signed_decimal(tid as int),
        tgid_text(tgid),
        text::signed_decimal(ancestor as int),
        comm,
    ]
}

/// The texts of a list of strings.
pub open spec fn texts(v: Seq<String>) -> Seq<Seq<char>> {
    v.map_values(|s: String| s@)
}

/// The row of a task: the leading cells, then the features, with commas between
/// them.
pub open spec fn row_text(
    tid: i32,
    tgid: Option<i32>,
    ancestor: i32,
    comm: Seq<char>,
    values: Seq<Seq<char>>,
) -> Seq<char> {
    text::join(leading_cells(tid, tgid, ancestor, comm), ',').push(',') + text::join(values, ',')
}

proof fn lemma_join_four(a: Seq<char>, b: Seq<char>, c: Seq<char>, d: Seq<char>, sep: char)
    ensures
        text::join(seq![a, b, c, d], sep) == a.push(sep) + b.push(sep) + c.push(sep) + d,
{
    reveal_with_fuel(text::join, 5);
    let abcd = seq![a, b, c, d];
    assert(abcd.drop_last() =~= seq![a, b, c]);
    assert(seq![a, b, c].drop_last() =~= seq![a, b]);
    assert(seq![a, b].drop_last() =~= seq![a]);
    assert(text::join(seq![a], sep) =~= a);
    assert(text::join(seq![a, b], sep) =~= a.push(sep) + b);
    assert(text::join(seq![a, b, c], sep) =~= a.push(sep) + b.push(sep) + c);
    assert(text::join(abcd, sep) =~= a.push(sep) + b.push(sep) + c.push(sep) + d);
}

/// The header line.
pub fn csv_header() -> (r: String)
    ensures
        r@ == text::join(columns(), ','),
{
    let names = TaskStats::<u64>::get_feature_names();
    let ghost features = task_stats::feature_names();
    let ghost first = seq!["tid"@, "tgid"@, "ancestor"@, "comm"@];
    let mut header = String::new();
    header.push_str("tid,tgid,ancestor,comm");
    proof {
        reveal_strlit("tid,tgid,ancestor,comm");
        reveal_strlit("tid");
        reveal_strlit("tgid");
        reveal_strlit("ancestor");
        reveal_strlit("comm");
        lemma_join_four("tid"@, "tgid"@, "ancestor"@, "comm"@, ',');
        assert(header@ =~= text::join(first, ','));
        assert(columns().take(4) =~= first);
    }
    for i in 0..names.len()
        invariant
            features == task_stats::feature_names(),
            names@.map_values(|name: &'static str| name@) == features,
            columns().len() == 4 + names@.len(),
            header@ == text::join(columns().take(4 + i), ','),
    {
        let ghost upto = columns().take(4 + i + 1);
        assert(upto.drop_last() == columns().take(4 + i));
        assert(names@.map_values(|name: &'static str| name@)[i as int] == names@[i as int]@);
        assert(upto.last() == names@[i as int]@);
        header.push(',');
        header.push_str(names[i]);
    }
    assert(columns().take(columns().len() as int) == columns());
    header
}

/// Format one task's cells into a row. `ancestor` is the root that its climb has
/// found (1 = not part of a game, or the tracked game's PPID), not its parent.
pub fn task_csv_row(
    tid: i32,
    tgid: Option<i32>,
    ancestor: i32,
    comm: &str,
    values: &Vec<String>,
) -> (r: String)
    ensures
        r@ == row_text(tid, tgid, ancestor, comm@, texts(values@)),
{
    let mut row = String::new();
    text::push_signed(&mut row, tid);
    row.push(',');
    if let Some(tgid) = tgid {
        text::push_signed(&mut row, tgid);
    }
    row.push(',');
    text::push_signed(&mut row, ancestor);
    row.push(',');
    row.push_str(comm);
    let ghost cells = leading_cells(tid, tgid, ancestor, comm@);
    proof {
        lemma_join_four(cells[0], cells[1], cells[2], cells[3], ',');
        assert(row@ =~= text::join(cells, ','));
    }
    row.push(',');
    let ghost start = row@;
    let ghost all = texts(values@);
    assert(start + text::join(all.take(0), ',') =~= start);
    for i in 0..values.len()
        invariant
            all == texts(values@),
            row@ == start + text::join(all.take(i as int), ','),
    {
        let ghost upto = all.take(i + 1);
        assert(upto.drop_last() == all.take(i as int));
        assert(upto.last() == values@[i as int]@);
        if i > 0 {
            row.push(',');
        }
        row.push_str(values[i].as_str());
        assert(row@ =~= start + text::join(upto, ','));
    }
    assert(all.take(all.len() as int) == all);
    row
}

// ---------------------------------------------------------------------------
// The whole table
// ---------------------------------------------------------------------------

/// Lines of text, each ended by a newline.
pub open spec fn lines_text(lines: Seq<Seq<char>>) -> Seq<char>
    decreases lines.len(),
{
    if lines.len() == 0 {
        Seq::empty()
    } else {
        lines_text(lines.drop_last()) + lines.last().push('\n')
    }
}

/// The texts of a list of rows.
pub open spec fn row_texts(rows: Seq<(i32, String)>) -> Seq<Seq<char>> {
    rows.map_values(|row: (i32, String)| row.1@)
}

/// The table with these rows: the header first, one line each.
pub fn csv_document(rows: &Vec<(i32, String)>) -> (r: String)
    ensures
        r@ == lines_text(seq![text::join(columns(), ',')] + row_texts(rows@)),
{
    let mut out = csv_header();
    let ghost header = seq![out@];
    let ghost all = header + row_texts(rows@);
    out.push('\n');
    proof {
        reveal_with_fuel(lines_text, 2);
        assert(all.take(1) =~= header);
        assert(header.drop_last() =~= Seq::<Seq<char>>::empty());
        assert(out@ =~= lines_text(all.take(1)));
    }
    for i in 0..rows.len()
        invariant
            all == seq![text::join(columns(), ',')] + row_texts(rows@),
            out@ == lines_text(all.take(i + 1)),
    {
        let ghost upto = all.take(i + 2);
        assert(upto.drop_last() == all.take(i + 1));
        assert(upto.last() == rows@[i as int].1@);
        out.push_str(rows[i].1.as_str());
        out.push('\n');
        assert(out@ =~= lines_text(upto));
    }
    assert(all.take(all.len() as int) == all);
    out
}

/// Whether `row` is the row of the task `tid`: its statistics, and what its
/// files, as `status` and `comm` hand them over, and `values` say of it.
pub open spec fn is_row_of<
    S,
    F: Fn(i32) -> Option<String>,
    G: Fn(i32) -> Option<String>,
    V: Fn(TaskStats<S>) -> Vec<String>,
>(
    tid: i32,
    ts: TaskStats<S>,
    status: F,
    comm: G,
    values: V,
    row: (i32, String),
) -> bool {
    &&& row.0 == tid
    &&& exists|status_file: Option<String>, comm_file: Option<String>, cells: Vec<String>|
        {
            &&& #[trigger] call_ensures(status, (tid,), status_file)
            &&& #[trigger] call_ensures(comm, (tid,), comm_file)
            &&& #[trigger] call_ensures(values, (ts,), cells)
            &&& row.1@ == row_text(
                tid,
                status_field(status_file, "Tgid"@),
                ts.ancestor,
                comm_of(comm_file),
                texts(cells@),
            )
        }
}

fn row_of<
    S: Copy,
    F: Fn(i32) -> Option<String>,
    G: Fn(i32) -> Option<String>,
    V: Fn(TaskStats<S>) -> Vec<String>,
>(tid: i32, ts: TaskStats<S>, status: &F, comm: &G, values: &V) -> (row: (i32, String))
    requires
        forall|tid: i32| #[trigger] call_requires(*status, (tid,)),
        forall|tid: i32| #[trigger] call_requires(*comm, (tid,)),
        forall|ts: TaskStats<S>| #[trigger] call_requires(*values, (ts,)),
    ensures
        is_row_of(tid, ts, *status, *comm, *values, row),
{
    let status_file = status(tid);
    let tgid = read_proc_field(&status_file, "Tgid");
    let comm_file = comm(tid);
    let name = read_proc_comm(&comm_file);
    let cells = values(ts);
    let row = (tid, task_csv_row(tid, tgid, ts.ancestor, name.as_str(), &cells));
    row
}

/// Pack every eligible task into a row, its ancestor climbed to a root. Returns
/// the rows with their task ids.
///
/// `parent_of` gives the parent of a task without statistics, `status` and
/// `comm` the contents of a task's files, `values` the feature cells.
pub fn collect_data<
    S: Copy,
    P: Fn(i32) -> Option<i32>,
    F: Fn(i32) -> Option<String>,
    G: Fn(i32) -> Option<String>,
    V: Fn(TaskStats<S>) -> Vec<String>,
>(
    stats: &mut StatsMap<S>,
    min_events: u64,
    game_ppid: i32,
    parent_of: &P,
    status: &F,
    comm: &G,
    values: &V,
) -> (rows: Vec<(i32, String)>)
    requires
        forall|p: i32| #[trigger] call_requires(*parent_of, (p,)),
        forall|tid: i32| #[trigger] call_requires(*status, (tid,)),
        forall|tid: i32| #[trigger] call_requires(*comm, (tid,)),
        forall|ts: TaskStats<S>| #[trigger] call_requires(*values, (ts,)),
    ensures
        exists|order: Seq<i32>, tids: Seq<i32>|
            {
                &&& stats_map::is_walk(old(stats)@, order)
                &&& #[trigger] stats_map::collect_cycle(
                    old(stats)@,
                    order,
                    min_events,
                    game_ppid,
                    *parent_of,
                    (final(stats)@, tids),
                )
                &&& rows@.len() == tids.len()
                &&& forall|i: int|
                    0 <= i < tids.len() ==> is_row_of(
                        tids[i],
                        final(stats)@[tids[i]],
                        *status,
                        *comm,
                        *values,
                        #[trigger] rows@[i],
                    )
            },
        stats_map::ancestors_set(old(stats)@) ==> stats_map::ancestors_set(final(stats)@),
{
    let tids = collect_tasks(stats, min_events, game_ppid, parent_of);
    proof {
        let order = choose|order: Seq<i32>| #[trigger]
            stats_map::is_walk(old(stats)@, order) && stats_map::collect_cycle(
                old(stats)@,
                order,
                min_events,
                game_ppid,
                *parent_of,
                (stats@, tids@),
            );
        lemma_rows_are_known(old(stats)@, order, min_events, game_ppid, *parent_of, (stats@, tids@));
    }
    let mut rows: Vec<(i32, String)> = Vec::new();
    for i in 0..tids.len()
        invariant
            forall|tid: i32| #[trigger] call_requires(*status, (tid,)),
            forall|tid: i32| #[trigger] call_requires(*comm, (tid,)),
            forall|ts: TaskStats<S>| #[trigger] call_requires(*values, (ts,)),
            forall|i: int| 0 <= i < tids@.len() ==> stats@.contains_key(#[trigger] tids@[i]),
            rows@.len() == i,
            forall|j: int|
                0 <= j < i ==> is_row_of(
                    tids@[j],
                    stats@[tids@[j]],
                    *status,
                    *comm,
                    *values,
                    #[trigger] rows@[j],
                ),
    {
        let tid = tids[i];
        assert(stats@.contains_key(tids@[i as int]));
        if let Some(ts) = stats.get(tid) {
            rows.push(row_of(tid, ts, status, comm, values));
        }
    }
    rows
}

proof fn lemma_rows_are_known<S, P: Fn(i32) -> Option<i32>>(
    before: Map<i32, TaskStats<S>>,
    order: Seq<i32>,
    min_events: u64,
    game_ppid: i32,
    parent_of: P,
    after: (Map<i32, TaskStats<S>>, Seq<i32>),
)
    requires
        stats_map::collect_cycle(before, order, min_events, game_ppid, parent_of, after),
    ensures
        forall|i: int| 0 <= i < after.1.len() ==> after.0.contains_key(#[trigger] after.1[i]),
    decreases order.len(),
{
    if order.len() > 0 {
        let mid = choose|mid: (Map<i32, TaskStats<S>>, Seq<i32>)| #[trigger]
            stats_map::collect_visit(mid, order.last(), min_events, game_ppid, parent_of, after)
                && stats_map::collect_cycle(
                before,
                order.drop_last(),
                min_events,
                game_ppid,
                parent_of,
                mid,
            );
        lemma_rows_are_known(before, order.drop_last(), min_events, game_ppid, parent_of, mid);
        assert forall|i: int| 0 <= i < after.1.len() implies after.0.contains_key(
            #[trigger] after.1[i],
        ) by {
            if i < mid.1.len() {
                assert(after.1[i] == mid.1[i]);
                assert(mid.0.contains_key(mid.1[i]));
            }
        }
    }
}

/// A row has the header's columns: read back at its commas it gives the cells it
/// was made of, as many as there are columns. That takes a value for each feature
/// and a comm and values without commas.
pub proof fn law_row_has_the_columns(
    tid: i32,
    tgid: Option<i32>,
    ancestor: i32,
    comm: Seq<char>,
    values: Seq<Seq<char>>,
)
    requires
        values.len() == task_stats::feature_names().len(),
        !comm.contains(','),
        forall|i: int| 0 <= i < values.len() ==> !(#[trigger] values[i]).contains(','),
    ensures
        text::fields(row_text(tid, tgid, ancestor, comm, values), ',') == leading_cells(
            tid,
            tgid,
            ancestor,
            comm,
        ) + values,
        text::fields(row_text(tid, tgid, ancestor, comm, values), ',').len() == columns().len(),
{
    let first = leading_cells(tid, tgid, ancestor, comm);
    let cells = first + values;
    lemma_no_comma(tid as int);
    lemma_no_comma(ancestor as int);
    if let Some(n) = tgid {
        lemma_no_comma(n as int);
    }
    assert forall|i: int| 0 <= i < cells.len() implies !(#[trigger] cells[i]).contains(',') by {
        if i >= 4 {
            assert(cells[i] == values[i - 4]);
        }
    }
    text::law_join_by_parts(first, values, ',');
    text::law_split_undoes_join(cells, ',');
}

proof fn lemma_no_comma(n: int)
    ensures
        !text::signed_decimal(n).contains(','),
{
    let size: nat = if n < 0 {
        (-n) as nat
    } else {
        n as nat
    };
    text::law_decimal_round_trip(size);
    let digits = text::decimal(size);
    let s = text::signed_decimal(n);
    if s.contains(',') {
        let i = choose|i: int| 0 <= i < s.len() && s[i] == ',';
        let j = if n < 0 {
            i - 1
        } else {
            i
        };
        if j >= 0 {
            assert(s[i] == digits[j]);
            assert(text::is_digit(digits[j]));
        }
    }
}

/// The table has a line for the header and one for each row, if no row holds a
/// newline; what follows the last newline is empty.
pub proof fn law_document_has_a_line_per_row(lines: Seq<Seq<char>>)
    requires
        forall|i: int| 0 <= i < lines.len() ==> !(#[trigger] lines[i]).contains('\n'),
    ensures
        text::fields(lines_text(lines), '\n') == lines.push(Seq::<char>::empty()),
{
    let parts = lines.push(Seq::<char>::empty());
    lemma_lines_are_joined(lines);
    assert forall|i: int| 0 <= i < parts.len() implies !(#[trigger] parts[i]).contains('\n') by {
        if i < lines.len() {
            assert(parts[i] == lines[i]);
        }
    }
    text::law_split_undoes_join(parts, '\n');
}

proof fn lemma_lines_are_joined(lines: Seq<Seq<char>>)
    ensures
        lines_text(lines) == text::join(lines.push(Seq::<char>::empty()), '\n'),
    decreases lines.len(),
{
    let parts = lines.push(Seq::<char>::empty());
    assert(parts.drop_last() == lines);
    if lines.len() > 0 {
        let front = lines.drop_last();
        lemma_lines_are_joined(front);
        assert(front.push(Seq::<char>::empty()).drop_last() == front);
        assert(lines_text(front) + lines.last() =~= text::join(lines, '\n')) by {
            if front.len() > 0 {
                assert(lines_text(front) =~= text::join(front, '\n').push('\n'));
            }
        }
        assert(lines_text(lines) =~= text::join(lines, '\n').push('\n'));
        assert(text::join(parts, '\n') =~= text::join(lines, '\n').push('\n'));
    } else {
        assert(parts[0] == Seq::<char>::empty());
    }
}

} // verus!
