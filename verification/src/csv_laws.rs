//! What the table of task features looks like.

use crate::csv;
use crate::task_stats::TaskStats;
use crate::text;
use vstd::prelude::*;

verus! {

/// A field is read off the first line that begins with its name and a colon: what
/// follows, without the whitespace around it, as a number.
pub proof fn law_first_line_counts(lines: Seq<Seq<char>>, field: Seq<char>, i: int)
    requires
        0 <= i < lines.len(),
        text::starts_with(lines[i], field + seq![':']),
        forall|j: int|
            0 <= j < i ==> !text::starts_with(#[trigger] lines[j], field + seq![':']),
    ensures
        csv::field_in(lines, field) == text::as_i32(
            text::trimmed(lines[i].skip(field.len() as int + 1)),
        ),
    decreases lines.len(),
{
    assert(field.push(':') =~= field + seq![':']);
    if i > 0 {
        let rest = lines.drop_first();
        assert(!text::starts_with(lines[0], field + seq![':']));
        assert(rest[i - 1] == lines[i]);
        assert forall|j: int| 0 <= j < i - 1 implies !text::starts_with(
            #[trigger] rest[j],
            field + seq![':'],
        ) by {
            assert(rest[j] == lines[j + 1]);
        }
        law_first_line_counts(rest, field, i - 1);
    }
}

/// Without a line for it, a field has no value.
pub proof fn law_no_line_no_value(lines: Seq<Seq<char>>, field: Seq<char>)
    requires
        forall|j: int|
            0 <= j < lines.len() ==> !text::starts_with(#[trigger] lines[j], field + seq![':']),
    ensures
        csv::field_in(lines, field) is None,
    decreases lines.len(),
{
    assert(field.push(':') =~= field + seq![':']);
    if lines.len() > 0 {
        let rest = lines.drop_first();
        assert(!text::starts_with(lines[0], field + seq![':']));
        assert forall|j: int| 0 <= j < rest.len() implies !text::starts_with(
            #[trigger] rest[j],
            field + seq![':'],
        ) by {
            assert(rest[j] == lines[j + 1]);
        }
        law_no_line_no_value(rest, field);
    }
}

/// A field of a file is that of its lines; a file that could not be read has none.
pub proof fn law_field_of_a_file(content: Option<String>, field: Seq<char>)
    ensures
        content is None ==> csv::status_field(content, field) is None,
        content matches Some(s) ==> csv::status_field(content, field) == csv::field_in(
            text::fields(s@, '\n'),
            field,
        ),
{
}

/// A command name is what its file holds, without the whitespace around it; it is
/// empty if the file could not be read.
pub proof fn law_command_name(content: Option<String>)
    ensures
        content is None ==> csv::comm_of(content).len() == 0,
        content matches Some(s) ==> csv::comm_of(content) == text::trimmed(s@),
{
}

/// The columns and their places.
pub proof fn law_column_places()
    ensures
        csv::columns().len() == 10,
        csv::columns()[0] == "tid"@,
        csv::columns()[1] == "tgid"@,
        csv::columns()[2] == "ancestor"@,
        csv::columns()[3] == "comm"@,
        csv::columns()[4] == "runtime_cv"@,
        csv::columns()[5] == "avg_sleep_ms"@,
        csv::columns()[6] == "sleep_cv"@,
        csv::columns()[7] == "yield_ratio"@,
        csv::columns()[8] == "sleep_ratio"@,
        csv::columns()[9] == "runnable_stop_ratio"@,
{
}

/// A row, character by character: the task, its group where that is known, its
/// ancestor and its name, each with a comma behind it, and then the values with
/// commas between them.
pub proof fn law_row_layout(
    tid: i32,
    tgid: i32,
    ancestor: i32,
    comm: Seq<char>,
    values: Seq<Seq<char>>,
)
    ensures
        csv::row_text(tid, Some(tgid), ancestor, comm, values) == text::signed_decimal(tid as int)
            + seq![','] + text::signed_decimal(tgid as int) + seq![','] + text::signed_decimal(
            ancestor as int,
        ) + seq![','] + comm + seq![','] + text::join(values, ','),
        csv::row_text(tid, None, ancestor, comm, values) == text::signed_decimal(tid as int)
            + seq![','] + seq![','] + text::signed_decimal(ancestor as int) + seq![','] + comm
            + seq![','] + text::join(values, ','),
{
    let a = text::signed_decimal(tid as int);
    let b = text::signed_decimal(tgid as int);
    let c = text::signed_decimal(ancestor as int);
    lemma_join_of_four(a, b, c, comm);
    lemma_join_of_four(a, Seq::empty(), c, comm);
    assert(csv::leading_cells(tid, Some(tgid), ancestor, comm) =~= seq![a, b, c, comm]);
    assert(csv::leading_cells(tid, None, ancestor, comm) =~= seq![
        a,
        Seq::<char>::empty(),
        c,
        comm,
    ]);
    assert(csv::row_text(tid, Some(tgid), ancestor, comm, values) =~= a + seq![','] + b + seq![',']
        + c + seq![','] + comm + seq![','] + text::join(values, ','));
    assert(csv::row_text(tid, None, ancestor, comm, values) =~= a + seq![','] + seq![','] + c
        + seq![','] + comm + seq![','] + text::join(values, ','));
}

proof fn lemma_join_of_four(a: Seq<char>, b: Seq<char>, c: Seq<char>, d: Seq<char>)
    ensures
        text::join(seq![a, b, c, d], ',') == a + seq![','] + b + seq![','] + c + seq![','] + d,
{
    reveal_with_fuel(text::join, 5);
    let all = seq![a, b, c, d];
    assert(all.drop_last() =~= seq![a, b, c]);
    assert(seq![a, b, c].drop_last() =~= seq![a, b]);
    assert(seq![a, b].drop_last() =~= seq![a]);
    assert(text::join(seq![a], ',') =~= a);
    assert(text::join(seq![a, b], ',') =~= a + seq![','] + b);
    assert(text::join(seq![a, b, c], ',') =~= a + seq![','] + b + seq![','] + c);
    assert(text::join(all, ',') =~= a + seq![','] + b + seq![','] + c + seq![','] + d);
}

/// A document without lines is empty, and each line adds itself and a newline.
pub proof fn law_document_grows_by_lines(lines: Seq<Seq<char>>, line: Seq<char>)
    ensures
        csv::lines_text(Seq::empty()) == Seq::<char>::empty(),
        csv::lines_text(lines.push(line)) == csv::lines_text(lines) + line + seq!['\n'],
{
    assert(lines.push(line).drop_last() =~= lines);
    assert(csv::lines_text(lines.push(line)) =~= csv::lines_text(lines) + line + seq!['\n']);
}

/// The texts of strings, and of rows, are those of each of them.
pub proof fn law_texts_are_elementwise(v: Seq<String>, rows: Seq<(i32, String)>)
    ensures
        csv::texts(v).len() == v.len(),
        forall|i: int| 0 <= i < v.len() ==> #[trigger] csv::texts(v)[i] == v[i]@,
        csv::row_texts(rows).len() == rows.len(),
        forall|i: int| 0 <= i < rows.len() ==> #[trigger] csv::row_texts(rows)[i] == rows[i].1@,
{
}

/// A task's row goes with the task's number, and says: the task, the `Tgid` of its
/// status file, its ancestor, the name in its comm file, and its values.
pub proof fn law_row_is_about_its_task<
    S,
    F: Fn(i32) -> Option<String>,
    G: Fn(i32) -> Option<String>,
    V: Fn(TaskStats<S>) -> Vec<String>,
>(
    tid: i32,
    ts: TaskStats<S>,
    status: F,
    comm: G,
    values: V,
    row: (i32, String),
)
    requires
        csv::is_row_of(tid, ts, status, comm, values, row),
    ensures
        row.0 == tid,
        exists|s: Option<String>, c: Option<String>, cells: Vec<String>|
            {
                &&& #[trigger] call_ensures(status, (tid,), s)
                &&& #[trigger] call_ensures(comm, (tid,), c)
                &&& #[trigger] call_ensures(values, (ts,), cells)
                &&& row.1@ == csv::row_text(
                    tid,
                    csv::status_field(s, "Tgid"@),
                    ts.ancestor,
                    csv::comm_of(c),
                    csv::texts(cells@),
                )
            },
{
}

} // verus!
