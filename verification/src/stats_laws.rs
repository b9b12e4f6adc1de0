//! What single events, steps and cycles do to the task statistics, field by field.

use crate::climb_laws;
use crate::stats_map;
use crate::task_stats;
use crate::task_stats::{TaskEvent, TaskStats};
use crate::tracker;
use crate::tracker::GameTracker;
use vstd::prelude::*;

verus! {

// ---------------------------------------------------------------------------
// One task's statistics
// ---------------------------------------------------------------------------

/// A task without events has nothing counted, is alive, has nothing new, and starts
/// its climb where it is told to.
pub proof fn law_fresh_statistics<S>(ts: TaskStats<S>, parent: i32, zero: S)
    requires
        ts.is_fresh(parent, zero),
    ensures
        ts.event_count == 0,
        ts.runtime_sum == 0,
        ts.runtime_sum_sq == zero,
        ts.sleep_count == 0,
        ts.sleep_sum == 0,
        ts.sleep_sum_sq == zero,
        ts.yield_cnt == 0,
        ts.runnable_stop_cnt == 0,
        ts.stop_cnt == 0,
        ts.ancestor == parent,
        ts.exit == 0,
        !ts.updated,
{
    let t = ts.totals();
    assert(t.events == ts.event_count);
    assert(t.runtime == ts.runtime_sum);
    assert(t.sleeps == ts.sleep_count);
    assert(t.sleep == ts.sleep_sum);
    assert(t.yields == ts.yield_cnt);
    assert(t.runnable_stops == ts.runnable_stop_cnt);
    assert(t.stops == ts.stop_cnt);
}

/// An event adds one to the number of events, and each of its quantities to the sum
/// of that quantity. A sleep counts only if it ends after it starts, and then as
/// long as it took. Where the climb has got to and whether the task has exited stay
/// as they are.
pub proof fn law_event_is_added<S, A: Fn(S, u64) -> S>(
    before: TaskStats<S>,
    event: TaskEvent,
    add_square: A,
    after: TaskStats<S>,
)
    requires
        before.updates_to(event, add_square, after),
    ensures
        after.event_count == before.event_count + 1,
        after.runtime_sum == before.runtime_sum + event.runtime_ns,
        call_ensures(
            add_square,
            (before.runtime_sum_sq, event.runtime_ns),
            after.runtime_sum_sq,
        ),
        event.sleep_end > event.sleep_start ==> {
            let slept = (event.sleep_end - event.sleep_start) as u64;
            &&& after.sleep_count == before.sleep_count + 1
            &&& after.sleep_sum == before.sleep_sum + slept
            &&& call_ensures(add_square, (before.sleep_sum_sq, slept), after.sleep_sum_sq)
        },
        event.sleep_end <= event.sleep_start ==> {
            &&& after.sleep_count == before.sleep_count
            &&& after.sleep_sum == before.sleep_sum
            &&& after.sleep_sum_sq == before.sleep_sum_sq
        },
        after.yield_cnt == before.yield_cnt + event.yield_cnt,
        after.runnable_stop_cnt == before.runnable_stop_cnt + event.runnable_stop_cnt,
        after.stop_cnt == before.stop_cnt + event.stop_cnt,
        after.ancestor == before.ancestor,
        after.exit == before.exit,
        after.updated,
{
    let t = after.totals();
    assert(t.events == after.event_count);
    assert(t.runtime == after.runtime_sum);
    assert(t.sleeps == after.sleep_count);
    assert(t.sleep == after.sleep_sum);
    assert(t.yields == after.yield_cnt);
    assert(t.runnable_stops == after.runnable_stop_cnt);
    assert(t.stops == after.stop_cnt);
}

/// There is room for an event exactly if none of the seven counters goes past 64
/// bits.
pub proof fn law_room_for_an_event<S>(ts: TaskStats<S>, event: TaskEvent)
    ensures
        ts.totals().plus(event).fits() <==> {
            let slept: int = if event.sleep_end > event.sleep_start {
                event.sleep_end - event.sleep_start
            } else {
                0
            };
            &&& ts.event_count + 1 <= 0xffff_ffff_ffff_ffff
            &&& ts.runtime_sum + event.runtime_ns <= 0xffff_ffff_ffff_ffff
            &&& slept > 0 ==> ts.sleep_count + 1 <= 0xffff_ffff_ffff_ffff
            &&& ts.sleep_sum + slept <= 0xffff_ffff_ffff_ffff
            &&& ts.yield_cnt + event.yield_cnt <= 0xffff_ffff_ffff_ffff
            &&& ts.runnable_stop_cnt + event.runnable_stop_cnt <= 0xffff_ffff_ffff_ffff
            &&& ts.stop_cnt + event.stop_cnt <= 0xffff_ffff_ffff_ffff
        },
{
}

/// Only the event of a live and known task can lack room.
pub proof fn law_who_can_lack_room<S>(tasks: Map<i32, TaskStats<S>>, event: TaskEvent)
    ensures
        event.parent < 0 ==> stats_map::has_room(tasks, event),
        !tasks.contains_key(event.tid) ==> stats_map::has_room(tasks, event),
        event.parent >= 0 && tasks.contains_key(event.tid) ==> (stats_map::has_room(tasks, event)
            <==> tasks[event.tid].totals().plus(event).fits()),
{
}

/// The features and their places.
pub proof fn law_feature_places()
    ensures
        task_stats::feature_names().len() == 6,
        task_stats::feature_names()[0] == "runtime_cv"@,
        task_stats::feature_names()[1] == "avg_sleep_ms"@,
        task_stats::feature_names()[2] == "sleep_cv"@,
        task_stats::feature_names()[3] == "yield_ratio"@,
        task_stats::feature_names()[4] == "sleep_ratio"@,
        task_stats::feature_names()[5] == "runnable_stop_ratio"@,
{
}

// ---------------------------------------------------------------------------
// One event
// ---------------------------------------------------------------------------

/// The event of a live task adds to that task and to no other, and says nothing of
/// the tracked game. A task seen for the first time starts from nothing, and its
/// climb at its parent, or at 1 where the parent is 0.
pub proof fn law_live_event<S, A: Fn(S, u64) -> S>(
    event: TaskEvent,
    zero: S,
    add_square: A,
    tasks: Map<i32, TaskStats<S>>,
    t: GameTracker,
    new_tasks: Map<i32, TaskStats<S>>,
    new_t: GameTracker,
    wake: bool,
    other: i32,
)
    requires
        stats_map::accounts_for(event, zero, add_square, tasks, t, new_tasks, new_t, wake),
        event.parent >= 0,
    ensures
        new_t.game_ppid == t.game_ppid,
        new_t.alive_count == t.alive_count,
        !wake,
        new_tasks.contains_key(event.tid),
        other != event.tid ==> new_tasks.contains_key(other) == tasks.contains_key(other)
            && new_tasks[other] == tasks[other],
        tasks.contains_key(event.tid) ==> tasks[event.tid].updates_to(
            event,
            add_square,
            new_tasks[event.tid],
        ),
        !tasks.contains_key(event.tid) ==> {
            let ts = new_tasks[event.tid];
            &&& ts.event_count == 1
            &&& ts.runtime_sum == event.runtime_ns
            &&& call_ensures(add_square, (zero, event.runtime_ns), ts.runtime_sum_sq)
            &&& event.sleep_end > event.sleep_start ==> ts.sleep_count == 1 && ts.sleep_sum
                == event.sleep_end - event.sleep_start && call_ensures(
                add_square,
                (zero, (event.sleep_end - event.sleep_start) as u64),
                ts.sleep_sum_sq,
            )
            &&& event.sleep_end <= event.sleep_start ==> ts.sleep_count == 0 && ts.sleep_sum == 0
                && ts.sleep_sum_sq == zero
            &&& ts.yield_cnt == event.yield_cnt
            &&& ts.runnable_stop_cnt == event.runnable_stop_cnt
            &&& ts.stop_cnt == event.stop_cnt
            &&& event.parent == 0 ==> ts.ancestor == 1
            &&& event.parent > 0 ==> ts.ancestor == event.parent
            &&& ts.exit == 0
            &&& ts.updated
        },
{
    let (before, after) = choose|before: TaskStats<S>, after: TaskStats<S>|
        {
            &&& if tasks.contains_key(event.tid) {
                before == tasks[event.tid]
            } else {
                before.is_fresh(stats_map::fold_zero(event.parent), zero)
            }
            &&& #[trigger] before.updates_to(event, add_square, after)
            &&& new_tasks == tasks.insert(event.tid, after)
        };
    assert(new_tasks[event.tid] == after);
    law_event_is_added(before, event, add_square, after);
    if !tasks.contains_key(event.tid) {
        law_fresh_statistics(before, stats_map::fold_zero(event.parent), zero);
    }
}

/// The exit of a task marks the task as exited, if it is known, and changes nothing
/// else about it, nor anything about another task.
pub proof fn law_exit_marks_the_task<S, A: Fn(S, u64) -> S>(
    event: TaskEvent,
    zero: S,
    add_square: A,
    tasks: Map<i32, TaskStats<S>>,
    t: GameTracker,
    new_tasks: Map<i32, TaskStats<S>>,
    new_t: GameTracker,
    wake: bool,
    other: i32,
)
    requires
        stats_map::accounts_for(event, zero, add_square, tasks, t, new_tasks, new_t, wake),
        event.parent == -1,
    ensures
        new_tasks.contains_key(other) == tasks.contains_key(other),
        other != event.tid ==> new_tasks[other] == tasks[other],
        tasks.contains_key(event.tid) ==> {
            let ts = tasks[event.tid];
            let gone = new_tasks[event.tid];
            &&& gone.exit == 1
            &&& gone.event_count == ts.event_count
            &&& gone.runtime_sum == ts.runtime_sum
            &&& gone.runtime_sum_sq == ts.runtime_sum_sq
            &&& gone.sleep_count == ts.sleep_count
            &&& gone.sleep_sum == ts.sleep_sum
            &&& gone.sleep_sum_sq == ts.sleep_sum_sq
            &&& gone.yield_cnt == ts.yield_cnt
            &&& gone.runnable_stop_cnt == ts.runnable_stop_cnt
            &&& gone.stop_cnt == ts.stop_cnt
            &&& gone.ancestor == ts.ancestor
            &&& gone.updated == ts.updated
        },
        !tasks.contains_key(event.tid) ==> new_tasks == tasks,
{
}

/// What an exit says of the tracked game. Of the game's own PPID: the game is over,
/// and the scan side is woken. Of another task of the game's family: one less is
/// alive, and the scan side is woken if that was the last. Of any other task, or
/// with no game tracked: nothing.
pub proof fn law_exit_and_the_game<S, A: Fn(S, u64) -> S>(
    event: TaskEvent,
    zero: S,
    add_square: A,
    tasks: Map<i32, TaskStats<S>>,
    t: GameTracker,
    new_tasks: Map<i32, TaskStats<S>>,
    new_t: GameTracker,
    wake: bool,
)
    requires
        stats_map::accounts_for(event, zero, add_square, tasks, t, new_tasks, new_t, wake),
        event.parent == -1,
    ensures
        t.game_ppid != 0 && event.tid == t.game_ppid ==> new_t.game_ppid == 0 && new_t.alive_count
            == t.alive_count && wake,
        t.game_ppid != 0 && event.tid != t.game_ppid && tasks.contains_key(event.tid)
            && tasks[event.tid].ancestor == t.game_ppid ==> {
            &&& new_t.game_ppid == t.game_ppid
            &&& t.alive_count > i32::MIN ==> new_t.alive_count == t.alive_count - 1
            &&& t.alive_count == i32::MIN ==> new_t.alive_count == i32::MAX
            &&& wake <==> t.alive_count == 1
        },
        t.game_ppid == 0 || event.tid != t.game_ppid && !(tasks.contains_key(event.tid)
            && tasks[event.tid].ancestor == t.game_ppid) ==> new_t == t && !wake,
{
}

/// An event that is neither of a live task nor an exit changes nothing.
pub proof fn law_other_events_change_nothing<S, A: Fn(S, u64) -> S>(
    event: TaskEvent,
    zero: S,
    add_square: A,
    tasks: Map<i32, TaskStats<S>>,
    t: GameTracker,
    new_tasks: Map<i32, TaskStats<S>>,
    new_t: GameTracker,
    wake: bool,
)
    requires
        stats_map::accounts_for(event, zero, add_square, tasks, t, new_tasks, new_t, wake),
        event.parent < -1,
    ensures
        new_tasks == tasks,
        new_t == t,
        !wake,
{
}

/// The exit of a process of the tracked family leaves one less alive and wakes the
/// scan side if it was the last; any other exit changes nothing.
pub proof fn law_noted_exit(t: GameTracker, dead_ppid: i32)
    ensures
        t.game_ppid != 0 && dead_ppid == t.game_ppid ==> {
            let (after, wake) = tracker::exit_noted(t, dead_ppid);
            &&& after.game_ppid == t.game_ppid
            &&& t.alive_count > i32::MIN ==> after.alive_count == t.alive_count - 1
            &&& t.alive_count == i32::MIN ==> after.alive_count == i32::MAX
            &&& wake <==> t.alive_count == 1
        },
        t.game_ppid == 0 || dead_ppid != t.game_ppid ==> tracker::exit_noted(t, dead_ppid) == (
            t,
            false,
        ),
{
}

// ---------------------------------------------------------------------------
// Climbing
// ---------------------------------------------------------------------------

/// A climb ends at 1, and at the tracked game if there is one; nowhere else.
pub proof fn law_what_is_a_root(pid: i32, game_ppid: i32)
    ensures
        stats_map::is_root(1, game_ppid),
        game_ppid != 0 ==> stats_map::is_root(game_ppid, game_ppid),
        pid != 1 && pid != game_ppid ==> !stats_map::is_root(pid, game_ppid),
        !stats_map::is_root(0, game_ppid),
{
}

/// One step leads from a known task to its ancestor, and from any other to a parent
/// that looking it up gives; to 1 where that is 0 or where there is none.
pub proof fn law_where_a_step_leads<S, P: Fn(i32) -> Option<i32>>(
    tasks: Map<i32, TaskStats<S>>,
    parent_of: P,
    pid: i32,
    next: i32,
)
    ensures
        tasks.contains_key(pid) && tasks[pid].ancestor != 0 ==> (stats_map::steps_to(
            tasks,
            parent_of,
            pid,
            next,
        ) <==> next == tasks[pid].ancestor),
        tasks.contains_key(pid) && tasks[pid].ancestor == 0 ==> (stats_map::steps_to(
            tasks,
            parent_of,
            pid,
            next,
        ) <==> next == 1),
        !tasks.contains_key(pid) && next != 1 ==> (stats_map::steps_to(tasks, parent_of, pid, next)
            <==> next != 0 && call_ensures(parent_of, (pid,), Some(next))),
        !tasks.contains_key(pid) ==> (stats_map::steps_to(tasks, parent_of, pid, 1) <==> {
            ||| call_ensures(parent_of, (pid,), Some(1i32))
            ||| call_ensures(parent_of, (pid,), Some(0i32))
            ||| call_ensures(parent_of, (pid,), None::<i32>)
        }),
{
    if !tasks.contains_key(pid) {
        if stats_map::steps_to(tasks, parent_of, pid, 1) {
            let parent = choose|parent: Option<i32>| #[trigger]
                call_ensures(parent_of, (pid,), parent) && 1 == match parent {
                    Some(p) => stats_map::fold_zero(p),
                    None => 1i32,
                };
            assert(parent == Some(1i32) || parent == Some(0i32) || parent == None::<i32>);
        }
        if stats_map::steps_to(tasks, parent_of, pid, next) && next != 1 {
            let parent = choose|parent: Option<i32>| #[trigger]
                call_ensures(parent_of, (pid,), parent) && next == match parent {
                    Some(p) => stats_map::fold_zero(p),
                    None => 1i32,
                };
            assert(parent == Some(next));
        }
    }
}

/// Whether `path` is the way of a climb: each place a step after the one before,
/// and no root on it before its end.
pub open spec fn is_way<S, P: Fn(i32) -> Option<i32>>(
    tasks: Map<i32, TaskStats<S>>,
    parent_of: P,
    game_ppid: i32,
    path: Seq<i32>,
) -> bool {
    &&& path.len() > 0
    &&& forall|i: int|
        0 <= i < path.len() - 1 ==> #[trigger] path[i] != 1 && (game_ppid == 0 || path[i]
            != game_ppid) && stats_map::steps_to(tasks, parent_of, path[i], path[i + 1])
}

/// A climb follows its way to the first root on it, if that is among the places it
/// may look at; and if not, it ends at 1.
pub proof fn law_climb_follows_a_way<S, P: Fn(i32) -> Option<i32>>(
    tasks: Map<i32, TaskStats<S>>,
    parent_of: P,
    game_ppid: i32,
    pid: i32,
    looks: nat,
    end: i32,
) -> (path: Seq<i32>)
    requires
        stats_map::climbs_to(tasks, parent_of, game_ppid, pid, looks, end),
    ensures
        is_way(tasks, parent_of, game_ppid, path),
        path[0] == pid,
        path.len() <= looks ==> end == path.last() && (end == 1 || game_ppid != 0 && end
            == game_ppid),
        path.len() > looks ==> path.len() == looks + 1 && end == 1,
    decreases looks,
{
    if looks == 0 || stats_map::is_root(pid, game_ppid) {
        seq![pid]
    } else {
        let fewer = (looks - 1) as nat;
        let next = choose|next: i32| #[trigger]
            stats_map::steps_to(tasks, parent_of, pid, next) && stats_map::climbs_to(
                tasks,
                parent_of,
                game_ppid,
                next,
                fewer,
                end,
            );
        let rest = law_climb_follows_a_way(tasks, parent_of, game_ppid, next, fewer, end);
        let path = seq![pid] + rest;
        assert forall|i: int| 0 <= i < path.len() - 1 implies #[trigger] path[i] != 1 && (game_ppid
            == 0 || path[i] != game_ppid) && stats_map::steps_to(
            tasks,
            parent_of,
            path[i],
            path[i + 1],
        ) by {
            if i > 0 {
                assert(path[i] == rest[i - 1]);
                assert(path[i + 1] == rest[i]);
            } else {
                assert(path[1] == rest[0]);
            }
        }
        assert(path.last() == rest.last());
        path
    }
}

/// Whichever way leads to a root within the places that a climb may look at, the
/// climb can end there.
pub proof fn law_every_way_can_be_climbed<S, P: Fn(i32) -> Option<i32>>(
    tasks: Map<i32, TaskStats<S>>,
    parent_of: P,
    game_ppid: i32,
    path: Seq<i32>,
    looks: nat,
)
    requires
        is_way(tasks, parent_of, game_ppid, path),
        path.last() == 1 || game_ppid != 0 && path.last() == game_ppid,
        path.len() <= looks,
    ensures
        stats_map::climbs_to(tasks, parent_of, game_ppid, path[0], looks, path.last()),
    decreases path.len(),
{
    if path.len() > 1 {
        let rest = path.drop_first();
        assert forall|i: int| 0 <= i < rest.len() - 1 implies #[trigger] rest[i] != 1 && (game_ppid
            == 0 || rest[i] != game_ppid) && stats_map::steps_to(
            tasks,
            parent_of,
            rest[i],
            rest[i + 1],
        ) by {
            assert(rest[i] == path[i + 1]);
            assert(rest[i + 1] == path[i + 2]);
        }
        assert(rest.last() == path.last());
        law_every_way_can_be_climbed(tasks, parent_of, game_ppid, rest, (looks - 1) as nat);
        assert(path[0] != 1);
        assert(stats_map::steps_to(tasks, parent_of, path[0], path[1]));
        assert(rest[0] == path[1]);
    } else {
        assert(path.last() == path[0]);
    }
}

/// A climb to a root in one go looks at 4096 places.
pub proof fn law_how_far_a_climb_looks()
    ensures
        stats_map::MAX_STEPS == 4096,
{
}

// ---------------------------------------------------------------------------
// Cycles
// ---------------------------------------------------------------------------

/// A walk visits each task once, and nothing else.
pub proof fn law_walk_visits_every_task_once<S>(
    tasks: Map<i32, TaskStats<S>>,
    order: Seq<i32>,
    tid: i32,
)
    requires
        stats_map::is_walk(tasks, order),
    ensures
        order.contains(tid) <==> tasks.contains_key(tid),
        forall|i: int, j: int|
            0 <= i < order.len() && 0 <= j < order.len() && order[i] == order[j] ==> i == j,
{
    assert(order.to_set().contains(tid) <==> tasks.dom().contains(tid));
}

/// A task takes part in a cycle exactly if it has not exited and has at least the
/// least number of events.
pub proof fn law_who_takes_part<S>(ts: TaskStats<S>, min_events: u64)
    ensures
        stats_map::is_eligible(ts, min_events) <==> ts.exit == 0 && ts.event_count >= min_events,
{
}

/// The tasks that a classify cycle finds due are those of the walk that are alive,
/// have events enough and have something new, in the order of the walk.
pub proof fn law_who_is_due<S, P: Fn(i32) -> Option<i32>>(
    before: Map<i32, TaskStats<S>>,
    order: Seq<i32>,
    min_events: u64,
    game_ppid: i32,
    parent_of: P,
    after: (Map<i32, TaskStats<S>>, Seq<i32>),
)
    requires
        stats_map::classify_cycle(before, order, min_events, game_ppid, parent_of, after),
        order.no_duplicates(),
    ensures
        after.1 == order.filter(
            |tid: i32|
                before.contains_key(tid) && before[tid].exit == 0 && before[tid].event_count
                    >= min_events && before[tid].updated,
        ),
{
    climb_laws::law_classify_finds_the_due(
        before,
        order,
        min_events,
        game_ppid,
        parent_of,
        after,
    );
    lemma_due_are_filtered(before, order, min_events);
}

proof fn lemma_due_are_filtered<S>(
    tasks: Map<i32, TaskStats<S>>,
    order: Seq<i32>,
    min_events: u64,
)
    ensures
        climb_laws::due_in(tasks, order, min_events) == order.filter(
            |tid: i32|
                tasks.contains_key(tid) && tasks[tid].exit == 0 && tasks[tid].event_count
                    >= min_events && tasks[tid].updated,
        ),
    decreases order.len(),
{
    reveal(Seq::filter);
    if order.len() > 0 {
        lemma_due_are_filtered(tasks, order.drop_last(), min_events);
    }
}

/// The tasks that get a row are those of the walk that are alive and have events
/// enough, in the order of the walk.
pub proof fn law_who_gets_a_row<S, P: Fn(i32) -> Option<i32>>(
    before: Map<i32, TaskStats<S>>,
    order: Seq<i32>,
    min_events: u64,
    game_ppid: i32,
    parent_of: P,
    after: (Map<i32, TaskStats<S>>, Seq<i32>),
)
    requires
        stats_map::collect_cycle(before, order, min_events, game_ppid, parent_of, after),
    ensures
        after.1 == order.filter(
            |tid: i32|
                before.contains_key(tid) && before[tid].exit == 0 && before[tid].event_count
                    >= min_events,
        ),
{
    climb_laws::law_collect_rows_are_the_eligible(
        before,
        order,
        min_events,
        game_ppid,
        parent_of,
        after,
    );
    lemma_rows_are_filtered(before, order, min_events);
}

proof fn lemma_rows_are_filtered<S>(
    tasks: Map<i32, TaskStats<S>>,
    order: Seq<i32>,
    min_events: u64,
)
    ensures
        climb_laws::eligible_in(tasks, order, min_events) == order.filter(
            |tid: i32|
                tasks.contains_key(tid) && tasks[tid].exit == 0 && tasks[tid].event_count
                    >= min_events,
        ),
    decreases order.len(),
{
    reveal(Seq::filter);
    if order.len() > 0 {
        lemma_rows_are_filtered(tasks, order.drop_last(), min_events);
    }
}

/// Whether `next` is one step behind `place`: an ancestor that the task `place` has
/// in one of two states, or a parent that looking `place` up gives; 1 in place of 0
/// and of none.
pub open spec fn is_one_step<S, P: Fn(i32) -> Option<i32>>(
    before: Map<i32, TaskStats<S>>,
    after: Map<i32, TaskStats<S>>,
    parent_of: P,
    place: i32,
    next: i32,
) -> bool {
    if before.contains_key(place) {
        ||| next == before[place].ancestor
        ||| next == after[place].ancestor
        ||| next == 1 && (before[place].ancestor == 0 || after[place].ancestor == 0)
    } else {
        ||| call_ensures(parent_of, (place,), Some(next))
        ||| next == 1 && (call_ensures(parent_of, (place,), Some(0i32)) || call_ensures(
            parent_of,
            (place,),
            None::<i32>,
        ))
    }
}

/// What a classify cycle over distinct tasks does to one of them. A task that is
/// dead, or has too few events, stays as it is. Any other has nothing new
/// afterwards, and its ancestor is where it was if that is a root, and else one
/// step further.
pub proof fn law_classify_takes_one_step<S, P: Fn(i32) -> Option<i32>>(
    before: Map<i32, TaskStats<S>>,
    order: Seq<i32>,
    min_events: u64,
    game_ppid: i32,
    parent_of: P,
    after: (Map<i32, TaskStats<S>>, Seq<i32>),
    tid: i32,
)
    requires
        stats_map::classify_cycle(before, order, min_events, game_ppid, parent_of, after),
        order.no_duplicates(),
        order.contains(tid),
        before.contains_key(tid),
    ensures
        before[tid].exit != 0 || before[tid].event_count < min_events ==> after.0[tid]
            == before[tid],
        before[tid].exit == 0 && before[tid].event_count >= min_events ==> {
            let a = before[tid].ancestor;
            &&& !after.0[tid].updated
            &&& a == 1 || game_ppid != 0 && a == game_ppid ==> after.0[tid].ancestor == a
            &&& !(a == 1 || game_ppid != 0 && a == game_ppid) ==> is_one_step(
                before,
                after.0,
                parent_of,
                a,
                after.0[tid].ancestor,
            )
        },
    decreases order.len(),
{
    let front = order.drop_last();
    let last = order.last();
    let mid = choose|mid: (Map<i32, TaskStats<S>>, Seq<i32>)| #[trigger]
        stats_map::classify_visit(mid, last, min_events, game_ppid, parent_of, after)
            && stats_map::classify_cycle(before, front, min_events, game_ppid, parent_of, mid);
    assert(!front.contains(last));
    let a = before[tid].ancestor;
    climb_laws::law_classify_touches_only_ancestors(
        before,
        front,
        min_events,
        game_ppid,
        parent_of,
        mid,
        last,
    );
    climb_laws::law_classify_touches_only_ancestors(
        before,
        front,
        min_events,
        game_ppid,
        parent_of,
        mid,
        a,
    );
    assert(last != a ==> after.0[a] == mid.0[a]);
    assert(last != tid ==> after.0[tid] == mid.0[tid]);
    if tid == last {
        assert(mid.0[tid] == before[tid]);
        if stats_map::is_eligible(before[tid], min_events) && !stats_map::is_root(a, game_ppid) {
            let next = choose|next: i32| #[trigger]
                stats_map::steps_to(mid.0, parent_of, a, next) && after.0 == mid.0.insert(
                    tid,
                    TaskStats { ancestor: next, updated: false, ..mid.0[tid] },
                );
            assert(after.0[tid].ancestor == next);
            if before.contains_key(a) {
                if a != tid {
                    assert(after.0[a] == mid.0[a]);
                }
            } else {
                law_where_a_step_leads(mid.0, parent_of, a, next);
            }
        }
    } else {
        assert(front.contains(tid)) by {
            let i = choose|i: int| 0 <= i < order.len() && order[i] == tid;
            assert(front[i] == tid);
        }
        law_classify_takes_one_step(
            before,
            front,
            min_events,
            game_ppid,
            parent_of,
            mid,
            tid,
        );
        if last == a {
            assert(mid.0[a] == before[a]);
        }
    }
}

/// What collecting over distinct tasks does to one of them. A task that is dead, or
/// has too few events, stays as it is. Any other has come to a root.
pub proof fn law_collect_brings_to_a_root<S, P: Fn(i32) -> Option<i32>>(
    before: Map<i32, TaskStats<S>>,
    order: Seq<i32>,
    min_events: u64,
    game_ppid: i32,
    parent_of: P,
    after: (Map<i32, TaskStats<S>>, Seq<i32>),
    tid: i32,
)
    requires
        stats_map::collect_cycle(before, order, min_events, game_ppid, parent_of, after),
        order.contains(tid),
        before.contains_key(tid),
    ensures
        before[tid].exit != 0 || before[tid].event_count < min_events ==> after.0[tid]
            == before[tid],
        before[tid].exit == 0 && before[tid].event_count >= min_events ==> {
            ||| after.0[tid].ancestor == 1
            ||| game_ppid != 0 && after.0[tid].ancestor == game_ppid
        },
        before[tid].exit == 0 && before[tid].event_count >= min_events && (before[tid].ancestor == 1
            || game_ppid != 0 && before[tid].ancestor == game_ppid) ==> after.0[tid]
            == before[tid],
    decreases order.len(),
{
    let front = order.drop_last();
    let last = order.last();
    let mid = choose|mid: (Map<i32, TaskStats<S>>, Seq<i32>)| #[trigger]
        stats_map::collect_visit(mid, last, min_events, game_ppid, parent_of, after)
            && stats_map::collect_cycle(before, front, min_events, game_ppid, parent_of, mid);
    climb_laws::law_collect_touches_only_ancestors(
        before,
        front,
        min_events,
        game_ppid,
        parent_of,
        mid,
        tid,
    );
    if front.contains(tid) {
        law_collect_brings_to_a_root(
            before,
            front,
            min_events,
            game_ppid,
            parent_of,
            mid,
            tid,
        );
    }
    if tid == last {
        if stats_map::is_eligible(mid.0[tid], min_events) {
            let end = choose|end: i32| #[trigger]
                stats_map::climbs_to(
                    mid.0,
                    parent_of,
                    game_ppid,
                    mid.0[tid].ancestor,
                    stats_map::MAX_STEPS as nat,
                    end,
                ) && after.0 == mid.0.insert(tid, TaskStats { ancestor: end, ..mid.0[tid] });
            climb_laws::law_climb_ends_at_a_root(
                mid.0,
                parent_of,
                game_ppid,
                mid.0[tid].ancestor,
                stats_map::MAX_STEPS as nat,
                end,
            );
            assert(after.0[tid].ancestor == end);
        }
    } else {
        let i = choose|i: int| 0 <= i < order.len() && order[i] == tid;
        assert(front[i] == tid);
        assert(front.contains(tid));
        assert(after.0[tid] == mid.0[tid]);
    }
}

/// No ancestor is 0.
pub proof fn law_no_ancestor_is_zero<S>(tasks: Map<i32, TaskStats<S>>, tid: i32)
    requires
        stats_map::ancestors_set(tasks),
        tasks.contains_key(tid),
    ensures
        tasks[tid].ancestor != 0,
{
}

} // verus!
