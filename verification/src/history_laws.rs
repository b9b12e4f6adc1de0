//! What holds of the task statistics over time, whatever comes in and whenever
//! the cycles run.

use crate::climb_laws;
use crate::stats_map;
use crate::task_stats;
use crate::task_stats::{TaskEvent, TaskStats};
use crate::tracker::GameTracker;
use vstd::prelude::*;

verus! {

/// What can happen to the statistics.
pub enum Happening {
    /// An event is accounted for.
    Event { event: TaskEvent },
    /// A classify cycle visits the tasks of `order`.
    Classify { order: Seq<i32>, min_events: u64, game_ppid: i32 },
    /// Collecting visits the tasks of `order`.
    Collect { order: Seq<i32>, min_events: u64, game_ppid: i32 },
}

/// Whether accounting for `event` can take `tasks` to `after`, whichever game is
/// tracked.
pub open spec fn counts<S, A: Fn(S, u64) -> S>(
    event: TaskEvent,
    zero: S,
    add_square: A,
    tasks: Map<i32, TaskStats<S>>,
    after: Map<i32, TaskStats<S>>,
) -> bool {
    exists|t: GameTracker, new_t: GameTracker, wake: bool| #[trigger]
        stats_map::accounts_for(event, zero, add_square, tasks, t, after, new_t, wake)
}

/// Whether `h` can take `tasks` to `after`.
pub open spec fn happens<S, A: Fn(S, u64) -> S, P: Fn(i32) -> Option<i32>>(
    h: Happening,
    zero: S,
    add_square: A,
    parent_of: P,
    tasks: Map<i32, TaskStats<S>>,
    after: Map<i32, TaskStats<S>>,
) -> bool {
    match h {
        Happening::Event { event } => counts(event, zero, add_square, tasks, after),
        Happening::Classify { order, min_events, game_ppid } => exists|due: Seq<i32>| #[trigger]
            stats_map::classify_cycle(tasks, order, min_events, game_ppid, parent_of, (after, due)),
        Happening::Collect { order, min_events, game_ppid } => exists|rows: Seq<i32>| #[trigger]
            stats_map::collect_cycle(tasks, order, min_events, game_ppid, parent_of, (after, rows)),
    }
}

/// Whether `after` can be the statistics after all of `history`, from none.
pub open spec fn results_in<S, A: Fn(S, u64) -> S, P: Fn(i32) -> Option<i32>>(
    history: Seq<Happening>,
    zero: S,
    add_square: A,
    parent_of: P,
    after: Map<i32, TaskStats<S>>,
) -> bool
    decreases history.len(),
{
    if history.len() == 0 {
        after == Map::<i32, TaskStats<S>>::empty()
    } else {
        exists|mid: Map<i32, TaskStats<S>>| #[trigger]
            happens(history.last(), zero, add_square, parent_of, mid, after) && results_in(
                history.drop_last(),
                zero,
                add_square,
                parent_of,
                mid,
            )
    }
}

/// The events of the live task `tid` in `history`.
pub open spec fn live_events(history: Seq<Happening>, tid: i32) -> Seq<TaskEvent>
    decreases history.len(),
{
    if history.len() == 0 {
        Seq::empty()
    } else {
        let front = live_events(history.drop_last(), tid);
        match history.last() {
            Happening::Event { event } => if event.tid == tid && event.parent >= 0 {
                front.push(event)
            } else {
                front
            },
            _ => front,
        }
    }
}

/// Whether the task `tid` exited in `history` after it had been seen alive.
pub open spec fn has_exited(history: Seq<Happening>, tid: i32) -> bool
    decreases history.len(),
{
    if history.len() == 0 {
        false
    } else {
        has_exited(history.drop_last(), tid) || match history.last() {
            Happening::Event { event } => event.tid == tid && event.parent == -1 && live_events(
                history.drop_last(),
                tid,
            ).len() > 0,
            _ => false,
        }
    }
}

/// The statistics of a task are the totals of its events, however the events of
/// other tasks, and the cycles, come in between. A task is known from its first
/// event on, and marked as exited from its exit on.
pub proof fn law_totals_are_those_of_the_events<
    S,
    A: Fn(S, u64) -> S,
    P: Fn(i32) -> Option<i32>,
>(
    history: Seq<Happening>,
    zero: S,
    add_square: A,
    parent_of: P,
    after: Map<i32, TaskStats<S>>,
    tid: i32,
)
    requires
        results_in(history, zero, add_square, parent_of, after),
    ensures
        after.contains_key(tid) <==> live_events(history, tid).len() > 0,
        after.contains_key(tid) ==> after[tid].totals() == task_stats::totals_of(
            live_events(history, tid),
        ),
        after.contains_key(tid) ==> (after[tid].exit != 0 <==> has_exited(history, tid)),
    decreases history.len(),
{
    if history.len() > 0 {
        let front = history.drop_last();
        let h = history.last();
        let mid = choose|mid: Map<i32, TaskStats<S>>| #[trigger]
            happens(h, zero, add_square, parent_of, mid, after) && results_in(
                front,
                zero,
                add_square,
                parent_of,
                mid,
            );
        law_totals_are_those_of_the_events(front, zero, add_square, parent_of, mid, tid);
        lemma_exited_was_alive(front, tid);
        match h {
            Happening::Event { event } => {
                let (t, new_t, wake) = choose|t: GameTracker, new_t: GameTracker, wake: bool| #[trigger]
                    stats_map::accounts_for(event, zero, add_square, mid, t, after, new_t, wake);
                if event.tid == tid && event.parent >= 0 {
                    let seen = live_events(history, tid);
                    assert(seen.drop_last() == live_events(front, tid));
                    let (b, a) = choose|b: TaskStats<S>, a: TaskStats<S>|
                        {
                            &&& if mid.contains_key(event.tid) {
                                b == mid[event.tid]
                            } else {
                                b.is_fresh(stats_map::fold_zero(event.parent), zero)
                            }
                            &&& #[trigger] b.updates_to(event, add_square, a)
                            &&& after == mid.insert(event.tid, a)
                        };
                    assert(b.totals() == task_stats::totals_of(live_events(front, tid)));
                    assert(after[tid] == a);
                }
            },
            Happening::Classify { order, min_events, game_ppid } => {
                let due = choose|due: Seq<i32>| #[trigger]
                    stats_map::classify_cycle(
                        mid,
                        order,
                        min_events,
                        game_ppid,
                        parent_of,
                        (after, due),
                    );
                climb_laws::law_classify_touches_only_ancestors(
                    mid,
                    order,
                    min_events,
                    game_ppid,
                    parent_of,
                    (after, due),
                    tid,
                );
            },
            Happening::Collect { order, min_events, game_ppid } => {
                let rows = choose|rows: Seq<i32>| #[trigger]
                    stats_map::collect_cycle(
                        mid,
                        order,
                        min_events,
                        game_ppid,
                        parent_of,
                        (after, rows),
                    );
                climb_laws::law_collect_touches_only_ancestors(
                    mid,
                    order,
                    min_events,
                    game_ppid,
                    parent_of,
                    (after, rows),
                    tid,
                );
            },
        }
    }
}

proof fn lemma_exited_was_alive(history: Seq<Happening>, tid: i32)
    ensures
        has_exited(history, tid) ==> live_events(history, tid).len() > 0,
    decreases history.len(),
{
    if history.len() > 0 {
        lemma_exited_was_alive(history.drop_last(), tid);
    }
}

} // verus!
