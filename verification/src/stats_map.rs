//! The statistics of all tasks, and the climb along their parent chains.
//!
//! Each task's `ancestor` starts at its parent and is moved along the parent
//! chain, union-find style, until it reaches a root: 1 (init, so not part of
//! the tracked game) or the tracked game's PPID.

use crate::task_stats::{TaskEvent, TaskStats};
use crate::tracker::GameTracker;
use crate::wire::{parse_event, EVENT_SIZE};
use std::collections::HashMap;
use vstd::prelude::*;

verus! {

broadcast use vstd::std_specs::hash::group_hash_axioms;

/// Task statistics by task id.
pub struct StatsMap<S> {
    pub tasks: HashMap<i32, TaskStats<S>>,
}

impl<S> View for StatsMap<S> {
    type V = Map<i32, TaskStats<S>>;

    open spec fn view(&self) -> Map<i32, TaskStats<S>> {
        self.tasks@
    }
}

impl<S: Copy> StatsMap<S> {
    /// No tasks.
    pub fn new() -> (r: Self)
        ensures
            r@ == Map::<i32, TaskStats<S>>::empty(),
    {
        StatsMap { tasks: HashMap::new() }
    }

    /// The statistics of one task.
    pub fn get(&self, tid: i32) -> (r: Option<TaskStats<S>>)
        ensures
            r == (if self@.contains_key(tid) {
                Some(self@[tid])
            } else {
                None
            }),
    {
        match self.tasks.get(&tid) {
            Some(ts) => Some(*ts),
            None => None,
        }
    }

    /// Whether the counters of the event's task have room for it.
    pub fn fits(&self, event: &TaskEvent) -> (r: bool)
        ensures
            r == has_room(self@, *event),
    {
        match self.get(event.tid) {
            Some(ts) => event.parent < 0 || ts.fits(event),
            None => true,
        }
    }

    /// The ids of all tasks, in no particular order.
    pub fn tids(&self) -> (r: Vec<i32>)
        ensures
            r@.no_duplicates(),
            r@.to_set() == self@.dom(),
    {
        let mut r: Vec<i32> = Vec::new();
        let ghost all = vstd::std_specs::iter::IteratorSpec::remaining(
            &vstd::std_specs::hash::spec_keys_iter(&self.tasks),
        ).unref();
        for tid in it: self.tasks.keys()
            invariant
                it.seq().unref() == all,
                r@ == all.take(it.index() as int),
        {
            r.push(*tid);
        }
        assert(r@ == all);
        r
    }
}

/// Whether an event can be counted: a task that has exited, or that is not
/// known yet, can always be.
pub open spec fn has_room<S>(tasks: Map<i32, TaskStats<S>>, event: TaskEvent) -> bool {
    event.parent >= 0 && tasks.contains_key(event.tid) ==> tasks[event.tid].totals().plus(
        event,
    ).fits()
}

/// A parent as the start of a climb: the kernel's own family (parent 0) counts
/// as init's.
pub open spec fn fold_zero(pid: i32) -> i32 {
    if pid == 0 {
        1
    } else {
        pid
    }
}

/// Whether no task's ancestor is 0: a climb starts elsewhere, and no step leads
/// there.
pub open spec fn ancestors_set<S>(tasks: Map<i32, TaskStats<S>>) -> bool {
    forall|tid: i32| #[trigger] tasks.contains_key(tid) ==> tasks[tid].ancestor != 0
}

/// What the exit of the task `tid` means for the tracked game, and whether the
/// scan side is to be woken. If the task is the game's own PPID, the game has
/// ended; otherwise, a task of the game's family (`ancestor`, where the task
/// has statistics) counts as one less alive.
pub open spec fn task_exit(t: GameTracker, tid: i32, ancestor: Option<i32>) -> (GameTracker, bool) {
    let ended = t.game_ppid != 0 && tid == t.game_ppid;
    let t1 = if ended {
        GameTracker { game_ppid: 0, alive_count: t.alive_count }
    } else {
        t
    };
    match ancestor {
        Some(a) => {
            let noted = crate::tracker::exit_noted(t1, a);
            (noted.0, ended || noted.1)
        },
        None => (t1, ended),
    }
}

/// Whether accounting for `event` takes `(tasks, t)` to `(new_tasks, new_t)` and
/// wakes the scan side as `wake` says.
pub open spec fn accounts_for<S, A: Fn(S, u64) -> S>(
    event: TaskEvent,
    zero: S,
    add_square: A,
    tasks: Map<i32, TaskStats<S>>,
    t: GameTracker,
    new_tasks: Map<i32, TaskStats<S>>,
    new_t: GameTracker,
    wake: bool,
) -> bool {
    if event.parent >= 0 {
        &&& new_t == t
        &&& !wake
        &&& exists|before: TaskStats<S>, after: TaskStats<S>|
            {
                &&& if tasks.contains_key(event.tid) {
                    before == tasks[event.tid]
                } else {
                    before.is_fresh(fold_zero(event.parent), zero)
                }
                &&& #[trigger] before.updates_to(event, add_square, after)
                &&& new_tasks == tasks.insert(event.tid, after)
            }
    } else if event.parent == -1 {
        if tasks.contains_key(event.tid) {
            let ts = tasks[event.tid];
            &&& new_tasks == tasks.insert(event.tid, TaskStats { exit: 1, ..ts })
            &&& (new_t, wake) == task_exit(t, event.tid, Some(ts.ancestor))
        } else {
            &&& new_tasks == tasks
            &&& (new_t, wake) == task_exit(t, event.tid, None)
        }
    } else {
        &&& new_tasks == tasks
        &&& new_t == t
        &&& !wake
    }
}

/// Account for one task event.
///
/// An event of a live task (`parent` not negative) is added to the task's
/// statistics; a task seen for the first time starts its climb at its parent.
///
/// The exit of a task (`parent` -1) has two consequences for game detection:
///
/// 1. If the dying task is the tracked game's PPID, the game has ended for
///    real: tracking is cleared and the scan side is to be woken. This is the
///    reliable signal.
/// 2. Otherwise, if the task's ancestor has converged to the tracked PPID, the
///    alive count is decremented, as a fallback signal.
///
/// Returns whether the scan side is to be woken. Other events change nothing.
pub fn account_event<S: Copy, A: Fn(S, u64) -> S>(
    event: &TaskEvent,
    stats: &mut StatsMap<S>,
    tracker: &mut GameTracker,
    zero: S,
    add_square: A,
) -> (wake: bool)
    requires
        has_room(old(stats)@, *event),
        forall|sum: S, ns: u64| #[trigger] call_requires(add_square, (sum, ns)),
    ensures
        accounts_for(
            *event,
            zero,
            add_square,
            old(stats)@,
            *old(tracker),
            final(stats)@,
            *final(tracker),
            wake,
        ),
        ancestors_set(old(stats)@) ==> ancestors_set(final(stats)@),
{
    if event.parent >= 0 {
        let initial_ancestor: i32 = if event.parent == 0 {
            1
        } else {
            event.parent
        };
        let mut ts = match stats.get(event.tid) {
            Some(ts) => ts,
            None => TaskStats::new(initial_ancestor, zero),
        };
        let ghost before = ts;
        ts.update(event, add_square);
        assert(before.updates_to(*event, add_square, ts));
        stats.tasks.insert(event.tid, ts);
        false
    } else if event.parent == -1 {
        let mut wake: bool = false;
        if tracker.is_tracking() && event.tid == tracker.game_ppid {
            tracker.clear();
            wake = true;
        }
        if let Some(ts) = stats.get(event.tid) {
            let mut gone = ts;
            gone.exit = 1;
            stats.tasks.insert(event.tid, gone);
            if tracker.note_process_exit(ts.ancestor) {
                wake = true;
            }
        }
        wake
    } else {
        false
    }
}

/// Why a record was not accounted for.
#[derive(Debug, Clone, Copy, PartialEq, Eq, Structural)]
pub enum EventError {
    /// The record is shorter than an event.
    TooShort,
    /// A counter of the task has no room for the event.
    CounterFull,
}

/// Account for the task event in a record. Returns whether the scan side is to
/// be woken. A record that is too short, or that would overflow a counter,
/// changes nothing.
pub fn process_event<S: Copy, A: Fn(S, u64) -> S>(
    data: &[u8],
    stats: &mut StatsMap<S>,
    tracker: &mut GameTracker,
    zero: S,
    add_square: A,
) -> (r: Result<bool, EventError>)
    requires
        forall|sum: S, ns: u64| #[trigger] call_requires(add_square, (sum, ns)),
    ensures
        r == Err::<bool, EventError>(EventError::TooShort) <==> data@.len() < EVENT_SIZE,
        data@.len() >= EVENT_SIZE ==> exists|event: TaskEvent|
            {
                &&& #[trigger] is_record_of(data@, event)
                &&& match r {
                    Ok(wake) => has_room(old(stats)@, event) && accounts_for(
                        event,
                        zero,
                        add_square,
                        old(stats)@,
                        *old(tracker),
                        final(stats)@,
                        *final(tracker),
                        wake,
                    ),
                    Err(e) => e is CounterFull && !has_room(old(stats)@, event),
                }
            },
        r is Err ==> final(stats)@ == old(stats)@ && *final(tracker) == *old(tracker),
        ancestors_set(old(stats)@) ==> ancestors_set(final(stats)@),
{
    match parse_event(data) {
        None => Err(EventError::TooShort),
        Some(event) => {
            assert(is_record_of(data@, event));
            if stats.fits(&event) {
                Ok(account_event(&event, stats, tracker, zero, add_square))
            } else {
                Err(EventError::CounterFull)
            }
        },
    }
}

/// Whether `data` starts with the record of `event`, in the order in which the
/// machine reads numbers.
pub open spec fn is_record_of(data: Seq<u8>, event: TaskEvent) -> bool {
    exists|order: crate::wire::ByteOrder|
        crate::wire::is_reading_order(order) && #[trigger] crate::wire::is_event(
            data,
            order,
            event,
        )
}

/// The exit of the tracked game's PPID ends the game at once and wakes the scan
/// side, whatever is known of the task.
pub proof fn law_ppid_exit_ends_the_game(t: GameTracker, ancestor: Option<i32>)
    requires
        t.game_ppid != 0,
    ensures
        task_exit(t, t.game_ppid, ancestor).0.game_ppid == 0,
        task_exit(t, t.game_ppid, ancestor).1,
{
}

/// The exit of any other task keeps the game tracked.
pub proof fn law_other_exits_keep_the_game(t: GameTracker, tid: i32, ancestor: Option<i32>)
    requires
        tid != t.game_ppid,
    ensures
        task_exit(t, tid, ancestor).0.game_ppid == t.game_ppid,
{
}

// ---------------------------------------------------------------------------
// Climbing
// ---------------------------------------------------------------------------

/// Whether a climb ends at `pid`: at init, or at the tracked game.
pub open spec fn is_root(pid: i32, game_ppid: i32) -> bool {
    pid == 1 || (game_ppid != 0 && pid == game_ppid)
}

/// Whether one step of a climb can lead from `pid` to `next`: to the ancestor
/// of the task `pid`, or, for a task without statistics, to the parent that
/// `parent_of` gives for it (1 where it gives none).
pub open spec fn steps_to<S, P: Fn(i32) -> Option<i32>>(
    tasks: Map<i32, TaskStats<S>>,
    parent_of: P,
    pid: i32,
    next: i32,
) -> bool {
    if tasks.contains_key(pid) {
        next == fold_zero(tasks[pid].ancestor)
    } else {
        exists|parent: Option<i32>| #[trigger]
            call_ensures(parent_of, (pid,), parent) && next == match parent {
                Some(p) => fold_zero(p),
                None => 1,
            }
    }
}

/// Whether a climb from `pid` that looks at up to `looks` places can end at
/// `end`. A climb that has found no root among them is given up and ends at 1.
pub open spec fn climbs_to<S, P: Fn(i32) -> Option<i32>>(
    tasks: Map<i32, TaskStats<S>>,
    parent_of: P,
    game_ppid: i32,
    pid: i32,
    looks: nat,
    end: i32,
) -> bool
    decreases looks,
{
    if looks == 0 {
        end == 1
    } else if is_root(pid, game_ppid) {
        end == pid
    } else {
        exists|next: i32| #[trigger]
            steps_to(tasks, parent_of, pid, next) && climbs_to(
                tasks,
                parent_of,
                game_ppid,
                next,
                (looks - 1) as nat,
                end,
            )
    }
}

/// How many places [`climb_to_root`] looks at: a guard against a cycle in the
/// ancestor pointers.
pub const MAX_STEPS: usize = 4096;

/// One step of a climb from `pid`. `parent_of` is asked for the parent of a task
/// that has no statistics; no answer counts as 1 (not part of a game).
pub fn climb_one_step<S: Copy, P: Fn(i32) -> Option<i32>>(
    pid: i32,
    stats: &StatsMap<S>,
    parent_of: &P,
) -> (next: i32)
    requires
        forall|p: i32| #[trigger] call_requires(*parent_of, (p,)),
    ensures
        steps_to(stats@, *parent_of, pid, next),
        next != 0,
{
    let next = match stats.get(pid) {
        Some(ts) => ts.ancestor,
        None => match parent_of(pid) {
            Some(p) => p,
            None => 1,
        },
    };
    if next == 0 {
        1
    } else {
        next
    }
}

/// Climb from `pid` to a root (1 or the tracked game) in one call.
pub fn climb_to_root<S: Copy, P: Fn(i32) -> Option<i32>>(
    pid: i32,
    stats: &StatsMap<S>,
    game_ppid: i32,
    parent_of: &P,
) -> (end: i32)
    requires
        forall|p: i32| #[trigger] call_requires(*parent_of, (p,)),
    ensures
        climbs_to(stats@, *parent_of, game_ppid, pid, MAX_STEPS as nat, end),
        is_root(end, game_ppid),
{
    let mut at: i32 = pid;
    let mut left: usize = MAX_STEPS;
    while left > 0
        invariant
            left <= MAX_STEPS,
            forall|p: i32| #[trigger] call_requires(*parent_of, (p,)),
            forall|end: i32| #[trigger]
                climbs_to(stats@, *parent_of, game_ppid, at, left as nat, end) ==> climbs_to(
                    stats@,
                    *parent_of,
                    game_ppid,
                    pid,
                    MAX_STEPS as nat,
                    end,
                ),
        decreases left,
    {
        if at == 1 || (game_ppid != 0 && at == game_ppid) {
            assert(climbs_to(stats@, *parent_of, game_ppid, at, left as nat, at));
            return at;
        }
        let next = climb_one_step(at, stats, parent_of);
        let ghost here = at;
        at = next;
        left = left - 1;
        assert forall|end: i32| #[trigger]
            climbs_to(stats@, *parent_of, game_ppid, at, left as nat, end) implies climbs_to(
            stats@,
            *parent_of,
            game_ppid,
            pid,
            MAX_STEPS as nat,
            end,
        ) by {
            assert(steps_to(stats@, *parent_of, here, at));
            assert(climbs_to(stats@, *parent_of, game_ppid, here, (left + 1) as nat, end));
        }
    }
    assert(climbs_to(stats@, *parent_of, game_ppid, at, left as nat, 1));
    1
}

// ---------------------------------------------------------------------------
// One cycle over all tasks
// ---------------------------------------------------------------------------

/// Whether a task takes part in a cycle: it is alive and active enough.
pub open spec fn is_eligible<S>(ts: TaskStats<S>, min_events: u64) -> bool {
    ts.exit == 0 && ts.event_count >= min_events
}

/// What a classify cycle does to the task `tid`: an eligible task's ancestor
/// takes one step, unless it has converged; then, if the task has something
/// new, its features are taken and it is due for prediction.
pub open spec fn classify_visit<S, P: Fn(i32) -> Option<i32>>(
    before: (Map<i32, TaskStats<S>>, Seq<i32>),
    tid: i32,
    min_events: u64,
    game_ppid: i32,
    parent_of: P,
    after: (Map<i32, TaskStats<S>>, Seq<i32>),
) -> bool {
    let ts = before.0[tid];
    if before.0.contains_key(tid) && is_eligible(ts, min_events) {
        &&& after.1 == if ts.updated {
            before.1.push(tid)
        } else {
            before.1
        }
        &&& if is_root(ts.ancestor, game_ppid) {
            after.0 == before.0.insert(tid, TaskStats { updated: false, ..ts })
        } else {
            exists|next: i32| #[trigger]
                steps_to(before.0, parent_of, ts.ancestor, next) && after.0 == before.0.insert(
                    tid,
                    TaskStats { ancestor: next, updated: false, ..ts },
                )
        }
    } else {
        after == before
    }
}

/// What a classify cycle over the tasks of `order` does: which statistics it
/// leaves, and which tasks are due for prediction, in that order.
pub open spec fn classify_cycle<S, P: Fn(i32) -> Option<i32>>(
    before: Map<i32, TaskStats<S>>,
    order: Seq<i32>,
    min_events: u64,
    game_ppid: i32,
    parent_of: P,
    after: (Map<i32, TaskStats<S>>, Seq<i32>),
) -> bool
    decreases order.len(),
{
    if order.len() == 0 {
        after == (before, Seq::<i32>::empty())
    } else {
        exists|mid: (Map<i32, TaskStats<S>>, Seq<i32>)| #[trigger]
            classify_visit(mid, order.last(), min_events, game_ppid, parent_of, after)
                && classify_cycle(before, order.drop_last(), min_events, game_ppid, parent_of, mid)
    }
}

/// What collecting does to the task `tid`: an eligible task's ancestor climbs
/// all the way, and the task gets a row.
pub open spec fn collect_visit<S, P: Fn(i32) -> Option<i32>>(
    before: (Map<i32, TaskStats<S>>, Seq<i32>),
    tid: i32,
    min_events: u64,
    game_ppid: i32,
    parent_of: P,
    after: (Map<i32, TaskStats<S>>, Seq<i32>),
) -> bool {
    let ts = before.0[tid];
    if before.0.contains_key(tid) && is_eligible(ts, min_events) {
        &&& after.1 == before.1.push(tid)
        &&& exists|end: i32| #[trigger]
            climbs_to(before.0, parent_of, game_ppid, ts.ancestor, MAX_STEPS as nat, end)
                && after.0 == before.0.insert(tid, TaskStats { ancestor: end, ..ts })
    } else {
        after == before
    }
}

/// What collecting over the tasks of `order` does: which statistics it leaves,
/// and which tasks get a row, in that order.
pub open spec fn collect_cycle<S, P: Fn(i32) -> Option<i32>>(
    before: Map<i32, TaskStats<S>>,
    order: Seq<i32>,
    min_events: u64,
    game_ppid: i32,
    parent_of: P,
    after: (Map<i32, TaskStats<S>>, Seq<i32>),
) -> bool
    decreases order.len(),
{
    if order.len() == 0 {
        after == (before, Seq::<i32>::empty())
    } else {
        exists|mid: (Map<i32, TaskStats<S>>, Seq<i32>)| #[trigger]
            collect_visit(mid, order.last(), min_events, game_ppid, parent_of, after)
                && collect_cycle(before, order.drop_last(), min_events, game_ppid, parent_of, mid)
    }
}

/// The stats side of a classify cycle over the tasks of `order`. Returns the
/// tasks that are due for prediction.
pub fn classify_in_order<S: Copy, P: Fn(i32) -> Option<i32>>(
    order: &Vec<i32>,
    stats: &mut StatsMap<S>,
    min_events: u64,
    game_ppid: i32,
    parent_of: &P,
) -> (due: Vec<i32>)
    requires
        forall|p: i32| #[trigger] call_requires(*parent_of, (p,)),
    ensures
        classify_cycle(
            old(stats)@,
            order@,
            min_events,
            game_ppid,
            *parent_of,
            (final(stats)@, due@),
        ),
        ancestors_set(old(stats)@) ==> ancestors_set(final(stats)@),
{
    let mut due: Vec<i32> = Vec::new();
    let ghost start = stats@;
    for i in 0..order.len()
        invariant
            forall|p: i32| #[trigger] call_requires(*parent_of, (p,)),
            classify_cycle(
                start,
                order@.take(i as int),
                min_events,
                game_ppid,
                *parent_of,
                (stats@, due@),
            ),
            ancestors_set(start) ==> ancestors_set(stats@),
    {
        let tid = order[i];
        let ghost before = (stats@, due@);
        if let Some(ts) = stats.get(tid) {
            if ts.exit == 0 && ts.event_count >= min_events {
                let mut ts = ts;
                // One step, only when not yet converged.
                if ts.ancestor != 1 && (game_ppid == 0 || ts.ancestor != game_ppid) {
                    ts.ancestor = climb_one_step(ts.ancestor, stats, parent_of);
                }
                if ts.take_features_if_needed().is_some() {
                    due.push(tid);
                }
                stats.tasks.insert(tid, ts);
            }
        }
        assert(classify_visit(
            before,
            tid,
            min_events,
            game_ppid,
            *parent_of,
            (stats@, due@),
        ));
        let ghost upto = order@.take(i + 1);
        assert(upto.drop_last() == order@.take(i as int));
        assert(upto.last() == tid);
    }
    assert(order@.take(order@.len() as int) == order@);
    due
}

/// The stats side of collecting over the tasks of `order`. Returns the tasks
/// that get a row.
pub fn collect_in_order<S: Copy, P: Fn(i32) -> Option<i32>>(
    order: &Vec<i32>,
    stats: &mut StatsMap<S>,
    min_events: u64,
    game_ppid: i32,
    parent_of: &P,
) -> (rows: Vec<i32>)
    requires
        forall|p: i32| #[trigger] call_requires(*parent_of, (p,)),
    ensures
        collect_cycle(
            old(stats)@,
            order@,
            min_events,
            game_ppid,
            *parent_of,
            (final(stats)@, rows@),
        ),
        ancestors_set(old(stats)@) ==> ancestors_set(final(stats)@),
{
    let mut rows: Vec<i32> = Vec::new();
    let ghost start = stats@;
    for i in 0..order.len()
        invariant
            forall|p: i32| #[trigger] call_requires(*parent_of, (p,)),
            collect_cycle(
                start,
                order@.take(i as int),
                min_events,
                game_ppid,
                *parent_of,
                (stats@, rows@),
            ),
            ancestors_set(start) ==> ancestors_set(stats@),
    {
        let tid = order[i];
        let ghost before = (stats@, rows@);
        if let Some(ts) = stats.get(tid) {
            if ts.exit == 0 && ts.event_count >= min_events {
                let mut ts = ts;
                ts.ancestor = climb_to_root(ts.ancestor, stats, game_ppid, parent_of);
                stats.tasks.insert(tid, ts);
                rows.push(tid);
            }
        }
        assert(collect_visit(
            before,
            tid,
            min_events,
            game_ppid,
            *parent_of,
            (stats@, rows@),
        ));
        let ghost upto = order@.take(i + 1);
        assert(upto.drop_last() == order@.take(i as int));
        assert(upto.last() == tid);
    }
    assert(order@.take(order@.len() as int) == order@);
    rows
}

/// Whether `order` names every task once.
pub open spec fn is_walk<S>(tasks: Map<i32, TaskStats<S>>, order: Seq<i32>) -> bool {
    order.no_duplicates() && order.to_set() == tasks.dom()
}

/// The stats side of a classify cycle: every alive task with at least
/// `min_events` events takes part, in some order. Returns the tasks that are
/// due for prediction, those with new data since the last cycle.
pub fn classify_tasks<S: Copy, P: Fn(i32) -> Option<i32>>(
    stats: &mut StatsMap<S>,
    min_events: u64,
    game_ppid: i32,
    parent_of: &P,
) -> (due: Vec<i32>)
    requires
        forall|p: i32| #[trigger] call_requires(*parent_of, (p,)),
    ensures
        exists|order: Seq<i32>| #[trigger]
            is_walk(old(stats)@, order) && classify_cycle(
                old(stats)@,
                order,
                min_events,
                game_ppid,
                *parent_of,
                (final(stats)@, due@),
            ),
        ancestors_set(old(stats)@) ==> ancestors_set(final(stats)@),
{
    let order = stats.tids();
    assert(is_walk(stats@, order@));
    classify_in_order(&order, stats, min_events, game_ppid, parent_of)
}

/// The stats side of collecting: every alive task with at least `min_events`
/// events climbs to its root, in some order. Returns the tasks that get a row.
pub fn collect_tasks<S: Copy, P: Fn(i32) -> Option<i32>>(
    stats: &mut StatsMap<S>,
    min_events: u64,
    game_ppid: i32,
    parent_of: &P,
) -> (rows: Vec<i32>)
    requires
        forall|p: i32| #[trigger] call_requires(*parent_of, (p,)),
    ensures
        exists|order: Seq<i32>| #[trigger]
            is_walk(old(stats)@, order) && collect_cycle(
                old(stats)@,
                order,
                min_events,
                game_ppid,
                *parent_of,
                (final(stats)@, rows@),
            ),
        ancestors_set(old(stats)@) ==> ancestors_set(final(stats)@),
{
    let order = stats.tids();
    assert(is_walk(stats@, order@));
    collect_in_order(&order, stats, min_events, game_ppid, parent_of)
}

} // verus!
