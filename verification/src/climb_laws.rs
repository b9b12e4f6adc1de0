//! What holds of the climb along the parent chains.
//!
//! The statements here are about a process table that stands still: `parents`
//! gives, for every process without statistics, the parent that looking it up
//! gives.

use crate::stats_map;
use crate::task_stats::TaskStats;
use vstd::prelude::*;

verus! {

/// Whether every lookup through `parent_of` gives what `parents` says.
pub open spec fn looks_up<P: Fn(i32) -> Option<i32>>(
    parent_of: P,
    parents: spec_fn(i32) -> Option<i32>,
) -> bool {
    forall|pid: i32, r: Option<i32>| #[trigger]
        call_ensures(parent_of, (pid,), r) ==> r == parents(pid)
}

/// The next place on the chain after `pid`.
pub open spec fn next_of<S>(
    tasks: Map<i32, TaskStats<S>>,
    parents: spec_fn(i32) -> Option<i32>,
    pid: i32,
) -> i32 {
    if tasks.contains_key(pid) {
        stats_map::fold_zero(tasks[pid].ancestor)
    } else {
        match parents(pid) {
            Some(p) => stats_map::fold_zero(p),
            None => 1,
        }
    }
}

/// The root that the chain from `pid` reaches within `steps` steps, if it does.
pub open spec fn root_of<S>(
    tasks: Map<i32, TaskStats<S>>,
    parents: spec_fn(i32) -> Option<i32>,
    game_ppid: i32,
    pid: i32,
    steps: nat,
) -> Option<i32>
    decreases steps,
{
    if stats_map::is_root(pid, game_ppid) {
        Some(pid)
    } else if steps == 0 {
        None
    } else {
        root_of(tasks, parents, game_ppid, next_of(tasks, parents, pid), (steps - 1) as nat)
    }
}

/// The root, once reached, stays: more steps do not lead past it.
pub proof fn law_root_is_final<S>(
    tasks: Map<i32, TaskStats<S>>,
    parents: spec_fn(i32) -> Option<i32>,
    game_ppid: i32,
    pid: i32,
    steps: nat,
    more: nat,
)
    requires
        root_of(tasks, parents, game_ppid, pid, steps) is Some,
        steps <= more,
    ensures
        root_of(tasks, parents, game_ppid, pid, more) == root_of(
            tasks,
            parents,
            game_ppid,
            pid,
            steps,
        ),
    decreases steps,
{
    if !stats_map::is_root(pid, game_ppid) {
        law_root_is_final(
            tasks,
            parents,
            game_ppid,
            next_of(tasks, parents, pid),
            (steps - 1) as nat,
            (more - 1) as nat,
        );
    }
}

/// Moving one task's ancestor to a place from which the same root is reached
/// leaves every chain's root where it was.
pub proof fn law_shortcut_keeps_roots<S>(
    tasks: Map<i32, TaskStats<S>>,
    parents: spec_fn(i32) -> Option<i32>,
    game_ppid: i32,
    tid: i32,
    moved: TaskStats<S>,
    limit: nat,
    pid: i32,
    steps: nat,
)
    requires
        tasks.contains_key(tid),
        tasks[tid].ancestor != 0,
        moved.ancestor != 0,
        forall|n: nat|
            n < limit && (#[trigger] root_of(tasks, parents, game_ppid, tasks[tid].ancestor, n))
                is Some ==> root_of(tasks, parents, game_ppid, moved.ancestor, n) == root_of(
                tasks,
                parents,
                game_ppid,
                tasks[tid].ancestor,
                n,
            ),
        steps <= limit,
        root_of(tasks, parents, game_ppid, pid, steps) is Some,
    ensures
        root_of(tasks.insert(tid, moved), parents, game_ppid, pid, steps) == root_of(
            tasks,
            parents,
            game_ppid,
            pid,
            steps,
        ),
    decreases steps,
{
    let after = tasks.insert(tid, moved);
    if !stats_map::is_root(pid, game_ppid) {
        let fewer = (steps - 1) as nat;
        if pid == tid {
            assert(next_of(tasks, parents, pid) == tasks[tid].ancestor);
            assert(next_of(after, parents, pid) == moved.ancestor);
            assert(root_of(tasks, parents, game_ppid, tasks[tid].ancestor, fewer) is Some);
            law_shortcut_keeps_roots(
                tasks,
                parents,
                game_ppid,
                tid,
                moved,
                limit,
                moved.ancestor,
                fewer,
            );
        } else {
            assert(next_of(after, parents, pid) == next_of(tasks, parents, pid));
            law_shortcut_keeps_roots(
                tasks,
                parents,
                game_ppid,
                tid,
                moved,
                limit,
                next_of(tasks, parents, pid),
                fewer,
            );
        }
    }
}

proof fn lemma_step_is_next<S, P: Fn(i32) -> Option<i32>>(
    tasks: Map<i32, TaskStats<S>>,
    parent_of: P,
    parents: spec_fn(i32) -> Option<i32>,
    pid: i32,
    next: i32,
)
    requires
        looks_up(parent_of, parents),
        stats_map::steps_to(tasks, parent_of, pid, next),
    ensures
        next == next_of(tasks, parents, pid),
        next != 0,
{
}

/// A climb with enough looks ends at the root of its chain.
pub proof fn law_climb_finds_the_root<S, P: Fn(i32) -> Option<i32>>(
    tasks: Map<i32, TaskStats<S>>,
    parent_of: P,
    parents: spec_fn(i32) -> Option<i32>,
    game_ppid: i32,
    pid: i32,
    looks: nat,
    end: i32,
)
    requires
        looks_up(parent_of, parents),
        looks > 0,
        root_of(tasks, parents, game_ppid, pid, (looks - 1) as nat) is Some,
        stats_map::climbs_to(tasks, parent_of, game_ppid, pid, looks, end),
    ensures
        root_of(tasks, parents, game_ppid, pid, (looks - 1) as nat) == Some(end),
    decreases looks,
{
    if !stats_map::is_root(pid, game_ppid) {
        let next = choose|next: i32| #[trigger]
            stats_map::steps_to(tasks, parent_of, pid, next) && stats_map::climbs_to(
                tasks,
                parent_of,
                game_ppid,
                next,
                (looks - 1) as nat,
                end,
            );
        lemma_step_is_next(tasks, parent_of, parents, pid, next);
        law_climb_finds_the_root(
            tasks,
            parent_of,
            parents,
            game_ppid,
            next,
            (looks - 1) as nat,
            end,
        );
    }
}

/// Every climb ends at a root, whatever the lookups give.
pub proof fn law_climb_ends_at_a_root<S, P: Fn(i32) -> Option<i32>>(
    tasks: Map<i32, TaskStats<S>>,
    parent_of: P,
    game_ppid: i32,
    pid: i32,
    looks: nat,
    end: i32,
)
    requires
        stats_map::climbs_to(tasks, parent_of, game_ppid, pid, looks, end),
    ensures
        stats_map::is_root(end, game_ppid),
    decreases looks,
{
    if looks > 0 && !stats_map::is_root(pid, game_ppid) {
        let next = choose|next: i32| #[trigger]
            stats_map::steps_to(tasks, parent_of, pid, next) && stats_map::climbs_to(
                tasks,
                parent_of,
                game_ppid,
                next,
                (looks - 1) as nat,
                end,
            );
        law_climb_ends_at_a_root(
            tasks,
            parent_of,
            game_ppid,
            next,
            (looks - 1) as nat,
            end,
        );
    }
}

// ---------------------------------------------------------------------------
// Classify cycles
// ---------------------------------------------------------------------------

proof fn lemma_classify_visit_keeps_roots<S, P: Fn(i32) -> Option<i32>>(
    before: (Map<i32, TaskStats<S>>, Seq<i32>),
    tid: i32,
    min_events: u64,
    game_ppid: i32,
    parent_of: P,
    parents: spec_fn(i32) -> Option<i32>,
    after: (Map<i32, TaskStats<S>>, Seq<i32>),
    pid: i32,
    steps: nat,
)
    requires
        stats_map::classify_visit(before, tid, min_events, game_ppid, parent_of, after),
        looks_up(parent_of, parents),
        stats_map::ancestors_set(before.0),
        root_of(before.0, parents, game_ppid, pid, steps) is Some,
    ensures
        stats_map::ancestors_set(after.0),
        root_of(after.0, parents, game_ppid, pid, steps) == root_of(
            before.0,
            parents,
            game_ppid,
            pid,
            steps,
        ),
{
    let ts = before.0[tid];
    if before.0.contains_key(tid) && stats_map::is_eligible(ts, min_events) {
        let moved = after.0[tid];
        if stats_map::is_root(ts.ancestor, game_ppid) {
            assert(moved.ancestor == ts.ancestor);
        } else {
            let next = choose|next: i32| #[trigger]
                stats_map::steps_to(before.0, parent_of, ts.ancestor, next) && after.0
                    == before.0.insert(
                    tid,
                    TaskStats { ancestor: next, updated: false, ..ts },
                );
            lemma_step_is_next(before.0, parent_of, parents, ts.ancestor, next);
            assert forall|n: nat|
                n < steps && (#[trigger] root_of(before.0, parents, game_ppid, ts.ancestor, n))
                    is Some implies root_of(before.0, parents, game_ppid, next, n) == root_of(
                before.0,
                parents,
                game_ppid,
                ts.ancestor,
                n,
            ) by {
                law_root_is_final(before.0, parents, game_ppid, next, (n - 1) as nat, n);
            }
        }
        assert(after.0 == before.0.insert(tid, moved));
        law_shortcut_keeps_roots(before.0, parents, game_ppid, tid, moved, steps, pid, steps);
    }
}

/// A classify cycle leaves every chain's root where it was.
pub proof fn law_classify_keeps_roots<S, P: Fn(i32) -> Option<i32>>(
    before: Map<i32, TaskStats<S>>,
    order: Seq<i32>,
    min_events: u64,
    game_ppid: i32,
    parent_of: P,
    parents: spec_fn(i32) -> Option<i32>,
    after: (Map<i32, TaskStats<S>>, Seq<i32>),
    pid: i32,
    steps: nat,
)
    requires
        stats_map::classify_cycle(before, order, min_events, game_ppid, parent_of, after),
        looks_up(parent_of, parents),
        stats_map::ancestors_set(before),
        root_of(before, parents, game_ppid, pid, steps) is Some,
    ensures
        stats_map::ancestors_set(after.0),
        root_of(after.0, parents, game_ppid, pid, steps) == root_of(
            before,
            parents,
            game_ppid,
            pid,
            steps,
        ),
    decreases order.len(),
{
    if order.len() > 0 {
        let mid = choose|mid: (Map<i32, TaskStats<S>>, Seq<i32>)| #[trigger]
            stats_map::classify_visit(mid, order.last(), min_events, game_ppid, parent_of, after)
                && stats_map::classify_cycle(
                before,
                order.drop_last(),
                min_events,
                game_ppid,
                parent_of,
                mid,
            );
        law_classify_keeps_roots(
            before,
            order.drop_last(),
            min_events,
            game_ppid,
            parent_of,
            parents,
            mid,
            pid,
            steps,
        );
        lemma_classify_visit_keeps_roots(
            mid,
            order.last(),
            min_events,
            game_ppid,
            parent_of,
            parents,
            after,
            pid,
            steps,
        );
    }
}

/// A classify cycle changes nothing about a task but its ancestor and whether
/// it has something new, and nothing at all about a task it does not visit.
pub proof fn law_classify_touches_only_ancestors<S, P: Fn(i32) -> Option<i32>>(
    before: Map<i32, TaskStats<S>>,
    order: Seq<i32>,
    min_events: u64,
    game_ppid: i32,
    parent_of: P,
    after: (Map<i32, TaskStats<S>>, Seq<i32>),
    tid: i32,
)
    requires
        stats_map::classify_cycle(before, order, min_events, game_ppid, parent_of, after),
    ensures
        after.0.contains_key(tid) == before.contains_key(tid),
        !order.contains(tid) ==> after.0[tid] == before[tid],
        before.contains_key(tid) ==> after.0[tid] == (TaskStats {
            ancestor: after.0[tid].ancestor,
            updated: after.0[tid].updated,
            ..before[tid]
        }),
    decreases order.len(),
{
    if order.len() > 0 {
        let mid = choose|mid: (Map<i32, TaskStats<S>>, Seq<i32>)| #[trigger]
            stats_map::classify_visit(mid, order.last(), min_events, game_ppid, parent_of, after)
                && stats_map::classify_cycle(
                before,
                order.drop_last(),
                min_events,
                game_ppid,
                parent_of,
                mid,
            );
        law_classify_touches_only_ancestors(
            before,
            order.drop_last(),
            min_events,
            game_ppid,
            parent_of,
            mid,
            tid,
        );
        assert(order.contains(order.last()));
        assert(order.drop_last().contains(tid) ==> order.contains(tid));
    }
}

/// The tasks of `order` that are due: eligible, with something new.
pub open spec fn due_in<S>(
    tasks: Map<i32, TaskStats<S>>,
    order: Seq<i32>,
    min_events: u64,
) -> Seq<i32>
    decreases order.len(),
{
    if order.len() == 0 {
        Seq::empty()
    } else {
        let front = due_in(tasks, order.drop_last(), min_events);
        let tid = order.last();
        if tasks.contains_key(tid) && stats_map::is_eligible(tasks[tid], min_events)
            && tasks[tid].updated {
            front.push(tid)
        } else {
            front
        }
    }
}

/// The tasks that a classify cycle finds due are those that are eligible and
/// have new data since the last cycle; after it, none of them has anything new.
pub proof fn law_classify_finds_the_due<S, P: Fn(i32) -> Option<i32>>(
    before: Map<i32, TaskStats<S>>,
    order: Seq<i32>,
    min_events: u64,
    game_ppid: i32,
    parent_of: P,
    after: (Map<i32, TaskStats<S>>, Seq<i32>),
)
    requires
        stats_map::classify_cycle(before, order, min_events, game_ppid, parent_of, after),
        order.no_duplicates(),
    ensures
        after.1 == due_in(before, order, min_events),
        forall|i: int|
            0 <= i < order.len() && before.contains_key(#[trigger] order[i])
                && stats_map::is_eligible(before[order[i]], min_events)
                ==> !after.0[order[i]].updated,
    decreases order.len(),
{
    if order.len() > 0 {
        let front = order.drop_last();
        let mid = choose|mid: (Map<i32, TaskStats<S>>, Seq<i32>)| #[trigger]
            stats_map::classify_visit(mid, order.last(), min_events, game_ppid, parent_of, after)
                && stats_map::classify_cycle(
                before,
                front,
                min_events,
                game_ppid,
                parent_of,
                mid,
            );
        let tid = order.last();
        assert(!front.contains(tid));
        law_classify_finds_the_due(before, front, min_events, game_ppid, parent_of, mid);
        law_classify_touches_only_ancestors(
            before,
            front,
            min_events,
            game_ppid,
            parent_of,
            mid,
            tid,
        );
        assert forall|i: int|
            0 <= i < order.len() && before.contains_key(#[trigger] order[i])
                && stats_map::is_eligible(
                before[order[i]],
                min_events,
            ) implies !after.0[order[i]].updated by {
            if i < front.len() {
                assert(front[i] == order[i]);
                assert(order[i] != tid);
            }
        }
    }
}

/// A classify cycle brings every eligible task at least one step closer to its
/// root: a root that was `steps + 1` steps away is at most `steps` away.
pub proof fn law_classify_gets_closer<S, P: Fn(i32) -> Option<i32>>(
    before: Map<i32, TaskStats<S>>,
    order: Seq<i32>,
    min_events: u64,
    game_ppid: i32,
    parent_of: P,
    parents: spec_fn(i32) -> Option<i32>,
    after: (Map<i32, TaskStats<S>>, Seq<i32>),
    tid: i32,
    steps: nat,
)
    requires
        stats_map::classify_cycle(before, order, min_events, game_ppid, parent_of, after),
        looks_up(parent_of, parents),
        stats_map::ancestors_set(before),
        order.no_duplicates(),
        order.contains(tid),
        before.contains_key(tid),
        stats_map::is_eligible(before[tid], min_events),
        root_of(before, parents, game_ppid, before[tid].ancestor, steps + 1) is Some,
    ensures
        root_of(after.0, parents, game_ppid, after.0[tid].ancestor, steps) == root_of(
            before,
            parents,
            game_ppid,
            before[tid].ancestor,
            steps + 1,
        ),
    decreases order.len(),
{
    let front = order.drop_last();
    let last = order.last();
    let mid = choose|mid: (Map<i32, TaskStats<S>>, Seq<i32>)| #[trigger]
        stats_map::classify_visit(mid, last, min_events, game_ppid, parent_of, after)
            && stats_map::classify_cycle(before, front, min_events, game_ppid, parent_of, mid);
    if tid == last {
        assert(!front.contains(tid));
        law_classify_touches_only_ancestors(
            before,
            front,
            min_events,
            game_ppid,
            parent_of,
            mid,
            tid,
        );
        let a = before[tid].ancestor;
        assert(mid.0[tid] == before[tid]);
        law_classify_keeps_roots(
            before,
            front,
            min_events,
            game_ppid,
            parent_of,
            parents,
            mid,
            a,
            steps + 1,
        );
        if stats_map::is_root(a, game_ppid) {
        } else {
            let next = choose|next: i32| #[trigger]
                stats_map::steps_to(mid.0, parent_of, a, next) && after.0 == mid.0.insert(
                    tid,
                    TaskStats { ancestor: next, updated: false, ..mid.0[tid] },
                );
            lemma_step_is_next(mid.0, parent_of, parents, a, next);
            lemma_classify_visit_keeps_roots(
                mid,
                last,
                min_events,
                game_ppid,
                parent_of,
                parents,
                after,
                next,
                steps,
            );
        }
    } else {
        assert(front.contains(tid)) by {
            let i = choose|i: int| 0 <= i < order.len() && order[i] == tid;
            assert(front[i] == tid);
        }
        law_classify_gets_closer(
            before,
            front,
            min_events,
            game_ppid,
            parent_of,
            parents,
            mid,
            tid,
            steps,
        );
        law_classify_keeps_roots(
            before,
            front,
            min_events,
            game_ppid,
            parent_of,
            parents,
            mid,
            before[tid].ancestor,
            steps + 1,
        );
        lemma_classify_visit_keeps_roots(
            mid,
            last,
            min_events,
            game_ppid,
            parent_of,
            parents,
            after,
            mid.0[tid].ancestor,
            steps,
        );
    }
}

/// Whether `maps` are the statistics before, between and after consecutive
/// classify cycles over all tasks, in the orders `orders`, which found `dues`
/// due.
pub open spec fn are_cycles<S, P: Fn(i32) -> Option<i32>>(
    maps: Seq<Map<i32, TaskStats<S>>>,
    orders: Seq<Seq<i32>>,
    dues: Seq<Seq<i32>>,
    min_events: u64,
    game_ppid: i32,
    parent_of: P,
) -> bool {
    &&& maps.len() == orders.len() + 1
    &&& dues.len() == orders.len()
    &&& forall|i: int| #![trigger orders[i]]
        0 <= i < orders.len() ==> stats_map::is_walk(maps[i], orders[i])
            && stats_map::classify_cycle(
            maps[i],
            orders[i],
            min_events,
            game_ppid,
            parent_of,
            (maps[i + 1], dues[i]),
        )
}

proof fn lemma_cycles_get_closer<S, P: Fn(i32) -> Option<i32>>(
    maps: Seq<Map<i32, TaskStats<S>>>,
    orders: Seq<Seq<i32>>,
    dues: Seq<Seq<i32>>,
    min_events: u64,
    game_ppid: i32,
    parent_of: P,
    parents: spec_fn(i32) -> Option<i32>,
    tid: i32,
    depth: nat,
    k: nat,
)
    requires
        are_cycles(maps, orders, dues, min_events, game_ppid, parent_of),
        looks_up(parent_of, parents),
        stats_map::ancestors_set(maps[0]),
        maps[0].contains_key(tid),
        stats_map::is_eligible(maps[0][tid], min_events),
        root_of(maps[0], parents, game_ppid, maps[0][tid].ancestor, depth) is Some,
        k <= depth,
        k < maps.len(),
    ensures
        stats_map::ancestors_set(maps[k as int]),
        maps[k as int].contains_key(tid),
        stats_map::is_eligible(maps[k as int][tid], min_events),
        root_of(
            maps[k as int],
            parents,
            game_ppid,
            maps[k as int][tid].ancestor,
            (depth - k) as nat,
        ) == root_of(maps[0], parents, game_ppid, maps[0][tid].ancestor, depth),
    decreases k,
{
    if k > 0 {
        let i = k - 1;
        lemma_cycles_get_closer(
            maps,
            orders,
            dues,
            min_events,
            game_ppid,
            parent_of,
            parents,
            tid,
            depth,
            i as nat,
        );
        let order = orders[i];
        assert(order.to_set().contains(tid));
        assert(order.contains(tid));
        law_classify_touches_only_ancestors(
            maps[i],
            order,
            min_events,
            game_ppid,
            parent_of,
            (maps[i + 1], dues[i]),
            tid,
        );
        law_classify_keeps_roots(
            maps[i],
            order,
            min_events,
            game_ppid,
            parent_of,
            parents,
            (maps[i + 1], dues[i]),
            maps[i][tid].ancestor,
            (depth - i) as nat,
        );
        law_classify_gets_closer(
            maps[i],
            order,
            min_events,
            game_ppid,
            parent_of,
            parents,
            (maps[i + 1], dues[i]),
            tid,
            (depth - k) as nat,
        );
    }
}

/// A task whose root is `depth` steps away has converged to it after `depth`
/// consecutive classify cycles.
pub proof fn law_chain_converges_in_depth_cycles<S, P: Fn(i32) -> Option<i32>>(
    maps: Seq<Map<i32, TaskStats<S>>>,
    orders: Seq<Seq<i32>>,
    dues: Seq<Seq<i32>>,
    min_events: u64,
    game_ppid: i32,
    parent_of: P,
    parents: spec_fn(i32) -> Option<i32>,
    tid: i32,
    depth: nat,
)
    requires
        are_cycles(maps, orders, dues, min_events, game_ppid, parent_of),
        looks_up(parent_of, parents),
        stats_map::ancestors_set(maps[0]),
        maps[0].contains_key(tid),
        stats_map::is_eligible(maps[0][tid], min_events),
        root_of(maps[0], parents, game_ppid, maps[0][tid].ancestor, depth) is Some,
        depth == orders.len(),
    ensures
        Some(maps[depth as int][tid].ancestor) == root_of(
            maps[0],
            parents,
            game_ppid,
            maps[0][tid].ancestor,
            depth,
        ),
        stats_map::is_root(maps[depth as int][tid].ancestor, game_ppid),
{
    lemma_cycles_get_closer(
        maps,
        orders,
        dues,
        min_events,
        game_ppid,
        parent_of,
        parents,
        tid,
        depth,
        depth,
    );
}

// ---------------------------------------------------------------------------
// Collecting
// ---------------------------------------------------------------------------

proof fn lemma_collect_visit_keeps_roots<S, P: Fn(i32) -> Option<i32>>(
    before: (Map<i32, TaskStats<S>>, Seq<i32>),
    tid: i32,
    min_events: u64,
    game_ppid: i32,
    parent_of: P,
    parents: spec_fn(i32) -> Option<i32>,
    after: (Map<i32, TaskStats<S>>, Seq<i32>),
    pid: i32,
    steps: nat,
)
    requires
        stats_map::collect_visit(before, tid, min_events, game_ppid, parent_of, after),
        looks_up(parent_of, parents),
        stats_map::ancestors_set(before.0),
        steps < stats_map::MAX_STEPS,
        root_of(before.0, parents, game_ppid, pid, steps) is Some,
    ensures
        stats_map::ancestors_set(after.0),
        root_of(after.0, parents, game_ppid, pid, steps) == root_of(
            before.0,
            parents,
            game_ppid,
            pid,
            steps,
        ),
{
    let ts = before.0[tid];
    if before.0.contains_key(tid) && stats_map::is_eligible(ts, min_events) {
        let looks = stats_map::MAX_STEPS as nat;
        let end = choose|end: i32| #[trigger]
            stats_map::climbs_to(before.0, parent_of, game_ppid, ts.ancestor, looks, end)
                && after.0 == before.0.insert(tid, TaskStats { ancestor: end, ..ts });
        let moved = TaskStats { ancestor: end, ..ts };
        law_climb_ends_at_a_root(before.0, parent_of, game_ppid, ts.ancestor, looks, end);
        assert forall|n: nat|
            n < steps && (#[trigger] root_of(before.0, parents, game_ppid, ts.ancestor, n))
                is Some implies root_of(before.0, parents, game_ppid, end, n) == root_of(
            before.0,
            parents,
            game_ppid,
            ts.ancestor,
            n,
        ) by {
            law_root_is_final(before.0, parents, game_ppid, ts.ancestor, n, (looks - 1) as nat);
            law_climb_finds_the_root(
                before.0,
                parent_of,
                parents,
                game_ppid,
                ts.ancestor,
                looks,
                end,
            );
        }
        if end == 0 {
            // A root is never 0.
            assert(stats_map::is_root(end, game_ppid));
        }
        law_shortcut_keeps_roots(before.0, parents, game_ppid, tid, moved, steps, pid, steps);
    }
}

/// Collecting leaves every chain's root where it was, for chains that are not
/// longer than a climb may be.
pub proof fn law_collect_keeps_roots<S, P: Fn(i32) -> Option<i32>>(
    before: Map<i32, TaskStats<S>>,
    order: Seq<i32>,
    min_events: u64,
    game_ppid: i32,
    parent_of: P,
    parents: spec_fn(i32) -> Option<i32>,
    after: (Map<i32, TaskStats<S>>, Seq<i32>),
    pid: i32,
    steps: nat,
)
    requires
        stats_map::collect_cycle(before, order, min_events, game_ppid, parent_of, after),
        looks_up(parent_of, parents),
        stats_map::ancestors_set(before),
        steps < stats_map::MAX_STEPS,
        root_of(before, parents, game_ppid, pid, steps) is Some,
    ensures
        stats_map::ancestors_set(after.0),
        root_of(after.0, parents, game_ppid, pid, steps) == root_of(
            before,
            parents,
            game_ppid,
            pid,
            steps,
        ),
    decreases order.len(),
{
    if order.len() > 0 {
        let mid = choose|mid: (Map<i32, TaskStats<S>>, Seq<i32>)| #[trigger]
            stats_map::collect_visit(mid, order.last(), min_events, game_ppid, parent_of, after)
                && stats_map::collect_cycle(
                before,
                order.drop_last(),
                min_events,
                game_ppid,
                parent_of,
                mid,
            );
        law_collect_keeps_roots(
            before,
            order.drop_last(),
            min_events,
            game_ppid,
            parent_of,
            parents,
            mid,
            pid,
            steps,
        );
        lemma_collect_visit_keeps_roots(
            mid,
            order.last(),
            min_events,
            game_ppid,
            parent_of,
            parents,
            after,
            pid,
            steps,
        );
    }
}

/// Collecting changes nothing about a task but its ancestor, and nothing at all
/// about a task it does not visit.
pub proof fn law_collect_touches_only_ancestors<S, P: Fn(i32) -> Option<i32>>(
    before: Map<i32, TaskStats<S>>,
    order: Seq<i32>,
    min_events: u64,
    game_ppid: i32,
    parent_of: P,
    after: (Map<i32, TaskStats<S>>, Seq<i32>),
    tid: i32,
)
    requires
        stats_map::collect_cycle(before, order, min_events, game_ppid, parent_of, after),
    ensures
        after.0.contains_key(tid) == before.contains_key(tid),
        !order.contains(tid) ==> after.0[tid] == before[tid],
        before.contains_key(tid) ==> after.0[tid] == (TaskStats {
            ancestor: after.0[tid].ancestor,
            ..before[tid]
        }),
    decreases order.len(),
{
    if order.len() > 0 {
        let mid = choose|mid: (Map<i32, TaskStats<S>>, Seq<i32>)| #[trigger]
            stats_map::collect_visit(mid, order.last(), min_events, game_ppid, parent_of, after)
                && stats_map::collect_cycle(
                before,
                order.drop_last(),
                min_events,
                game_ppid,
                parent_of,
                mid,
            );
        law_collect_touches_only_ancestors(
            before,
            order.drop_last(),
            min_events,
            game_ppid,
            parent_of,
            mid,
            tid,
        );
        assert(order.contains(order.last()));
        assert(order.drop_last().contains(tid) ==> order.contains(tid));
    }
}

/// The eligible tasks of `order`.
pub open spec fn eligible_in<S>(
    tasks: Map<i32, TaskStats<S>>,
    order: Seq<i32>,
    min_events: u64,
) -> Seq<i32>
    decreases order.len(),
{
    if order.len() == 0 {
        Seq::empty()
    } else {
        let front = eligible_in(tasks, order.drop_last(), min_events);
        let tid = order.last();
        if tasks.contains_key(tid) && stats_map::is_eligible(tasks[tid], min_events) {
            front.push(tid)
        } else {
            front
        }
    }
}

/// The tasks that get a row are the eligible ones.
pub proof fn law_collect_rows_are_the_eligible<S, P: Fn(i32) -> Option<i32>>(
    before: Map<i32, TaskStats<S>>,
    order: Seq<i32>,
    min_events: u64,
    game_ppid: i32,
    parent_of: P,
    after: (Map<i32, TaskStats<S>>, Seq<i32>),
)
    requires
        stats_map::collect_cycle(before, order, min_events, game_ppid, parent_of, after),
    ensures
        after.1 == eligible_in(before, order, min_events),
    decreases order.len(),
{
    if order.len() > 0 {
        let mid = choose|mid: (Map<i32, TaskStats<S>>, Seq<i32>)| #[trigger]
            stats_map::collect_visit(mid, order.last(), min_events, game_ppid, parent_of, after)
                && stats_map::collect_cycle(
                before,
                order.drop_last(),
                min_events,
                game_ppid,
                parent_of,
                mid,
            );
        law_collect_rows_are_the_eligible(
            before,
            order.drop_last(),
            min_events,
            game_ppid,
            parent_of,
            mid,
        );
        law_collect_touches_only_ancestors(
            before,
            order.drop_last(),
            min_events,
            game_ppid,
            parent_of,
            mid,
            order.last(),
        );
    }
}

/// Collecting leaves every eligible task at the root of its chain, whatever the
/// order in which the tasks are visited, for chains that are not longer than a
/// climb may be.
pub proof fn law_collect_finds_roots<S, P: Fn(i32) -> Option<i32>>(
    before: Map<i32, TaskStats<S>>,
    order: Seq<i32>,
    min_events: u64,
    game_ppid: i32,
    parent_of: P,
    parents: spec_fn(i32) -> Option<i32>,
    after: (Map<i32, TaskStats<S>>, Seq<i32>),
    tid: i32,
)
    requires
        stats_map::collect_cycle(before, order, min_events, game_ppid, parent_of, after),
        looks_up(parent_of, parents),
        stats_map::ancestors_set(before),
        order.no_duplicates(),
        order.contains(tid),
        before.contains_key(tid),
        stats_map::is_eligible(before[tid], min_events),
        root_of(
            before,
            parents,
            game_ppid,
            before[tid].ancestor,
            (stats_map::MAX_STEPS - 1) as nat,
        ) is Some,
    ensures
        Some(after.0[tid].ancestor) == root_of(
            before,
            parents,
            game_ppid,
            before[tid].ancestor,
            (stats_map::MAX_STEPS - 1) as nat,
        ),
    decreases order.len(),
{
    let front = order.drop_last();
    let last = order.last();
    let mid = choose|mid: (Map<i32, TaskStats<S>>, Seq<i32>)| #[trigger]
        stats_map::collect_visit(mid, last, min_events, game_ppid, parent_of, after)
            && stats_map::collect_cycle(before, front, min_events, game_ppid, parent_of, mid);
    if tid == last {
        assert(!front.contains(tid));
        law_collect_touches_only_ancestors(
            before,
            front,
            min_events,
            game_ppid,
            parent_of,
            mid,
            tid,
        );
        let a = before[tid].ancestor;
        let looks = stats_map::MAX_STEPS as nat;
        law_collect_keeps_roots(
            before,
            front,
            min_events,
            game_ppid,
            parent_of,
            parents,
            mid,
            a,
            (looks - 1) as nat,
        );
        let end = choose|end: i32| #[trigger]
            stats_map::climbs_to(mid.0, parent_of, game_ppid, a, looks, end) && after.0
                == mid.0.insert(tid, TaskStats { ancestor: end, ..mid.0[tid] });
        law_climb_finds_the_root(mid.0, parent_of, parents, game_ppid, a, looks, end);
    } else {
        assert(front.contains(tid)) by {
            let i = choose|i: int| 0 <= i < order.len() && order[i] == tid;
            assert(front[i] == tid);
        }
        law_collect_finds_roots(
            before,
            front,
            min_events,
            game_ppid,
            parent_of,
            parents,
            mid,
            tid,
        );
    }
}

} // verus!
