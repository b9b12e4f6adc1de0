//! From a task's cluster to its scheduling parameters.

use crate::stats_map;
use crate::stats_map::{classify_tasks, StatsMap};
use crate::task_stats::TaskStats;
use crate::text;
use crate::wire;
use crate::wire::{encode_sched_info, machine_order, task_key, ByteOrder};
use vstd::prelude::*;

verus! {

// ---------------------------------------------------------------------------
// Configuration
// ---------------------------------------------------------------------------

/// How long a time slice is. `C` is the type in which sigmas are kept.
#[derive(Debug, Clone, Copy)]
pub enum SliceConfig<C> {
    /// slice = avg_runtime_ns + sigma * stddev_runtime_ns
    Adaptive { slice_sigma: C },
    /// slice = fixed value in ns
    Fixed { slice_ns: u64 },
}

/// The scheduling parameters of one cluster.
#[derive(Debug, Clone, Copy)]
pub struct ClusterSchedConfig<C> {
    pub prio: i32,
    /// CPU-kind binding (1-based; 1 = fastest kind). 0 means runnable on any CPU
    /// kind. A value of `k` pins the cluster's tasks to the kind `k`.
    pub cpu_kind: u8,
    /// CPU speed preference: 0 = none, 1 = prefer fastest, 2 = prefer slowest.
    pub cpu_prefer: u8,
    pub slice: SliceConfig<C>,
}

/// The scheduling parameters of all clusters, by the clusters' names, and those
/// of every other cluster.
#[derive(Debug)]
pub struct SchedConfig<C> {
    clusters: Vec<(String, ClusterSchedConfig<C>)>,
    default: ClusterSchedConfig<C>,
}

/// What a list of assignments sets; a later one replaces an earlier one of the
/// same name.
spec fn assigned<C>(entries: Seq<(String, ClusterSchedConfig<C>)>) -> Map<
    Seq<char>,
    ClusterSchedConfig<C>,
>
    decreases entries.len(),
{
    if entries.len() == 0 {
        Map::empty()
    } else {
        assigned(entries.drop_last()).insert(entries.last().0@, entries.last().1)
    }
}

/// What a configuration says.
pub struct Policy<C> {
    /// The parameters of the clusters that have their own, by name.
    pub clusters: Map<Seq<char>, ClusterSchedConfig<C>>,
    /// Those of all other clusters.
    pub default: ClusterSchedConfig<C>,
}

impl<C> View for SchedConfig<C> {
    type V = Policy<C>;

    closed spec fn view(&self) -> Policy<C> {
        Policy { clusters: assigned(self.clusters@), default: self.default }
    }
}

/// The parameters that hold for a cluster: its own, or else the default ones.
pub open spec fn config_for<C>(
    policy: Policy<C>,
    cluster: nat,
) -> ClusterSchedConfig<C> {
    if policy.clusters.contains_key(text::decimal(cluster)) {
        policy.clusters[text::decimal(cluster)]
    } else {
        policy.default
    }
}

impl<C: Copy> SchedConfig<C> {
    /// A configuration in which every cluster has the default parameters.
    pub fn new(default: ClusterSchedConfig<C>) -> (r: Self)
        ensures
            r@.clusters == Map::<Seq<char>, ClusterSchedConfig<C>>::empty(),
            r@.default == default,
    {
        SchedConfig { clusters: Vec::new(), default }
    }

    /// Sets the parameters of the cluster with this name.
    pub fn insert(&mut self, name: String, config: ClusterSchedConfig<C>)
        ensures
            final(self)@.clusters == old(self)@.clusters.insert(name@, config),
            final(self)@.default == old(self)@.default,
    {
        self.clusters.push((name, config));
        assert(self.clusters@.drop_last() == old(self).clusters@);
    }

    /// The parameters that were set for the cluster with this name.
    pub fn get(&self, name: &str) -> (r: Option<ClusterSchedConfig<C>>)
        ensures
            r == (if self@.clusters.contains_key(name@) {
                Some(self@.clusters[name@])
            } else {
                None
            }),
    {
        let mut found: Option<ClusterSchedConfig<C>> = None;
        for i in 0..self.clusters.len()
            invariant
                found == (if assigned(self.clusters@.take(i as int)).contains_key(name@) {
                    Some(assigned(self.clusters@.take(i as int))[name@])
                } else {
                    None
                }),
        {
            assert(self.clusters@.take(i + 1).drop_last() == self.clusters@.take(i as int));
            if text::same_text(self.clusters[i].0.as_str(), name) {
                found = Some(self.clusters[i].1);
            }
        }
        assert(self.clusters@.take(self.clusters@.len() as int) == self.clusters@);
        found
    }

    /// The parameters that hold for a cluster.
    pub fn for_cluster(&self, cluster: usize) -> (r: ClusterSchedConfig<C>)
        ensures
            r == config_for(self@, cluster as nat),
    {
        let mut name = String::new();
        text::push_decimal(&mut name, cluster as u64);
        assert(name@ =~= text::decimal(cluster as nat));
        match self.get(name.as_str()) {
            Some(config) => config,
            None => self.default,
        }
    }
}

// ---------------------------------------------------------------------------
// Checking a configuration against the machine
// ---------------------------------------------------------------------------

/// A binding to a CPU kind that the machine does not have.
#[derive(Debug)]
pub struct ConfigError {
    /// Whose binding it is: `default`, or `cluster` and the cluster's name.
    pub name: String,
    pub cpu_kind: u8,
    pub cpu_kind_num: u8,
}

impl ConfigError {
    /// What the error is reported as.
    pub open spec fn text(self) -> Seq<char> {
        "config "@ + self.name@ + ": cpu_kind="@ + text::decimal(self.cpu_kind as nat)
            + " exceeds this machine's "@ + text::decimal(self.cpu_kind_num as nat)
            + " kind(s) (valid: 0=shared, 1..="@ + text::decimal(self.cpu_kind_num as nat) + ")"@
    }

    /// What the error is reported as.
    pub fn message(&self) -> (r: String)
        ensures
            r@ == self.text(),
    {
        let mut s = String::new();
        s.push_str("config ");
        s.push_str(self.name.as_str());
        s.push_str(": cpu_kind=");
        text::push_decimal(&mut s, self.cpu_kind as u64);
        s.push_str(" exceeds this machine's ");
        text::push_decimal(&mut s, self.cpu_kind_num as u64);
        s.push_str(" kind(s) (valid: 0=shared, 1..=");
        text::push_decimal(&mut s, self.cpu_kind_num as u64);
        s.push_str(")");
        assert(s@ =~= self.text());
        s
    }
}

/// Whether every binding is to a CPU kind that the machine has: 0 (any kind) to
/// `cpu_kind_num`.
pub open spec fn kinds_valid<C>(
    policy: Policy<C>,
    cpu_kind_num: u8,
) -> bool {
    &&& policy.default.cpu_kind <= cpu_kind_num
    &&& forall|name: Seq<char>| #[trigger]
        policy.clusters.contains_key(name) ==> policy.clusters[name].cpu_kind <= cpu_kind_num
}

/// Whether `e` names a binding that the machine cannot serve. The default's goes
/// before those of the clusters.
pub open spec fn is_kind_fault<C>(
    policy: Policy<C>,
    cpu_kind_num: u8,
    e: ConfigError,
) -> bool {
    &&& e.cpu_kind_num == cpu_kind_num
    &&& e.cpu_kind > cpu_kind_num
    &&& if policy.default.cpu_kind > cpu_kind_num {
        e.name@ == "default"@ && e.cpu_kind == policy.default.cpu_kind
    } else {
        exists|name: Seq<char>| #[trigger]
            policy.clusters.contains_key(name) && e.name@ == "cluster "@ + name && e.cpu_kind
                == policy.clusters[name].cpu_kind
    }
}

proof fn lemma_assigned_names<C>(entries: Seq<(String, ClusterSchedConfig<C>)>, name: Seq<char>)
    ensures
        assigned(entries).contains_key(name) <==> exists|i: int|
            0 <= i < entries.len() && (#[trigger] entries[i]).0@ == name,
    decreases entries.len(),
{
    if entries.len() > 0 {
        let front = entries.drop_last();
        lemma_assigned_names(front, name);
        assert(entries[entries.len() - 1] == entries.last());
        if exists|i: int| 0 <= i < front.len() && (#[trigger] front[i]).0@ == name {
            let i = choose|i: int| 0 <= i < front.len() && (#[trigger] front[i]).0@ == name;
            assert(entries[i].0@ == name);
        }
        if exists|i: int| 0 <= i < entries.len() && (#[trigger] entries[i]).0@ == name {
            let i = choose|i: int| 0 <= i < entries.len() && (#[trigger] entries[i]).0@ == name;
            if i < front.len() {
                assert(front[i].0@ == name);
            }
        }
    }
}

/// Reject any cluster (or the default) whose `cpu_kind` exceeds the machine's
/// kind count. A binding to a kind that does not exist would leave its tasks to
/// no CPU at all.
pub fn validate_config_kinds<C: Copy>(cfg: &SchedConfig<C>, cpu_kind_num: u8) -> (r: Result<
    (),
    ConfigError,
>)
    ensures
        r is Ok <==> kinds_valid(cfg@, cpu_kind_num),
        r matches Err(e) ==> is_kind_fault(cfg@, cpu_kind_num, e),
{
    if cfg.default.cpu_kind > cpu_kind_num {
        let mut name = String::new();
        name.push_str("default");
        assert(name@ =~= "default"@);
        return Err(ConfigError { name, cpu_kind: cfg.default.cpu_kind, cpu_kind_num });
    }
    for i in 0..cfg.clusters.len()
        invariant
            cfg.default.cpu_kind <= cpu_kind_num,
            forall|j: int|
                0 <= j < i ==> cfg@.clusters[(#[trigger] cfg.clusters@[j]).0@].cpu_kind <= cpu_kind_num,
    {
        let name = &cfg.clusters[i].0;
        proof {
            lemma_assigned_names(cfg.clusters@, name@);
            assert(cfg.clusters@[i as int].0@ == name@);
            assert(cfg@.clusters.contains_key(name@));
        }
        if let Some(config) = cfg.get(name.as_str()) {
            if config.cpu_kind > cpu_kind_num {
                let mut label = String::new();
                label.push_str("cluster ");
                label.push_str(name.as_str());
                assert(label@ =~= "cluster "@ + name@);
                return Err(ConfigError { name: label, cpu_kind: config.cpu_kind, cpu_kind_num });
            }
        }
    }
    proof {
        assert forall|name: Seq<char>| #[trigger] cfg@.clusters.contains_key(name) implies cfg@.clusters[name].cpu_kind
            <= cpu_kind_num by {
            lemma_assigned_names(cfg.clusters@, name);
            let j = choose|j: int|
                0 <= j < cfg.clusters@.len() && (#[trigger] cfg.clusters@[j]).0@ == name;
            assert(cfg@.clusters[cfg.clusters@[j].0@].cpu_kind <= cpu_kind_num);
        }
    }
    Ok(())
}

/// Under a valid configuration, no cluster's tasks are bound to a CPU kind that
/// the machine does not have.
pub proof fn law_valid_config_serves_every_cluster<C>(
    policy: Policy<C>,
    cpu_kind_num: u8,
    cluster: nat,
)
    requires
        kinds_valid(policy, cpu_kind_num),
    ensures
        config_for(policy, cluster).cpu_kind <= cpu_kind_num,
{
}

// ---------------------------------------------------------------------------
// Time slices
// ---------------------------------------------------------------------------

/// The shortest adaptive slice: 1us.
pub const MIN_SLICE_NS: u64 = 1000;

/// Whether a slice can be `slice_ns` long: as configured, or as `adaptive_ns`
/// computes it from the task's statistics and the configured sigma, but no
/// shorter than 1us.
pub open spec fn slices_to<S, C, A: Fn(TaskStats<S>, C) -> u64>(
    slice: SliceConfig<C>,
    ts: TaskStats<S>,
    adaptive_ns: A,
    slice_ns: u64,
) -> bool {
    match slice {
        SliceConfig::Fixed { slice_ns: ns } => slice_ns == ns,
        SliceConfig::Adaptive { slice_sigma } => exists|ns: u64| #[trigger]
            call_ensures(adaptive_ns, (ts, slice_sigma), ns) && slice_ns == if ns < MIN_SLICE_NS {
                MIN_SLICE_NS
            } else {
                ns
            },
    }
}

impl<C: Copy> ClusterSchedConfig<C> {
    /// Compute the slice in ns for a task. `adaptive_ns` gives the average
    /// runtime plus sigma times its standard deviation, rounded towards zero.
    pub fn compute_slice_ns<S: Copy, A: Fn(TaskStats<S>, C) -> u64>(
        &self,
        ts: TaskStats<S>,
        adaptive_ns: &A,
    ) -> (r: u64)
        requires
            forall|ts: TaskStats<S>, sigma: C| #[trigger] call_requires(*adaptive_ns, (ts, sigma)),
        ensures
            slices_to(self.slice, ts, *adaptive_ns, r),
    {
        match self.slice {
            SliceConfig::Fixed { slice_ns } => slice_ns,
            SliceConfig::Adaptive { slice_sigma } => {
                let ns = adaptive_ns(ts, slice_sigma);
                if ns < MIN_SLICE_NS {
                    MIN_SLICE_NS
                } else {
                    ns
                }
            },
        }
    }
}

// ---------------------------------------------------------------------------
// A classify cycle
// ---------------------------------------------------------------------------

/// One task's scheduling state at the end of a classify cycle.
#[derive(Debug, Clone, Copy, PartialEq, Eq, Structural)]
pub struct TaskSnapshot {
    pub tid: i32,
    pub cluster: usize,
    pub prio: i32,
    pub slice_ns: u64,
    pub cpu_kind: u8,
    pub cpu_prefer: u8,
}

/// One entry for the kernel side's table of scheduling parameters.
#[derive(Debug, Clone, Copy)]
pub struct SchedUpdate {
    pub key: [u8; 4],
    pub value: [u8; 16],
}

/// The outcome of a classify cycle.
#[derive(Debug)]
pub struct CycleReport {
    /// One entry per task predicted in this cycle.
    pub snapshot: Vec<TaskSnapshot>,
    /// The same entries for the kernel side, in the same order.
    pub updates: Vec<SchedUpdate>,
    /// The predicted tasks of each cluster.
    pub cluster_tids: Vec<Vec<i32>>,
}

/// Whether `entry` is what a cycle decides for the task `tid` with the
/// statistics `ts`: `predict` puts it into a cluster, whose parameters it gets.
pub open spec fn plans<S, C, K: Fn(TaskStats<S>) -> usize, A: Fn(TaskStats<S>, C) -> u64>(
    tid: i32,
    ts: TaskStats<S>,
    policy: Policy<C>,
    predict: K,
    adaptive_ns: A,
    entry: TaskSnapshot,
) -> bool {
    let config = config_for(policy, entry.cluster as nat);
    &&& entry.tid == tid
    &&& call_ensures(predict, (ts,), entry.cluster)
    &&& entry.prio == config.prio
    &&& entry.cpu_kind == config.cpu_kind
    &&& entry.cpu_prefer == config.cpu_prefer
    &&& slices_to(config.slice, ts, adaptive_ns, entry.slice_ns)
}

/// Whether `u` tells the kernel side what `entry` says, in the given byte order.
pub open spec fn is_update_for(entry: TaskSnapshot, order: ByteOrder, u: SchedUpdate) -> bool {
    &&& wire::number(u.key@, order) == wire::pattern(entry.tid)
    &&& wire::is_sched_info(
        u.value@,
        order,
        entry.prio,
        entry.cpu_kind,
        entry.cpu_prefer,
        entry.slice_ns,
    )
}

/// Whether `updates` tell the kernel side what `snapshot` says, all in the given
/// byte order.
pub open spec fn are_updates_for(
    snapshot: Seq<TaskSnapshot>,
    order: ByteOrder,
    updates: Seq<SchedUpdate>,
) -> bool {
    &&& updates.len() == snapshot.len()
    &&& forall|i: int|
        0 <= i < snapshot.len() ==> is_update_for(snapshot[i], order, #[trigger] updates[i])
}

/// The tasks among `snapshot` that are in `cluster`, in their order.
pub open spec fn tids_in(snapshot: Seq<TaskSnapshot>, cluster: int) -> Seq<i32>
    decreases snapshot.len(),
{
    if snapshot.len() == 0 {
        Seq::empty()
    } else {
        let front = tids_in(snapshot.drop_last(), cluster);
        if snapshot.last().cluster == cluster {
            front.push(snapshot.last().tid)
        } else {
            front
        }
    }
}

impl CycleReport {
    /// Whether this is the report on the tasks of `due`, with the updates in the
    /// given byte order.
    pub open spec fn is_about<
        S,
        C,
        K: Fn(TaskStats<S>) -> usize,
        A: Fn(TaskStats<S>, C) -> u64,
    >(
        self,
        due: Seq<i32>,
        tasks: Map<i32, TaskStats<S>>,
        policy: Policy<C>,
        n_clusters: usize,
        predict: K,
        adaptive_ns: A,
        order: ByteOrder,
    ) -> bool {
        &&& self.snapshot@.len() == due.len()
        &&& forall|i: int|
            0 <= i < due.len() ==> plans(
                due[i],
                tasks[due[i]],
                policy,
                predict,
                adaptive_ns,
                #[trigger] self.snapshot@[i],
            )
        &&& are_updates_for(self.snapshot@, order, self.updates@)
        &&& self.cluster_tids@.len() == n_clusters
        &&& forall|k: int|
            0 <= k < n_clusters ==> (#[trigger] self.cluster_tids@[k])@ == tids_in(
                self.snapshot@,
                k,
            )
    }
}

/// The entry for the kernel side that says what `entry` says.
pub fn update_for(entry: &TaskSnapshot, order: ByteOrder) -> (u: SchedUpdate)
    ensures
        is_update_for(*entry, order, u),
{
    SchedUpdate {
        key: task_key(entry.tid, order),
        value: encode_sched_info(
            entry.prio,
            entry.cpu_kind,
            entry.cpu_prefer,
            entry.slice_ns,
            order,
        ),
    }
}

fn no_tids(n: usize) -> (r: Vec<Vec<i32>>)
    ensures
        r@.len() == n,
        forall|k: int| 0 <= k < n ==> (#[trigger] r@[k])@ == Seq::<i32>::empty(),
{
    let mut r: Vec<Vec<i32>> = Vec::new();
    for i in 0..n
        invariant
            r@.len() == i,
            forall|k: int| 0 <= k < i ==> (#[trigger] r@[k])@ == Seq::<i32>::empty(),
    {
        r.push(Vec::new());
    }
    r
}

/// Decide on the scheduling parameters of the tasks of `due`, and write them in
/// the machine's byte order.
pub fn plan_tasks<S: Copy, C: Copy, K: Fn(TaskStats<S>) -> usize, A: Fn(TaskStats<S>, C) -> u64>(
    due: &Vec<i32>,
    stats: &StatsMap<S>,
    cfg: &SchedConfig<C>,
    n_clusters: usize,
    predict: &K,
    adaptive_ns: &A,
) -> (report: CycleReport)
    requires
        forall|i: int| 0 <= i < due@.len() ==> stats@.contains_key(#[trigger] due@[i]),
        forall|ts: TaskStats<S>| #[trigger] call_requires(*predict, (ts,)),
        forall|ts: TaskStats<S>, k: usize| #[trigger]
            call_ensures(*predict, (ts,), k) ==> k < n_clusters,
        forall|ts: TaskStats<S>, sigma: C| #[trigger] call_requires(*adaptive_ns, (ts, sigma)),
    ensures
        exists|order: ByteOrder|
            wire::is_machine_order(order) && #[trigger] report.is_about(
                due@,
                stats@,
                cfg@,
                n_clusters,
                *predict,
                *adaptive_ns,
                order,
            ),
{
    let order = machine_order();
    plan_tasks_in(due, stats, cfg, n_clusters, predict, adaptive_ns, order)
}

/// Decide on the scheduling parameters of the tasks of `due`, and write them in
/// the given byte order.
pub fn plan_tasks_in<
    S: Copy,
    C: Copy,
    K: Fn(TaskStats<S>) -> usize,
    A: Fn(TaskStats<S>, C) -> u64,
>(
    due: &Vec<i32>,
    stats: &StatsMap<S>,
    cfg: &SchedConfig<C>,
    n_clusters: usize,
    predict: &K,
    adaptive_ns: &A,
    order: ByteOrder,
) -> (report: CycleReport)
    requires
        forall|i: int| 0 <= i < due@.len() ==> stats@.contains_key(#[trigger] due@[i]),
        forall|ts: TaskStats<S>| #[trigger] call_requires(*predict, (ts,)),
        forall|ts: TaskStats<S>, k: usize| #[trigger]
            call_ensures(*predict, (ts,), k) ==> k < n_clusters,
        forall|ts: TaskStats<S>, sigma: C| #[trigger] call_requires(*adaptive_ns, (ts, sigma)),
    ensures
        report.is_about(due@, stats@, cfg@, n_clusters, *predict, *adaptive_ns, order),
{
    let mut snapshot: Vec<TaskSnapshot> = Vec::new();
    let mut updates: Vec<SchedUpdate> = Vec::new();
    let mut cluster_tids = no_tids(n_clusters);
    for i in 0..due.len()
        invariant
            forall|i: int| 0 <= i < due@.len() ==> stats@.contains_key(#[trigger] due@[i]),
            forall|ts: TaskStats<S>| #[trigger] call_requires(*predict, (ts,)),
            forall|ts: TaskStats<S>, k: usize| #[trigger]
                call_ensures(*predict, (ts,), k) ==> k < n_clusters,
            forall|ts: TaskStats<S>, sigma: C| #[trigger] call_requires(*adaptive_ns, (ts, sigma)),
            snapshot@.len() == i,
            forall|j: int|
                0 <= j < i ==> plans(
                    due@[j],
                    stats@[due@[j]],
                    cfg@,
                    *predict,
                    *adaptive_ns,
                    #[trigger] snapshot@[j],
                ),
            are_updates_for(snapshot@, order, updates@),
            cluster_tids@.len() == n_clusters,
            forall|k: int|
                0 <= k < n_clusters ==> (#[trigger] cluster_tids@[k])@ == tids_in(snapshot@, k),
    {
        let tid = due[i];
        assert(stats@.contains_key(due@[i as int]));
        if let Some(ts) = stats.get(tid) {
            let cluster = predict(ts);
            let config = cfg.for_cluster(cluster);
            let entry = TaskSnapshot {
                tid,
                cluster,
                prio: config.prio,
                slice_ns: config.compute_slice_ns(ts, adaptive_ns),
                cpu_kind: config.cpu_kind,
                cpu_prefer: config.cpu_prefer,
            };
            let ghost before = snapshot@;
            updates.push(update_for(&entry, order));
            snapshot.push(entry);
            assert(snapshot@.drop_last() == before);
            let ghost lists = cluster_tids@;
            cluster_tids[cluster].push(tid);
            assert forall|k: int| 0 <= k < n_clusters implies (#[trigger] cluster_tids@[k])@
                == tids_in(snapshot@, k) by {
                assert(lists[k]@ == tids_in(before, k));
            }
        }
    }
    CycleReport { snapshot, updates, cluster_tids }
}

proof fn lemma_due_are_known<S, P: Fn(i32) -> Option<i32>>(
    before: Map<i32, TaskStats<S>>,
    order: Seq<i32>,
    min_events: u64,
    game_ppid: i32,
    parent_of: P,
    after: (Map<i32, TaskStats<S>>, Seq<i32>),
)
    requires
        stats_map::classify_cycle(before, order, min_events, game_ppid, parent_of, after),
    ensures
        forall|i: int| 0 <= i < after.1.len() ==> after.0.contains_key(#[trigger] after.1[i]),
    decreases order.len(),
{
    if order.len() > 0 {
        let mid = choose|mid: (Map<i32, TaskStats<S>>, Seq<i32>)| #[trigger]
            stats_map::classify_visit(mid, order.last(), min_events, game_ppid, parent_of, after)
                && stats_map::classify_cycle(
                before,
                order.drop_last(),
                min_events,
                game_ppid,
                parent_of,
                mid,
            );
        lemma_due_are_known(before, order.drop_last(), min_events, game_ppid, parent_of, mid);
        assert forall|i: int| 0 <= i < after.1.len() implies after.0.contains_key(
            #[trigger] after.1[i],
        ) by {
            if i < mid.1.len() {
                assert(after.1[i] == mid.1[i]);
                assert(mid.0.contains_key(mid.1[i]));
            }
        }
    }
}

/// Run one classify cycle: predict each eligible task's cluster, and decide on
/// the resulting parameters. Only tasks with new data since the last cycle are
/// predicted; every eligible task that has not converged takes one step towards
/// its root.
///
/// `parent_of` gives the parent of a task without statistics, `predict` a task's
/// cluster, `adaptive_ns` an adaptive slice.
pub fn run_classify_cycle<
    S: Copy,
    C: Copy,
    P: Fn(i32) -> Option<i32>,
    K: Fn(TaskStats<S>) -> usize,
    A: Fn(TaskStats<S>, C) -> u64,
>(
    stats: &mut StatsMap<S>,
    cfg: &SchedConfig<C>,
    n_clusters: usize,
    min_events: u64,
    game_ppid: i32,
    parent_of: &P,
    predict: &K,
    adaptive_ns: &A,
) -> (report: CycleReport)
    requires
        forall|p: i32| #[trigger] call_requires(*parent_of, (p,)),
        forall|ts: TaskStats<S>| #[trigger] call_requires(*predict, (ts,)),
        forall|ts: TaskStats<S>, k: usize| #[trigger]
            call_ensures(*predict, (ts,), k) ==> k < n_clusters,
        forall|ts: TaskStats<S>, sigma: C| #[trigger] call_requires(*adaptive_ns, (ts, sigma)),
    ensures
        exists|walk: Seq<i32>, due: Seq<i32>, order: ByteOrder|
            {
                &&& stats_map::is_walk(old(stats)@, walk)
                &&& #[trigger] stats_map::classify_cycle(
                    old(stats)@,
                    walk,
                    min_events,
                    game_ppid,
                    *parent_of,
                    (final(stats)@, due),
                )
                &&& wire::is_machine_order(order)
                &&& #[trigger] report.is_about(
                    due,
                    final(stats)@,
                    cfg@,
                    n_clusters,
                    *predict,
                    *adaptive_ns,
                    order,
                )
            },
        stats_map::ancestors_set(old(stats)@) ==> stats_map::ancestors_set(final(stats)@),
{
    let due = classify_tasks(stats, min_events, game_ppid, parent_of);
    proof {
        let order = choose|order: Seq<i32>| #[trigger]
            stats_map::is_walk(old(stats)@, order) && stats_map::classify_cycle(
                old(stats)@,
                order,
                min_events,
                game_ppid,
                *parent_of,
                (stats@, due@),
            );
        lemma_due_are_known(
            old(stats)@,
            order,
            min_events,
            game_ppid,
            *parent_of,
            (stats@, due@),
        );
    }
    plan_tasks(&due, stats, cfg, n_clusters, predict, adaptive_ns)
}

/// How many tasks the clusters below `n` hold together.
pub open spec fn tasks_below(snapshot: Seq<TaskSnapshot>, n: nat) -> nat
    decreases n,
{
    if n == 0 {
        0
    } else {
        tasks_below(snapshot, (n - 1) as nat) + tids_in(snapshot, n - 1).len()
    }
}

proof fn lemma_one_more_task(snapshot: Seq<TaskSnapshot>, n: nat)
    requires
        snapshot.len() > 0,
    ensures
        tasks_below(snapshot, n) == tasks_below(snapshot.drop_last(), n) + if snapshot.last().cluster
            < n {
            1nat
        } else {
            0
        },
    decreases n,
{
    if n > 0 {
        lemma_one_more_task(snapshot, (n - 1) as nat);
    }
}

/// Every predicted task stands in the list of exactly one cluster: together the
/// lists hold as many tasks as were predicted.
pub proof fn law_clusters_share_out_the_tasks(snapshot: Seq<TaskSnapshot>, n: nat)
    requires
        forall|i: int| 0 <= i < snapshot.len() ==> (#[trigger] snapshot[i]).cluster < n,
    ensures
        tasks_below(snapshot, n) == snapshot.len(),
    decreases snapshot.len(),
{
    if snapshot.len() == 0 {
        lemma_no_tasks(snapshot, n);
    } else {
        let front = snapshot.drop_last();
        assert forall|i: int| 0 <= i < front.len() implies (#[trigger] front[i]).cluster < n by {
            assert(front[i] == snapshot[i]);
        }
        law_clusters_share_out_the_tasks(front, n);
        lemma_one_more_task(snapshot, n);
        assert(snapshot[snapshot.len() - 1] == snapshot.last());
    }
}

proof fn lemma_no_tasks(snapshot: Seq<TaskSnapshot>, n: nat)
    requires
        snapshot.len() == 0,
    ensures
        tasks_below(snapshot, n) == 0,
    decreases n,
{
    if n > 0 {
        lemma_no_tasks(snapshot, (n - 1) as nat);
    }
}

/// How long a prediction took on average, in ns; 0 where there was none.
pub fn avg_per_task_ns(cpu_us: u128, tasks: usize) -> (r: u128)
    requires
        cpu_us * 1000 <= u128::MAX,
    ensures
        r == (if tasks > 0 {
            cpu_us * 1000 / tasks as int
        } else {
            0
        }),
{
    if tasks > 0 {
        (cpu_us * 1000) / tasks as u128
    } else {
        0
    }
}

} // verus!
