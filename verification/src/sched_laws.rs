//! What holds of scheduling parameters and classify cycles.

use crate::sched;
use crate::sched::{
    ClusterSchedConfig, ConfigError, CycleReport, Policy, SliceConfig, TaskSnapshot,
};
use crate::task_stats::TaskStats;
use crate::text;
use crate::text_laws::law_printed_numbers_differ;
use crate::wire;
use crate::wire::ByteOrder;
use vstd::prelude::*;

verus! {

// ---------------------------------------------------------------------------
// The parameters of a cluster
// ---------------------------------------------------------------------------

/// A cluster whose name is set has exactly what is set for it, in every field;
/// any other cluster has exactly the default, in every field.
pub proof fn law_cluster_has_its_own_parameters<C>(
    policy: Policy<C>,
    cluster: nat,
    own: ClusterSchedConfig<C>,
)
    ensures
        policy.clusters.contains_pair(text::decimal(cluster), own) ==> {
            let r = sched::config_for(policy, cluster);
            &&& r.prio == own.prio
            &&& r.cpu_kind == own.cpu_kind
            &&& r.cpu_prefer == own.cpu_prefer
            &&& r.slice == own.slice
        },
        !policy.clusters.contains_key(text::decimal(cluster)) ==> {
            let r = sched::config_for(policy, cluster);
            &&& r.prio == policy.default.prio
            &&& r.cpu_kind == policy.default.cpu_kind
            &&& r.cpu_prefer == policy.default.cpu_prefer
            &&& r.slice == policy.default.slice
        },
{
}

/// What is set for a cluster is what the cluster gets, whatever the default and
/// whatever was set before.
pub proof fn law_set_parameters_are_read_back<C>(
    clusters: Map<Seq<char>, ClusterSchedConfig<C>>,
    default: ClusterSchedConfig<C>,
    cluster: nat,
    config: ClusterSchedConfig<C>,
)
    ensures
        sched::config_for(
            Policy { clusters: clusters.insert(text::decimal(cluster), config), default },
            cluster,
        ) == config,
{
}

/// Setting one cluster's parameters leaves those of every other cluster alone.
pub proof fn law_setting_leaves_the_others_alone<C>(
    policy: Policy<C>,
    cluster: nat,
    config: ClusterSchedConfig<C>,
    other: nat,
)
    requires
        other != cluster,
    ensures
        sched::config_for(
            Policy {
                clusters: policy.clusters.insert(text::decimal(cluster), config),
                default: policy.default,
            },
            other,
        ) == sched::config_for(policy, other),
{
    if text::decimal(cluster) == text::decimal(other) {
        law_printed_numbers_differ(cluster, other);
    }
}

/// The default reaches exactly the clusters that have nothing of their own.
pub proof fn law_default_is_for_the_rest<C>(
    clusters: Map<Seq<char>, ClusterSchedConfig<C>>,
    a: ClusterSchedConfig<C>,
    b: ClusterSchedConfig<C>,
    cluster: nat,
)
    ensures
        clusters.contains_key(text::decimal(cluster)) ==> sched::config_for(
            Policy { clusters, default: a },
            cluster,
        ) == sched::config_for(Policy { clusters, default: b }, cluster),
        !clusters.contains_key(text::decimal(cluster)) ==> sched::config_for(
            Policy { clusters, default: a },
            cluster,
        ) == a,
{
}

// ---------------------------------------------------------------------------
// Bindings
// ---------------------------------------------------------------------------

/// A configuration passes exactly if no binding, the default's or a cluster's, is
/// beyond the machine's kinds. One binding that is, suffices to refuse it.
pub proof fn law_one_bad_binding_is_refused<C>(policy: Policy<C>, kinds: u8, name: Seq<char>)
    ensures
        policy.default.cpu_kind > kinds ==> !sched::kinds_valid(policy, kinds),
        policy.clusters.contains_key(name) && policy.clusters[name].cpu_kind > kinds
            ==> !sched::kinds_valid(policy, kinds),
        !sched::kinds_valid(policy, kinds) ==> policy.default.cpu_kind > kinds || exists|
            bad: Seq<char>,
        | #[trigger]
            policy.clusters.contains_key(bad) && policy.clusters[bad].cpu_kind > kinds,
{
}

/// What a refusal names is a binding beyond the machine's kinds: the default's if
/// that is one, else that of a cluster, under its name and with its own number.
pub proof fn law_refusal_names_the_binding<C>(policy: Policy<C>, kinds: u8, e: ConfigError)
    requires
        sched::is_kind_fault(policy, kinds, e),
    ensures
        e.cpu_kind_num == kinds,
        e.cpu_kind > kinds,
        policy.default.cpu_kind > kinds ==> e.name@ == "default"@ && e.cpu_kind
            == policy.default.cpu_kind,
        policy.default.cpu_kind <= kinds ==> exists|bad: Seq<char>| #[trigger]
            policy.clusters.contains_key(bad) && policy.clusters[bad].cpu_kind > kinds
                && policy.clusters[bad].cpu_kind == e.cpu_kind && e.name@ == "cluster "@ + bad,
        !sched::kinds_valid(policy, kinds),
{
}

/// The words of a refusal, piece by piece.
pub proof fn law_refusal_text(e: ConfigError)
    ensures
        text::starts_with(e.text(), "config "@ + e.name@ + ": cpu_kind="@),
        e.text() == "config "@ + e.name@ + (": cpu_kind="@ + text::decimal(e.cpu_kind as nat)) + (
        " exceeds this machine's "@ + text::decimal(e.cpu_kind_num as nat)) + (
        " kind(s) (valid: 0=shared, 1..="@ + text::decimal(e.cpu_kind_num as nat)) + ")"@,
{
    let start = "config "@ + e.name@ + ": cpu_kind="@;
    assert(e.text().take(start.len() as int) =~= start);
}

// ---------------------------------------------------------------------------
// Slices
// ---------------------------------------------------------------------------

/// A fixed slice is as long as configured, however short that is.
pub proof fn law_fixed_slice<S, C, A: Fn(TaskStats<S>, C) -> u64>(
    configured: u64,
    ts: TaskStats<S>,
    adaptive_ns: A,
    slice_ns: u64,
)
    ensures
        sched::slices_to(
            SliceConfig::Fixed { slice_ns: configured },
            ts,
            adaptive_ns,
            slice_ns,
        ) <==> slice_ns == configured,
{
}

/// An adaptive slice is what `adaptive_ns` makes of the task and of the configured
/// sigma, but never shorter than a microsecond.
pub proof fn law_adaptive_slice<S, C, A: Fn(TaskStats<S>, C) -> u64>(
    sigma: C,
    ts: TaskStats<S>,
    adaptive_ns: A,
    slice_ns: u64,
    ns: u64,
)
    ensures
        sched::slices_to(
            SliceConfig::Adaptive { slice_sigma: sigma },
            ts,
            adaptive_ns,
            slice_ns,
        ) ==> slice_ns >= 1000 && exists|got: u64| #[trigger]
            call_ensures(adaptive_ns, (ts, sigma), got) && (slice_ns == got || got < 1000
                && slice_ns == 1000),
        call_ensures(adaptive_ns, (ts, sigma), ns) && ns >= 1000 ==> sched::slices_to(
            SliceConfig::Adaptive { slice_sigma: sigma },
            ts,
            adaptive_ns,
            ns,
        ),
        call_ensures(adaptive_ns, (ts, sigma), ns) && ns < 1000 ==> sched::slices_to(
            SliceConfig::Adaptive { slice_sigma: sigma },
            ts,
            adaptive_ns,
            1000,
        ),
{
}

// ---------------------------------------------------------------------------
// A classify cycle
// ---------------------------------------------------------------------------

/// A report has one entry per task that was due, in that order: the task's own
/// number, a cluster that `predict` gave for that task's statistics, and all the
/// parameters set for that cluster.
pub proof fn law_report_serves_every_due_task<
    S,
    C,
    K: Fn(TaskStats<S>) -> usize,
    A: Fn(TaskStats<S>, C) -> u64,
>(
    report: CycleReport,
    due: Seq<i32>,
    tasks: Map<i32, TaskStats<S>>,
    policy: Policy<C>,
    n_clusters: usize,
    predict: K,
    adaptive_ns: A,
    order: ByteOrder,
    i: int,
    own: ClusterSchedConfig<C>,
)
    requires
        report.is_about(due, tasks, policy, n_clusters, predict, adaptive_ns, order),
        0 <= i < due.len(),
    ensures
        report.snapshot@.len() == due.len(),
        report.updates@.len() == due.len(),
        report.cluster_tids@.len() == n_clusters,
        report.snapshot@[i].tid == due[i],
        call_ensures(predict, (tasks[due[i]],), report.snapshot@[i].cluster),
        policy.clusters.contains_pair(
            text::decimal(report.snapshot@[i].cluster as nat),
            own,
        ) || !policy.clusters.contains_key(text::decimal(report.snapshot@[i].cluster as nat))
            && own == policy.default ==> {
            &&& report.snapshot@[i].prio == own.prio
            &&& report.snapshot@[i].cpu_kind == own.cpu_kind
            &&& report.snapshot@[i].cpu_prefer == own.cpu_prefer
            &&& sched::slices_to(
                own.slice,
                tasks[due[i]],
                adaptive_ns,
                report.snapshot@[i].slice_ns,
            )
        },
{
    let entry = report.snapshot@[i];
    assert(sched::plans(due[i], tasks[due[i]], policy, predict, adaptive_ns, entry));
}

/// Each entry has its update, in the same place: the task as the key, and as the
/// value the four parameters, each in its own bytes, all in one byte order.
pub proof fn law_updates_say_what_the_entries_say<
    S,
    C,
    K: Fn(TaskStats<S>) -> usize,
    A: Fn(TaskStats<S>, C) -> u64,
>(
    report: CycleReport,
    due: Seq<i32>,
    tasks: Map<i32, TaskStats<S>>,
    policy: Policy<C>,
    n_clusters: usize,
    predict: K,
    adaptive_ns: A,
    order: ByteOrder,
    i: int,
)
    requires
        report.is_about(due, tasks, policy, n_clusters, predict, adaptive_ns, order),
        0 <= i < due.len(),
    ensures
        ({
            let u = report.updates@[i];
            let entry = report.snapshot@[i];
            &&& wire::number(u.key@, order) == wire::pattern(due[i])
            &&& wire::is_sched_info(
                u.value@,
                order,
                entry.prio,
                entry.cpu_kind,
                entry.cpu_prefer,
                entry.slice_ns,
            )
        }),
{
    let u = report.updates@[i];
    assert(sched::is_update_for(report.snapshot@[i], order, u));
    assert(sched::plans(
        due[i],
        tasks[due[i]],
        policy,
        predict,
        adaptive_ns,
        report.snapshot@[i],
    ));
}

/// The list of a cluster holds the tasks of the entries that are in it, and no
/// other, in the order of the entries.
pub proof fn law_cluster_lists_its_tasks(snapshot: Seq<TaskSnapshot>, cluster: int)
    ensures
        sched::tids_in(snapshot, cluster) == snapshot.filter(
            |e: TaskSnapshot| e.cluster == cluster,
        ).map_values(|e: TaskSnapshot| e.tid),
    decreases snapshot.len(),
{
    reveal(Seq::filter);
    let keep = |e: TaskSnapshot| e.cluster == cluster;
    let tid = |e: TaskSnapshot| e.tid;
    if snapshot.len() > 0 {
        law_cluster_lists_its_tasks(snapshot.drop_last(), cluster);
        let front = snapshot.drop_last().filter(keep);
        if keep(snapshot.last()) {
            assert(front.push(snapshot.last()).map_values(tid) =~= front.map_values(tid).push(
                snapshot.last().tid,
            ));
        }
    }
    assert(sched::tids_in(snapshot, cluster) =~= snapshot.filter(keep).map_values(tid));
}

/// A report has, for each of its clusters, the list of the cluster's tasks.
pub proof fn law_report_lists_every_cluster<
    S,
    C,
    K: Fn(TaskStats<S>) -> usize,
    A: Fn(TaskStats<S>, C) -> u64,
>(
    report: CycleReport,
    due: Seq<i32>,
    tasks: Map<i32, TaskStats<S>>,
    policy: Policy<C>,
    n_clusters: usize,
    predict: K,
    adaptive_ns: A,
    order: ByteOrder,
    cluster: int,
)
    requires
        report.is_about(due, tasks, policy, n_clusters, predict, adaptive_ns, order),
        0 <= cluster < n_clusters,
    ensures
        report.cluster_tids@[cluster]@ == report.snapshot@.filter(
            |e: TaskSnapshot| e.cluster == cluster,
        ).map_values(|e: TaskSnapshot| e.tid),
{
    assert(report.cluster_tids@[cluster]@ == sched::tids_in(report.snapshot@, cluster));
    law_cluster_lists_its_tasks(report.snapshot@, cluster);
}

/// Two tasks have the same key only if they are the same task.
pub proof fn law_keys_tell_tasks_apart(a: i32, b: i32)
    ensures
        wire::pattern(a) == wire::pattern(b) <==> a == b,
{
}

} // verus!
