//! What holds of every topology.

use crate::text;
use crate::topology;
use crate::topology::{CpuInfo, KindGroup, Topology};
use vstd::prelude::*;

verus! {

/// Two lists that hold the same numbers, each in the order that `less` gives,
/// are the same list.
proof fn lemma_ordered_lists_agree(a: Seq<u32>, b: Seq<u32>, less: spec_fn(u32, u32) -> bool)
    requires
        forall|i: int, j: int| 0 <= i < j < a.len() ==> less(#[trigger] a[i], #[trigger] a[j]),
        forall|i: int, j: int| 0 <= i < j < b.len() ==> less(#[trigger] b[i], #[trigger] b[j]),
        forall|x: u32, y: u32| #[trigger] less(x, y) ==> !less(y, x),
        forall|x: u32| #[trigger] a.contains(x) <==> b.contains(x),
    ensures
        a == b,
    decreases a.len(),
{
    if a.len() == 0 {
        if b.len() > 0 {
            assert(b.contains(b[0]));
            assert(a.contains(b[0]));
        }
        assert(a =~= b);
    } else {
        assert(a.contains(a[0]));
        assert(b.contains(a[0]));
        let j = choose|j: int| 0 <= j < b.len() && b[j] == a[0];
        assert(b.contains(b[0]));
        assert(a.contains(b[0]));
        let i = choose|i: int| 0 <= i < a.len() && a[i] == b[0];
        if j > 0 {
            assert(less(b[0], b[j]));
            if i > 0 {
                assert(less(a[0], a[i]));
            }
        }
        assert(a[0] == b[0]);
        let ra = a.drop_first();
        let rb = b.drop_first();
        assert forall|x: u32| #[trigger] ra.contains(x) <==> rb.contains(x) by {
            if ra.contains(x) {
                let k = choose|k: int| 0 <= k < ra.len() && ra[k] == x;
                assert(a[k + 1] == x);
                assert(less(a[0], a[k + 1]));
                assert(a.contains(x));
                let m = choose|m: int| 0 <= m < b.len() && b[m] == x;
                assert(m > 0);
                assert(rb[m - 1] == x);
            }
            if rb.contains(x) {
                let k = choose|k: int| 0 <= k < rb.len() && rb[k] == x;
                assert(b[k + 1] == x);
                assert(less(b[0], b[k + 1]));
                assert(b.contains(x));
                assert(a.contains(x));
                let m = choose|m: int| 0 <= m < a.len() && a[m] == x;
                assert(m > 0);
                assert(ra[m - 1] == x);
            }
        }
        lemma_ordered_lists_agree(ra, rb, less);
        assert(a =~= seq![a[0]] + ra);
        assert(b =~= seq![b[0]] + rb);
    }
}

/// The ranking of a machine's frequencies is determined by them.
pub proof fn law_ranking_is_determined(freqs: Map<u32, u32>, a: Seq<u32>, b: Seq<u32>)
    requires
        topology::is_ranking(freqs, a),
        topology::is_ranking(freqs, b),
    ensures
        a == b,
{
    assert forall|x: u32| #[trigger] a.contains(x) <==> b.contains(x) by {
        if a.contains(x) {
            let i = choose|i: int| 0 <= i < a.len() && a[i] == x;
            let cpu = choose|cpu: u32| #[trigger] freqs.contains_key(cpu) && freqs[cpu] == a[i];
            assert(b.contains(freqs[cpu]));
        }
        if b.contains(x) {
            let i = choose|i: int| 0 <= i < b.len() && b[i] == x;
            let cpu = choose|cpu: u32| #[trigger] freqs.contains_key(cpu) && freqs[cpu] == b[i];
            assert(a.contains(freqs[cpu]));
        }
    }
    lemma_ordered_lists_agree(a, b, |x: u32, y: u32| x > y);
}

/// The order of a machine's CPUs from fast to slow is determined by their
/// frequencies and kinds.
pub proof fn law_fast_order_is_determined(
    freqs: Map<u32, u32>,
    info: Seq<CpuInfo>,
    a: Seq<u32>,
    b: Seq<u32>,
)
    requires
        topology::is_fast_order(freqs, info, a),
        topology::is_fast_order(freqs, info, b),
    ensures
        a == b,
{
    assert forall|x: u32| #[trigger] a.contains(x) <==> b.contains(x) by {
        if a.contains(x) {
            let i = choose|i: int| 0 <= i < a.len() && a[i] == x;
            assert(freqs.contains_key(a[i]));
        }
        if b.contains(x) {
            let i = choose|i: int| 0 <= i < b.len() && b[i] == x;
            assert(freqs.contains_key(b[i]));
        }
    }
    lemma_ordered_lists_agree(a, b, |x: u32, y: u32| topology::is_before(info, x, y));
}

/// A machine's topology is determined by the frequencies of its CPUs.
pub proof fn law_topology_is_determined(freqs: Map<u32, u32>, t: Topology, u: Topology)
    requires
        topology::is_topology_of(freqs, t),
        topology::is_topology_of(freqs, u),
    ensures
        t.cpu_num == u.cpu_num,
        t.cpu_kind_num == u.cpu_kind_num,
        t.cpu_info@ == u.cpu_info@,
        t.cpus_fast_to_slow@ == u.cpus_fast_to_slow@,
        t.cpus_slow_to_fast@ == u.cpus_slow_to_fast@,
{
    let (rt, ot) = choose|ranking: Seq<u32>, order: Seq<u32>| #[trigger]
        topology::is_ranking(freqs, ranking) && #[trigger] topology::is_fast_order(
            freqs,
            t.cpu_info@,
            order,
        ) && {
            &&& topology::is_cpu_table(freqs, ranking, t.cpu_info@)
            &&& t.cpu_num == topology::fitted(freqs.dom().len() as int)
            &&& t.cpu_kind_num == topology::fitted(ranking.len() as int)
            &&& t.cpus_fast_to_slow@ == topology::narrow(order)
            &&& t.cpus_slow_to_fast@ == topology::narrow(order).reverse()
        };
    let (ru, ou) = choose|ranking: Seq<u32>, order: Seq<u32>| #[trigger]
        topology::is_ranking(freqs, ranking) && #[trigger] topology::is_fast_order(
            freqs,
            u.cpu_info@,
            order,
        ) && {
            &&& topology::is_cpu_table(freqs, ranking, u.cpu_info@)
            &&& u.cpu_num == topology::fitted(freqs.dom().len() as int)
            &&& u.cpu_kind_num == topology::fitted(ranking.len() as int)
            &&& u.cpus_fast_to_slow@ == topology::narrow(order)
            &&& u.cpus_slow_to_fast@ == topology::narrow(order).reverse()
        };
    law_ranking_is_determined(freqs, rt, ru);
    let it = t.cpu_info@;
    let iu = u.cpu_info@;
    assert(it.len() == iu.len()) by {
        let lt = (it.len() - 1) as u32;
        let lu = (iu.len() - 1) as u32;
        assert(freqs.contains_key(lt) && freqs.contains_key(lu));
        assert(lt < iu.len() && lu < it.len());
    }
    assert forall|x: int| 0 <= x < it.len() implies it[x] == iu[x] by {
        let cpu = x as u32;
        assert((it.len() - 1) as u32 == it.len() - 1);
        assert(cpu == x);
        if freqs.contains_key(cpu) {
            assert(rt.contains(freqs[cpu]));
            let k = choose|k: int| 0 <= k < rt.len() && rt[k] == freqs[cpu];
            assert(it[cpu as int].cpu_kind == topology::kind_at(k));
        }
    }
    assert(it =~= iu);
    law_fast_order_is_determined(freqs, it, ot, ou);
}

/// Kinds are numbered fastest-first: the kind never rises with the frequency, and
/// kind 0 is that of the highest frequency. As long as there are kinds enough for
/// the frequencies, of two CPUs the one with the higher frequency has the lower
/// kind, and CPUs share a kind exactly if they share a frequency.
pub proof fn law_kinds_follow_speed(
    freqs: Map<u32, u32>,
    ranking: Seq<u32>,
    info: Seq<CpuInfo>,
    a: u32,
    b: u32,
)
    requires
        topology::is_ranking(freqs, ranking),
        topology::is_cpu_table(freqs, ranking, info),
        freqs.contains_key(a),
        freqs.contains_key(b),
    ensures
        freqs[a] >= freqs[b] ==> info[a as int].cpu_kind <= info[b as int].cpu_kind,
        ranking.len() <= 256 ==> (info[a as int].cpu_kind < info[b as int].cpu_kind <==> freqs[a]
            > freqs[b]),
        ranking.len() <= 256 ==> (info[a as int].cpu_kind == info[b as int].cpu_kind <==> freqs[a]
            == freqs[b]),
        info[a as int].cpu_kind == 0 <==> freqs[a] == ranking[0],
{
    assert(ranking.contains(freqs[a]));
    assert(ranking.contains(freqs[b]));
    let i = choose|i: int| 0 <= i < ranking.len() && ranking[i] == freqs[a];
    let j = choose|j: int| 0 <= j < ranking.len() && ranking[j] == freqs[b];
    assert(info[a as int].cpu_kind == topology::kind_at(i));
    assert(info[b as int].cpu_kind == topology::kind_at(j));
}

/// From fast to slow, frequencies never rise. There must be kinds enough for the
/// frequencies.
pub proof fn law_fast_order_descends(
    freqs: Map<u32, u32>,
    ranking: Seq<u32>,
    info: Seq<CpuInfo>,
    order: Seq<u32>,
    i: int,
    j: int,
)
    requires
        topology::is_ranking(freqs, ranking),
        topology::is_cpu_table(freqs, ranking, info),
        topology::is_fast_order(freqs, info, order),
        ranking.len() <= 256,
        0 <= i < j < order.len(),
    ensures
        freqs[order[i]] >= freqs[order[j]],
        freqs[order[i]] == freqs[order[j]] ==> order[i] < order[j],
{
    assert(topology::is_before(info, order[i], order[j]));
    assert(freqs.contains_key(order[i]) && freqs.contains_key(order[j]));
    law_kinds_follow_speed(freqs, ranking, info, order[i], order[j]);
}

/// Every CPU stands in the order exactly once.
pub proof fn law_every_cpu_once(freqs: Map<u32, u32>, info: Seq<CpuInfo>, order: Seq<u32>)
    requires
        topology::is_fast_order(freqs, info, order),
    ensures
        order.no_duplicates(),
        order.to_set() == freqs.dom(),
        order.len() == freqs.dom().len(),
{
    assert forall|i: int, j: int| 0 <= i < order.len() && 0 <= j < order.len() && i
        != j implies order[i] != order[j] by {
        if i < j {
            assert(topology::is_before(info, order[i], order[j]));
        } else {
            assert(topology::is_before(info, order[j], order[i]));
        }
    }
    assert forall|cpu: u32| order.to_set().contains(cpu) <==> freqs.dom().contains(cpu) by {
        if order.to_set().contains(cpu) {
            let i = choose|i: int| 0 <= i < order.len() && order[i] == cpu;
            assert(freqs.contains_key(order[i]));
        }
        if freqs.dom().contains(cpu) {
            assert(freqs.contains_key(cpu));
            assert(order.contains(cpu));
        }
    }
    assert(order.to_set() =~= freqs.dom());
    order.unique_seq_to_set();
}

/// Normalising a runtime to the fastest CPU's clock never lengthens it, and
/// leaves a runtime on a CPU of the highest frequency as it is.
pub proof fn law_normalising_never_lengthens(
    freqs: Map<u32, u32>,
    ranking: Seq<u32>,
    info: Seq<CpuInfo>,
    cpu: u32,
    runtime: nat,
)
    requires
        topology::is_ranking(freqs, ranking),
        topology::is_cpu_table(freqs, ranking, info),
        freqs.contains_key(cpu),
        ranking[0] > 0,
    ensures
        ({
            let e = info[cpu as int];
            &&& e.freq_n <= e.freq_d
            &&& runtime * e.freq_n / (e.freq_d as int) <= runtime
            &&& freqs[cpu] == ranking[0] ==> runtime * e.freq_n / (e.freq_d as int) == runtime
        }),
{
    assert(ranking.contains(freqs[cpu]));
    let k = choose|k: int| 0 <= k < ranking.len() && ranking[k] == freqs[cpu];
    let e = info[cpu as int];
    assert(e.freq_n == freqs[cpu] && e.freq_d == ranking[0]);
    assert(k > 0 ==> ranking[0] > ranking[k]);
    let n = e.freq_n as int;
    let d = e.freq_d as int;
    assert(runtime * n / d <= runtime) by (nonlinear_arith)
        requires
            0 <= n <= d,
            d > 0,
    ;
    assert(n == d ==> runtime * n / d == runtime) by (nonlinear_arith)
        requires
            d > 0,
    ;
}

/// On a machine of one kind, normalising is a no-op, and both orders are each
/// other's reverse.
pub proof fn law_single_kind_needs_no_normalising(n: int, t: Topology, cpu: int, runtime: nat)
    requires
        topology::is_single_kind(n, t),
        0 <= cpu < n,
    ensures
        runtime * t.cpu_info@[cpu].freq_n / (t.cpu_info@[cpu].freq_d as int) == runtime,
        t.cpu_info@[cpu].cpu_kind == 0,
        t.cpus_fast_to_slow@ == t.cpus_slow_to_fast@.reverse(),
{
    let entry = t.cpu_info@[cpu];
    assert(entry.freq_n == 1 && entry.freq_d == 1);
    assert(runtime * 1 / 1 == runtime) by (nonlinear_arith);
    assert(t.cpus_slow_to_fast@.reverse() =~= t.cpus_fast_to_slow@);
}

/// The two orders of a topology are each other's reverse.
pub proof fn law_orders_mirror(freqs: Map<u32, u32>, t: Topology)
    requires
        topology::is_topology_of(freqs, t),
    ensures
        t.cpus_slow_to_fast@ == t.cpus_fast_to_slow@.reverse(),
        t.cpus_fast_to_slow@ == t.cpus_slow_to_fast@.reverse(),
{
    assert(t.cpus_fast_to_slow@.reverse().reverse() =~= t.cpus_fast_to_slow@);
}

proof fn lemma_no_more_kinds_than_cpus(freqs: Map<u32, u32>, ranking: Seq<u32>)
    requires
        topology::is_ranking(freqs, ranking),
        freqs.dom().finite(),
    ensures
        ranking.len() <= freqs.dom().len(),
        freqs.dom().len() > 0 ==> ranking.len() > 0,
{
    let cpus = Seq::new(
        ranking.len(),
        |i: int| choose|cpu: u32| #[trigger] freqs.contains_key(cpu) && freqs[cpu] == ranking[i],
    );
    assert forall|i: int| 0 <= i < cpus.len() implies freqs.contains_key(#[trigger] cpus[i])
        && freqs[cpus[i]] == ranking[i] by {
        let freq = ranking[i];
        assert(exists|cpu: u32| #[trigger] freqs.contains_key(cpu) && freqs[cpu] == freq);
    }
    assert(cpus.no_duplicates());
    cpus.unique_seq_to_set();
    assert(cpus.to_set().subset_of(freqs.dom())) by {
        assert forall|cpu: u32| cpus.to_set().contains(cpu) implies freqs.dom().contains(cpu) by {
            let i = choose|i: int| 0 <= i < cpus.len() && cpus[i] == cpu;
            assert(freqs.contains_key(cpus[i]));
        }
    }
    vstd::set_lib::lemma_len_subset(cpus.to_set(), freqs.dom());
    if freqs.dom().len() > 0 {
        let cpu = freqs.dom().choose();
        assert(freqs.contains_key(cpu));
        assert(ranking.contains(freqs[cpu]));
    }
}

/// A topology is usable: there are at least one CPU and one kind, no more kinds
/// than CPUs, and the lists hold the CPUs that are counted. Every CPU's kind is
/// one of those counted, as far as a byte counts them.
pub proof fn law_topology_is_usable(freqs: Map<u32, u32>, t: Topology, cpu: u32)
    requires
        topology::is_topology_of(freqs, t),
        freqs.dom().finite(),
        freqs.contains_key(cpu),
    ensures
        t.is_usable(),
        t.cpu_kind_num <= t.cpu_num,
        t.cpu_info@[cpu as int].cpu_kind <= t.cpu_kind_num,
        t.cpu_kind_num < 255 ==> t.cpu_info@[cpu as int].cpu_kind < t.cpu_kind_num,
        freqs.dom().len() <= 255 ==> t.cpu_num == freqs.dom().len() == t.cpus_fast_to_slow@.len(),
{
    let (ranking, order) = choose|ranking: Seq<u32>, order: Seq<u32>| #[trigger]
        topology::is_ranking(freqs, ranking) && #[trigger] topology::is_fast_order(
            freqs,
            t.cpu_info@,
            order,
        ) && {
            &&& topology::is_cpu_table(freqs, ranking, t.cpu_info@)
            &&& t.cpu_num == topology::fitted(freqs.dom().len() as int)
            &&& t.cpu_kind_num == topology::fitted(ranking.len() as int)
            &&& t.cpus_fast_to_slow@ == topology::narrow(order)
            &&& t.cpus_slow_to_fast@ == topology::narrow(order).reverse()
        };
    assert(freqs.dom().contains(cpu));
    assert(freqs.dom().len() > 0) by {
        if freqs.dom().len() == 0 {
            assert(freqs.dom() =~= Set::<u32>::empty());
        }
    }
    lemma_no_more_kinds_than_cpus(freqs, ranking);
    law_every_cpu_once(freqs, t.cpu_info@, order);
    assert(ranking.contains(freqs[cpu]));
    let k = choose|k: int| 0 <= k < ranking.len() && ranking[k] == freqs[cpu];
    assert(t.cpu_info@[cpu as int].cpu_kind == topology::kind_at(k));
}

/// The topology of a machine without frequencies is usable, too: the lists hold
/// exactly the CPUs that are counted, from 0 on, and the table covers every CPU.
pub proof fn law_single_kind_is_usable(n: int, t: Topology)
    requires
        topology::is_single_kind(n, t),
        0 < n,
    ensures
        t.is_usable(),
        n <= 255 ==> t.cpu_num == n,
        t.cpu_kind_num == 1,
        t.cpus_fast_to_slow@.len() == t.cpu_num,
        t.cpus_slow_to_fast@.len() == t.cpu_num,
        forall|i: int| 0 <= i < t.cpu_num ==> #[trigger] t.cpus_fast_to_slow@[i] == i,
        t.cpu_info@.len() == n,
        forall|cpu: int|
            0 <= cpu < n ==> (#[trigger] t.cpu_info@[cpu]).freq_n == 1 && t.cpu_info@[cpu].freq_d
                == 1,
{
}

/// The table of a topology: each CPU's own frequency, beside the highest that any
/// CPU has; blank where there is no CPU; and as long as the highest id asks for.
pub proof fn law_table_holds_the_frequencies(freqs: Map<u32, u32>, t: Topology, cpu: u32, other: u32)
    requires
        topology::is_topology_of(freqs, t),
        freqs.contains_key(cpu),
    ensures
        cpu < t.cpu_info@.len(),
        t.cpu_info@[cpu as int].freq_n == freqs[cpu],
        freqs.contains_key(other) ==> t.cpu_info@[cpu as int].freq_d >= freqs[other],
        exists|c: u32| #[trigger]
            freqs.contains_key(c) && freqs[c] == t.cpu_info@[cpu as int].freq_d,
        other < t.cpu_info@.len() && !freqs.contains_key(other) ==> {
            let blank = t.cpu_info@[other as int];
            blank.cpu_kind == 0 && blank.freq_n == 0 && blank.freq_d == 0
        },
        exists|c: u32| #[trigger] freqs.contains_key(c) && c == t.cpu_info@.len() - 1,
{
    let (ranking, order) = choose|ranking: Seq<u32>, order: Seq<u32>| #[trigger]
        topology::is_ranking(freqs, ranking) && #[trigger] topology::is_fast_order(
            freqs,
            t.cpu_info@,
            order,
        ) && topology::is_cpu_table(freqs, ranking, t.cpu_info@);
    assert(ranking.contains(freqs[cpu]));
    let k = choose|k: int| 0 <= k < ranking.len() && ranking[k] == freqs[cpu];
    assert(t.cpu_info@[cpu as int].freq_d == ranking[0]);
    let top = ranking[0];
    assert(exists|c: u32| #[trigger] freqs.contains_key(c) && freqs[c] == top);
    if freqs.contains_key(other) {
        assert(ranking.contains(freqs[other]));
        let m = choose|m: int| 0 <= m < ranking.len() && ranking[m] == freqs[other];
        assert(m > 0 ==> ranking[0] > ranking[m]);
    }
    let last = (t.cpu_info@.len() - 1) as u32;
    assert(freqs.contains_key(last) && last == t.cpu_info@.len() - 1);
}

/// Kinds are the places of the frequencies, fastest first and without gaps: equal
/// frequencies share a kind, a higher frequency has a lower kind, below every kind
/// there is the next faster one, and the kinds that there are are counted. All of
/// that as far as a byte goes.
pub proof fn law_kinds_are_places(freqs: Map<u32, u32>, t: Topology, a: u32, b: u32)
    requires
        topology::is_topology_of(freqs, t),
        freqs.contains_key(a),
        freqs.contains_key(b),
    ensures
        ({
            let ka = t.cpu_info@[a as int].cpu_kind;
            let kb = t.cpu_info@[b as int].cpu_kind;
            &&& freqs[a] == freqs[b] ==> ka == kb
            &&& freqs[a] > freqs[b] ==> ka < kb || ka == 255 && kb == 255
            &&& (forall|c: u32| #[trigger] freqs.contains_key(c) ==> freqs[c] <= freqs[a]) ==> ka
                == 0
            &&& ka > 0 ==> exists|c: u32| #[trigger]
                freqs.contains_key(c) && freqs[c] > freqs[a] && t.cpu_info@[c as int].cpu_kind == ka
                    - 1
            &&& t.cpu_kind_num < 255 ==> ka < t.cpu_kind_num
            &&& exists|c: u32| #[trigger]
                freqs.contains_key(c) && t.cpu_info@[c as int].cpu_kind >= t.cpu_kind_num - 1
        }),
{
    let (ranking, order) = choose|ranking: Seq<u32>, order: Seq<u32>| #[trigger]
        topology::is_ranking(freqs, ranking) && #[trigger] topology::is_fast_order(
            freqs,
            t.cpu_info@,
            order,
        ) && {
            &&& topology::is_cpu_table(freqs, ranking, t.cpu_info@)
            &&& t.cpu_kind_num == topology::fitted(ranking.len() as int)
        };
    let info = t.cpu_info@;
    assert(ranking.contains(freqs[a]));
    assert(ranking.contains(freqs[b]));
    let i = choose|i: int| 0 <= i < ranking.len() && ranking[i] == freqs[a];
    let j = choose|j: int| 0 <= j < ranking.len() && ranking[j] == freqs[b];
    assert(info[a as int].cpu_kind == topology::kind_at(i));
    assert(info[b as int].cpu_kind == topology::kind_at(j));
    if forall|c: u32| #[trigger] freqs.contains_key(c) ==> freqs[c] <= freqs[a] {
        let top = ranking[0];
        let c = choose|c: u32| #[trigger] freqs.contains_key(c) && freqs[c] == top;
        assert(freqs[c] <= freqs[a]);
        assert(i > 0 ==> ranking[0] > ranking[i]);
    }
    let ka = info[a as int].cpu_kind;
    if ka > 0 {
        let p = ka - 1;
        let faster = ranking[p];
        let c = choose|c: u32| #[trigger] freqs.contains_key(c) && freqs[c] == faster;
        assert(ranking[p] > ranking[i]);
        assert(info[c as int].cpu_kind == topology::kind_at(p));
    }
    let q = ranking.len() - 1;
    let slowest = ranking[q];
    let c = choose|c: u32| #[trigger] freqs.contains_key(c) && freqs[c] == slowest;
    assert(freqs.contains_key(c));
    assert(info[c as int].cpu_kind == topology::kind_at(q));
}

/// Whether `order` goes through the CPUs of `freqs`, each once, from high
/// frequencies to low ones, and by id among equal ones.
pub open spec fn goes_downhill(freqs: Map<u32, u32>, order: Seq<u32>) -> bool {
    &&& order.no_duplicates()
    &&& order.to_set() == freqs.dom()
    &&& forall|i: int, j: int|
        0 <= i < j < order.len() ==> freqs[#[trigger] order[i]] > freqs[#[trigger] order[j]]
            || freqs[order[i]] == freqs[order[j]] && order[i] < order[j]
}

/// The lists of a topology are its CPUs from fast to slow, and back; their number
/// is counted, as far as a byte goes. With fewer than 255 kinds the order is that
/// of the frequencies.
pub proof fn law_lists_are_in_order_of_speed(freqs: Map<u32, u32>, t: Topology)
    requires
        topology::is_topology_of(freqs, t),
    ensures
        t.cpu_kind_num < 255 ==> exists|order: Seq<u32>|
            {
                &&& #[trigger] goes_downhill(freqs, order)
                &&& t.cpus_fast_to_slow@.len() == order.len()
                &&& forall|i: int|
                    0 <= i < order.len() ==> #[trigger] t.cpus_fast_to_slow@[i] == order[i] as u8
            },
        t.cpus_fast_to_slow@.len() == freqs.dom().len(),
        t.cpus_slow_to_fast@.len() == freqs.dom().len(),
        forall|i: int|
            0 <= i < t.cpus_slow_to_fast@.len() ==> #[trigger] t.cpus_slow_to_fast@[i]
                == t.cpus_fast_to_slow@[t.cpus_fast_to_slow@.len() - 1 - i],
        freqs.dom().len() <= 255 ==> t.cpu_num == freqs.dom().len(),
        freqs.dom().len() > 255 ==> t.cpu_num == 255,
{
    let (ranking, order) = choose|ranking: Seq<u32>, order: Seq<u32>| #[trigger]
        topology::is_ranking(freqs, ranking) && #[trigger] topology::is_fast_order(
            freqs,
            t.cpu_info@,
            order,
        ) && {
            &&& topology::is_cpu_table(freqs, ranking, t.cpu_info@)
            &&& t.cpu_num == topology::fitted(freqs.dom().len() as int)
            &&& t.cpu_kind_num == topology::fitted(ranking.len() as int)
            &&& t.cpus_fast_to_slow@ == topology::narrow(order)
            &&& t.cpus_slow_to_fast@ == topology::narrow(order).reverse()
        };
    law_every_cpu_once(freqs, t.cpu_info@, order);
    if t.cpu_kind_num < 255 {
        assert forall|i: int, j: int| 0 <= i < j < order.len() implies freqs[#[trigger] order[i]]
            > freqs[#[trigger] order[j]] || freqs[order[i]] == freqs[order[j]] && order[i]
            < order[j] by {
            law_fast_order_descends(freqs, ranking, t.cpu_info@, order, i, j);
        }
        assert(goes_downhill(freqs, order));
    }
}

/// A machine without frequencies: as many CPUs as the scheduler's tables hold at
/// most, all of one kind, each at the frequency one of one.
pub proof fn law_single_kind_covers_every_cpu(count: int, t: Topology)
    requires
        count >= 1,
        topology::is_single_kind(topology::capped(count), t),
    ensures
        count <= 512 ==> t.cpu_info@.len() == count,
        count > 512 ==> t.cpu_info@.len() == 512,
        forall|cpu: int|
            0 <= cpu < t.cpu_info@.len() ==> {
                let entry = #[trigger] t.cpu_info@[cpu];
                entry.cpu_kind == 0 && entry.freq_n == 1 && entry.freq_d == 1
            },
        t.cpu_kind_num == 1,
        count <= 255 ==> t.cpu_num == count,
        count > 255 ==> t.cpu_num == 255,
        t.cpus_fast_to_slow@.len() == t.cpu_num,
        t.cpus_slow_to_fast@.len() == t.cpu_num,
        forall|i: int| 0 <= i < t.cpu_num ==> #[trigger] t.cpus_fast_to_slow@[i] == i,
        forall|i: int|
            0 <= i < t.cpu_num ==> #[trigger] t.cpus_slow_to_fast@[i] == t.cpu_num - 1 - i,
{
}

/// What a usable topology has.
pub proof fn law_usable_means(t: Topology)
    ensures
        t.is_usable() ==> {
            &&& t.cpu_num >= 1
            &&& t.cpu_kind_num >= 1
            &&& t.cpus_fast_to_slow@.len() >= t.cpu_num
            &&& t.cpus_slow_to_fast@.len() >= t.cpu_num
            &&& t.cpu_num < 255 ==> t.cpus_fast_to_slow@.len() == t.cpu_num
            &&& t.cpu_num < 255 ==> t.cpus_slow_to_fast@.len() == t.cpu_num
        },
{
}

// ---------------------------------------------------------------------------
// The summary and the packed tables
// ---------------------------------------------------------------------------

/// The kinds of a summary are those that some CPU has, lowest first. An id is that
/// of a CPU if its frequency is not zero.
pub proof fn law_summary_kinds(info: Seq<CpuInfo>, top: nat, kind: u8)
    requires
        top <= 256,
    ensures
        topology::kinds_below(info, top).contains(kind) <==> kind < top && exists|i: int|
            0 <= i < info.len() && (#[trigger] info[i]).freq_n != 0 && info[i].cpu_kind == kind,
        forall|i: int, j: int|
            0 <= i < j < topology::kinds_below(info, top).len()
                ==> #[trigger] topology::kinds_below(info, top)[i]
                < #[trigger] topology::kinds_below(info, top)[j],
        forall|i: int|
            0 <= i < topology::kinds_below(info, top).len()
                ==> #[trigger] topology::kinds_below(info, top)[i] < top,
    decreases top,
{
    if top > 0 {
        let below = (top - 1) as nat;
        law_summary_kinds(info, below, kind);
        let last = (top - 1) as u8;
        law_summary_cpus(info, last);
        let before = topology::kinds_below(info, below);
        let all = topology::kinds_below(info, top);
        if all.len() > before.len() {
            assert(all[all.len() - 1] == last);
        }
        if all.contains(kind) {
            let i = choose|i: int| 0 <= i < all.len() && all[i] == kind;
            if i < before.len() {
                assert(before[i] == kind);
                assert(before.contains(kind));
            }
        }
        if before.contains(kind) {
            let i = choose|i: int| 0 <= i < before.len() && before[i] == kind;
            assert(all[i] == kind);
        }
    }
}

/// The CPUs of a kind in a summary are the ids of that kind whose frequency is
/// not zero, in their order.
pub proof fn law_summary_cpus(info: Seq<CpuInfo>, kind: u8)
    ensures
        topology::cpus_of_kind(info, kind).len() == info.filter(
            |e: CpuInfo| e.freq_n != 0 && e.cpu_kind == kind,
        ).len(),
        topology::cpus_of_kind(info, kind).len() > 0 <==> exists|i: int|
            0 <= i < info.len() && (#[trigger] info[i]).freq_n != 0 && info[i].cpu_kind == kind,
    decreases info.len(),
{
    reveal(Seq::filter);
    if info.len() > 0 {
        let front = info.drop_last();
        law_summary_cpus(front, kind);
        assert(info.last() == info[info.len() - 1]);
        if exists|i: int|
            0 <= i < front.len() && (#[trigger] front[i]).freq_n != 0 && front[i].cpu_kind == kind {
            let i = choose|i: int|
                0 <= i < front.len() && (#[trigger] front[i]).freq_n != 0 && front[i].cpu_kind
                    == kind;
            assert(info[i] == front[i]);
        }
        if exists|i: int|
            0 <= i < info.len() && (#[trigger] info[i]).freq_n != 0 && info[i].cpu_kind == kind {
            let i = choose|i: int|
                0 <= i < info.len() && (#[trigger] info[i]).freq_n != 0 && info[i].cpu_kind == kind;
            if i < front.len() {
                assert(front[i] == info[i]);
            }
        }
    }
}

/// A kind without a CPU has no frequency in a summary.
pub proof fn law_summary_frequency_of_none(info: Seq<CpuInfo>, kind: u8)
    requires
        forall|j: int|
            0 <= j < info.len() ==> (#[trigger] info[j]).freq_n == 0 || info[j].cpu_kind != kind,
    ensures
        topology::khz_of_kind(info, kind) == 0,
    decreases info.len(),
{
    if info.len() > 0 {
        let front = info.drop_last();
        assert forall|j: int| 0 <= j < front.len() implies (#[trigger] front[j]).freq_n == 0
            || front[j].cpu_kind != kind by {
            assert(front[j] == info[j]);
        }
        law_summary_frequency_of_none(front, kind);
        assert(info.last() == info[info.len() - 1]);
    }
}

/// The frequency of a kind in a summary is that of its first CPU.
pub proof fn law_summary_frequency(info: Seq<CpuInfo>, kind: u8, i: int)
    requires
        0 <= i < info.len(),
        info[i].freq_n != 0,
        info[i].cpu_kind == kind,
        forall|j: int|
            0 <= j < i ==> (#[trigger] info[j]).freq_n == 0 || info[j].cpu_kind != kind,
    ensures
        topology::khz_of_kind(info, kind) == info[i].freq_n,
    decreases info.len(),
{
    let front = info.drop_last();
    if i < front.len() {
        assert(front[i] == info[i]);
        assert forall|j: int| 0 <= j < i implies (#[trigger] front[j]).freq_n == 0
            || front[j].cpu_kind != kind by {
            assert(front[j] == info[j]);
        }
        law_summary_frequency(front, kind, i);
    } else {
        assert forall|j: int| 0 <= j < front.len() implies (#[trigger] front[j]).freq_n == 0
            || front[j].cpu_kind != kind by {
            assert(front[j] == info[j]);
        }
        law_summary_frequency_of_none(front, kind);
    }
}

/// The list of a kind's CPUs grows by each CPU of the kind, under its id.
pub proof fn law_summary_lists(info: Seq<CpuInfo>, kind: u8, entry: CpuInfo)
    ensures
        topology::cpus_of_kind(Seq::empty(), kind).len() == 0,
        entry.freq_n != 0 && entry.cpu_kind == kind ==> topology::cpus_of_kind(
            info.push(entry),
            kind,
        ) == topology::cpus_of_kind(info, kind).push(info.len() as u8),
        entry.freq_n == 0 || entry.cpu_kind != kind ==> topology::cpus_of_kind(
            info.push(entry),
            kind,
        ) == topology::cpus_of_kind(info, kind),
{
    assert(info.push(entry).drop_last() =~= info);
}

/// A summary has one group for each kind that some CPU has, with the kind's
/// frequency and CPUs.
pub proof fn law_summary_groups(info: Seq<CpuInfo>, groups: Seq<KindGroup>, i: int)
    requires
        topology::are_groups(info, groups),
    ensures
        groups.len() == topology::kinds_below(info, 256).len(),
        0 <= i < groups.len() ==> {
            &&& groups[i].kind == topology::kinds_below(info, 256)[i]
            &&& groups[i].khz == topology::khz_of_kind(info, groups[i].kind)
            &&& groups[i].cpus@ == topology::cpus_of_kind(info, groups[i].kind)
        },
{
    if 0 <= i < groups.len() {
        assert(topology::is_group(info, topology::kinds_below(info, 256)[i], groups[i]));
    }
}

/// The words of a summary: the counts, then each kind with its frequency and the
/// number of its CPUs, with commas between the kinds.
pub proof fn law_summary_words(
    t: Topology,
    info: Seq<CpuInfo>,
    kinds: Seq<u8>,
    ghz: Seq<Seq<char>>,
    kind: u8,
)
    requires
        ghz.len() > kinds.len(),
    ensures
        topology::summary_text(t, ghz) == text::decimal(t.cpu_num as nat) + " CPUs, "@
            + text::decimal(t.cpu_kind_num as nat) + " kind(s): "@ + topology::groups_text(
            t.cpu_info@,
            topology::kinds_below(t.cpu_info@, 256),
            ghz,
        ),
        topology::groups_text(info, Seq::empty(), ghz).len() == 0,
        topology::groups_text(info, kinds.push(kind), ghz) == topology::groups_text(
            info,
            kinds,
            ghz,
        ) + (if kinds.len() > 0 {
            ", "@
        } else {
            Seq::empty()
        }) + "kind"@ + text::decimal(kind as nat) + " ("@ + ghz[kinds.len() as int] + "GHz, "@
            + text::decimal(topology::cpus_of_kind(info, kind).len()) + " cpus)"@,
{
    let more = kinds.push(kind);
    assert(more.drop_last() =~= kinds);
    assert(topology::groups_text(info, more, ghz) =~= topology::groups_text(info, kinds, ghz) + (
    if kinds.len() > 0 {
        ", "@
    } else {
        Seq::empty()
    }) + "kind"@ + text::decimal(kind as nat) + " ("@ + ghz[kinds.len() as int] + "GHz, "@
        + text::decimal(topology::cpus_of_kind(info, kind).len()) + " cpus)"@);
}

/// Each kind's frequency is rendered, in its place.
pub proof fn law_summary_renders<G: Fn(u32) -> String>(
    info: Seq<CpuInfo>,
    kinds: Seq<u8>,
    ghz: G,
    texts: Seq<Seq<char>>,
    i: int,
)
    requires
        topology::renders(info, kinds, ghz, texts),
    ensures
        texts.len() == kinds.len(),
        0 <= i < kinds.len() ==> exists|s: String| #[trigger]
            call_ensures(ghz, (topology::khz_of_kind(info, kinds[i]),), s) && s@ == texts[i],
{
    if 0 <= i < kinds.len() {
        assert(topology::can_render(ghz, topology::khz_of_kind(info, kinds[i]), texts[i]));
    }
}

/// Packing writes the list over the start of the table, and leaves the rest.
pub proof fn law_packing_fills_the_start<T>(table: Seq<T>, list: Seq<T>, i: int)
    requires
        0 <= i < table.len(),
    ensures
        topology::overlaid(table, list).len() == table.len(),
        i < list.len() ==> topology::overlaid(table, list)[i] == list[i],
        i >= list.len() ==> topology::overlaid(table, list)[i] == table[i],
{
}

} // verus!
