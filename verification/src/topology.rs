//! CPU topology for big/little (hybrid) machines.
//!
//! Logical CPUs are grouped into "kinds" by their `cpuinfo_max_freq`, as the
//! generic cpufreq directories (`/sys/devices/system/cpu/cpufreq/policy*/`) give
//! it. The same grouping serves Intel P+E, ARM big.LITTLE, future tri-tier
//! silicon, and homogeneous machines (one kind).
//!
//! Kinds are numbered fastest-first: kind 0 is the group with the highest
//! max_freq. Each CPU also carries `freq_n`/`freq_d` so the scheduler can
//! normalise a runtime measured on a slow core to the fastest core's clock:
//! `normalised = runtime * freq_n / freq_d`, where `freq_d` is the fastest CPU's
//! max_freq and `freq_n` is this CPU's max_freq.

use crate::text;
use std::collections::BTreeMap;
use vstd::prelude::*;

verus! {

broadcast use vstd::std_specs::btree::group_btree_axioms;

/// The most CPUs that the scheduler's tables hold.
pub const MAX_CPU: usize = 512;

/// Per-CPU topology entry.
#[derive(Debug, Clone, Copy, PartialEq, Eq, Structural)]
pub struct CpuInfo {
    /// 0 = fastest kind.
    pub cpu_kind: u8,
    /// This CPU's max_freq (kHz).
    pub freq_n: u32,
    /// Fastest CPU's max_freq (kHz).
    pub freq_d: u32,
}

impl Default for CpuInfo {
    fn default() -> (r: Self)
        ensures
            r == no_cpu(),
    {
        CpuInfo { cpu_kind: 0, freq_n: 0, freq_d: 0 }
    }
}

/// The entry of a CPU id that no CPU has.
pub open spec fn no_cpu() -> CpuInfo {
    CpuInfo { cpu_kind: 0, freq_n: 0, freq_d: 0 }
}

/// Full machine topology.
#[derive(Debug, Clone)]
pub struct Topology {
    /// Number of online logical CPUs; 255 where there are more.
    pub cpu_num: u8,
    /// Number of distinct frequency kinds; 255 where there are more.
    pub cpu_kind_num: u8,
    /// CPU ids sorted fastest to slowest; the first `cpu_num` entries count.
    pub cpus_fast_to_slow: Vec<u8>,
    /// The same CPU ids sorted slowest to fastest.
    pub cpus_slow_to_fast: Vec<u8>,
    /// Indexed by logical CPU id.
    pub cpu_info: Vec<CpuInfo>,
}

// ---------------------------------------------------------------------------
// What sysfs says
// ---------------------------------------------------------------------------

/// One entry of the cpufreq directory: its name and, where they can be read,
/// its `cpuinfo_max_freq` and `related_cpus` files.
#[derive(Debug, Clone)]
pub struct PolicyDir {
    pub name: String,
    pub max_freq: Option<String>,
    pub related_cpus: Option<String>,
}

/// The parts of `/sys/devices/system/cpu` that the topology comes from.
#[derive(Debug, Clone)]
pub struct CpuSysfs {
    /// The entries of `cpufreq`; empty if the directory cannot be read.
    pub policies: Vec<PolicyDir>,
    /// The contents of `online`, if the file can be read.
    pub online: Option<String>,
    /// The entry names of the directory itself, if it can be read.
    pub entries: Option<Vec<String>>,
}

/// `freqs` with the frequency `khz` for each of the CPUs that `ids` names;
/// anything that is no number is passed over.
pub open spec fn with_cpus(
    freqs: Map<u32, u32>,
    ids: Seq<Seq<char>>,
    khz: u32,
) -> Map<u32, u32>
    decreases ids.len(),
{
    if ids.len() == 0 {
        freqs
    } else {
        let front = with_cpus(freqs, ids.drop_last(), khz);
        match text::as_u32(ids.last()) {
            Some(cpu) => front.insert(cpu, khz),
            None => front,
        }
    }
}

/// The maximal frequency that a policy directory states.
pub open spec fn policy_freq(p: PolicyDir) -> Option<u32> {
    match p.max_freq {
        Some(s) => text::as_u32(text::trimmed(s@)),
        None => None,
    }
}

/// The maximal frequency of each CPU, by the policy directories. An entry that
/// is no policy, or whose files cannot be read or parsed, is passed over; the
/// later of two policies that name the same CPU counts.
pub open spec fn freq_map(policies: Seq<PolicyDir>) -> Map<u32, u32>
    decreases policies.len(),
{
    if policies.len() == 0 {
        Map::empty()
    } else {
        let front = freq_map(policies.drop_last());
        let p = policies.last();
        if text::starts_with(p.name@, "policy"@) {
            match (policy_freq(p), p.related_cpus) {
                (Some(khz), Some(ids)) => with_cpus(front, text::words(ids@), khz),
                _ => front,
            }
        } else {
            front
        }
    }
}

/// Each logical CPU's max_freq (kHz), by the cpufreq policy directories. CPUs
/// without a cpufreq policy (scaling disabled, or some VMs) are absent.
pub fn read_cpufreq(policies: &Vec<PolicyDir>) -> (r: BTreeMap<u32, u32>)
    ensures
        r@ == freq_map(policies@),
{
    let mut out: BTreeMap<u32, u32> = BTreeMap::new();
    for i in 0..policies.len()
        invariant
            out@ == freq_map(policies@.take(i as int)),
    {
        let ghost so_far = out@;
        assert(policies@.take(i + 1).drop_last() == policies@.take(i as int));
        let p = &policies[i];
        let is_policy = text::strip_prefix(
            &text::chars_of(p.name.as_str()),
            &text::chars_of("policy"),
        ).is_some();
        if is_policy {
            if let (Some(max), Some(related)) = (&p.max_freq, &p.related_cpus) {
                let max_khz = text::parse_u32(&text::trim(&text::chars_of(max.as_str())));
                if let Some(khz) = max_khz {
                    let ids = text::split_words(&text::chars_of(related.as_str()));
                    let ghost all = text::views(ids@);
                    for j in 0..ids.len()
                        invariant
                            all == text::views(ids@),
                            out@ == with_cpus(so_far, all.take(j as int), khz),
                    {
                        assert(all.take(j + 1).drop_last() == all.take(j as int));
                        assert(all.take(j + 1).last() == ids@[j as int]@);
                        if let Some(cpu) = text::parse_u32(&ids[j]) {
                            out.insert(cpu, khz);
                        }
                    }
                    assert(all.take(all.len() as int) == all);
                }
            }
        }
    }
    assert(policies@.take(policies@.len() as int) == policies@);
    out
}

/// The two ends of a range `a-b`, where both are numbers.
pub open spec fn range_ends(piece: Seq<char>) -> Option<(u32, u32)> {
    let i = text::first_index(piece, '-');
    match (text::as_u32(piece.take(i)), text::as_u32(piece.skip(i + 1))) {
        (Some(a), Some(b)) => Some((a, b)),
        _ => None,
    }
}

/// How many CPUs one piece of a CPU list names: a number names one, a range
/// `a-b` all from `a` to `b`, anything else none.
pub open spec fn cpus_in_piece(piece: Seq<char>) -> int {
    if piece.contains('-') {
        match range_ends(piece) {
            Some((a, b)) => b - a + 1,
            None => 0,
        }
    } else if text::as_u32(piece) is Some {
        1
    } else {
        0
    }
}

/// Whether a piece of a CPU list is not a range that runs backwards.
pub open spec fn is_forward(piece: Seq<char>) -> bool {
    piece.contains('-') ==> (range_ends(piece) matches Some((a, b)) ==> a <= b)
}

/// How many CPUs the pieces of a CPU list name.
pub open spec fn cpus_in_pieces(pieces: Seq<Seq<char>>) -> int
    decreases pieces.len(),
{
    if pieces.len() == 0 {
        0
    } else {
        cpus_in_pieces(pieces.drop_last()) + cpus_in_piece(pieces.last())
    }
}

/// The pieces of a CPU list such as `0-19` or `0,2-5`.
pub open spec fn list_pieces(list: Seq<char>) -> Seq<Seq<char>> {
    text::fields(text::trimmed(list), ',')
}

/// Whether a CPU list can be counted: no range runs backwards, and the count
/// fits a `u32`.
pub open spec fn is_countable(list: Seq<char>) -> bool {
    &&& forall|i: int| 0 <= i < list_pieces(list).len() ==> is_forward(#[trigger] list_pieces(list)[i])
    &&& cpus_in_pieces(list_pieces(list)) <= u32::MAX
}

/// Counts the CPUs that a CPU list names; None if a range runs backwards or
/// the count does not fit a `u32`.
pub fn count_cpu_list(list: &str) -> (r: Option<u32>)
    ensures
        r is Some <==> is_countable(list@),
        r matches Some(n) ==> n == cpus_in_pieces(list_pieces(list@)),
{
    let pieces = text::split_chars(&text::trim(&text::chars_of(list)), ',');
    let ghost all = list_pieces(list@);
    assert(text::views(pieces@) == all);
    let mut n: u32 = 0;
    for i in 0..pieces.len()
        invariant
            all == list_pieces(list@),
            text::views(pieces@) == all,
            n == cpus_in_pieces(all.take(i as int)),
            forall|j: int| 0 <= j < i ==> is_forward(#[trigger] all[j]),
    {
        assert(all.take(i + 1).drop_last() == all.take(i as int));
        assert(all[i as int] == pieces@[i as int]@);
        let mut more: u64 = 0;
        match text::split_once(&pieces[i], '-') {
            Some((a, b)) => {
                if let (Some(a), Some(b)) = (text::parse_u32(&a), text::parse_u32(&b)) {
                    if b < a {
                        assert(!is_forward(all[i as int]));
                        return None;
                    }
                    more = (b - a) as u64 + 1;
                }
            },
            None => {
                if text::parse_u32(&pieces[i]).is_some() {
                    more = 1;
                }
            },
        }
        assert(more == cpus_in_piece(all[i as int]));
        let total: u64 = n as u64 + more;
        assert(total == cpus_in_pieces(all.take(i + 1)));
        if total > u32::MAX as u64 {
            proof {
                if forall|j: int| 0 <= j < all.len() ==> is_forward(#[trigger] all[j]) {
                    lemma_count_grows(all, i + 1);
                }
            }
            return None;
        }
        n = total as u32;
    }
    assert(all.take(all.len() as int) == all);
    Some(n)
}

proof fn lemma_count_grows(pieces: Seq<Seq<char>>, i: int)
    requires
        0 <= i <= pieces.len(),
        forall|j: int| 0 <= j < pieces.len() ==> is_forward(#[trigger] pieces[j]),
    ensures
        cpus_in_pieces(pieces.take(i)) <= cpus_in_pieces(pieces),
    decreases pieces.len(),
{
    if i < pieces.len() {
        let front = pieces.drop_last();
        assert forall|j: int| 0 <= j < front.len() implies is_forward(#[trigger] front[j]) by {
            assert(front[j] == pieces[j]);
        }
        lemma_count_grows(front, i);
        assert(front.take(i) == pieces.take(i));
        assert(is_forward(pieces[pieces.len() - 1]));
    } else {
        assert(pieces.take(i) == pieces);
    }
}

/// Whether a directory entry is that of a CPU: `cpu` and digits.
pub open spec fn is_cpu_dir(name: Seq<char>) -> bool {
    text::starts_with(name, "cpu"@) && text::all_digits(name.skip(3))
}

/// How many of the names are those of CPUs.
pub open spec fn cpu_dirs(names: Seq<String>) -> int
    decreases names.len(),
{
    if names.len() == 0 {
        0
    } else {
        cpu_dirs(names.drop_last()) + if is_cpu_dir(names.last()@) {
            1int
        } else {
            0
        }
    }
}

/// The larger of `n` and 1.
pub open spec fn at_least_one(n: int) -> int {
    if n < 1 {
        1
    } else {
        n
    }
}

/// How many CPUs there are by `online`, or, where that cannot be read, by the
/// directory's entries; at least 1, so that there is always a usable topology.
pub open spec fn fallback_count(sysfs: CpuSysfs) -> int {
    match (sysfs.online, sysfs.entries) {
        (Some(list), _) => at_least_one(cpus_in_pieces(list_pieces(list@))),
        (None, Some(names)) => at_least_one((cpu_dirs(names@) as u32) as int),
        (None, None) => 1,
    }
}

/// Coarse logical-CPU count for machines without cpufreq: the CPUs that the
/// range expression in `online` names, not an inspection of each one.
pub fn fallback_cpu_count(sysfs: &CpuSysfs) -> (r: u32)
    requires
        sysfs.online matches Some(list) ==> is_countable(list@),
    ensures
        r == fallback_count(*sysfs),
{
    let n: u32 = match &sysfs.online {
        Some(list) => match count_cpu_list(list.as_str()) {
            Some(n) => n,
            None => 1,
        },
        None => match &sysfs.entries {
            Some(names) => count_cpu_dirs(names) as u32,
            None => 1,
        },
    };
    if n < 1 {
        1
    } else {
        n
    }
}

fn count_cpu_dirs(names: &Vec<String>) -> (n: usize)
    ensures
        n == cpu_dirs(names@),
        n <= names@.len(),
{
    let mut n: usize = 0;
    let prefix = text::chars_of("cpu");
    proof {
        reveal_strlit("cpu");
    }
    for i in 0..names.len()
        invariant
            prefix@ == "cpu"@,
            prefix@.len() == 3,
            n == cpu_dirs(names@.take(i as int)),
            n <= i,
    {
        assert(names@.take(i + 1).drop_last() == names@.take(i as int));
        if let Some(rest) = text::strip_prefix(&text::chars_of(names[i].as_str()), &prefix) {
            if text::only_digits(&rest) {
                n = n + 1;
            }
        }
    }
    assert(names@.take(names@.len() as int) == names@);
    n
}

// ---------------------------------------------------------------------------
// From frequencies to a topology
// ---------------------------------------------------------------------------

/// A count in the width of a byte: 255 stands for anything larger.
pub open spec fn fitted(n: int) -> u8 {
    if n > 255 {
        255
    } else {
        n as u8
    }
}

fn fit(n: usize) -> (r: u8)
    ensures
        r == fitted(n as int),
{
    if n > 255 {
        255
    } else {
        n as u8
    }
}

/// The kind of the frequency at place `k` of the ranking: the place itself. The
/// last kind that a byte holds takes in every slower frequency.
pub open spec fn kind_at(k: int) -> u8 {
    fitted(k)
}

/// Whether `ranking` lists the distinct frequencies of `freqs`, highest first.
pub open spec fn is_ranking(freqs: Map<u32, u32>, ranking: Seq<u32>) -> bool {
    &&& forall|i: int, j: int| 0 <= i < j < ranking.len() ==> ranking[i] > ranking[j]
    &&& forall|i: int|
        0 <= i < ranking.len() ==> exists|cpu: u32| #[trigger]
            freqs.contains_key(cpu) && freqs[cpu] == #[trigger] ranking[i]
    &&& forall|cpu: u32| #[trigger] freqs.contains_key(cpu) ==> ranking.contains(freqs[cpu])
}

/// Whether `info` is the table of the CPUs of `freqs`: as long as the highest
/// CPU id asks for; each CPU's kind is the place of its frequency in `ranking`;
/// ids without a CPU are blank.
pub open spec fn is_cpu_table(
    freqs: Map<u32, u32>,
    ranking: Seq<u32>,
    info: Seq<CpuInfo>,
) -> bool {
    &&& info.len() > 0
    &&& freqs.contains_key((info.len() - 1) as u32)
    &&& info.len() - 1 <= u32::MAX
    &&& forall|cpu: u32| #[trigger] freqs.contains_key(cpu) ==> cpu < info.len()
    &&& forall|cpu: u32, k: int| #![trigger freqs.contains_key(cpu), ranking[k]]
        freqs.contains_key(cpu) && 0 <= k < ranking.len() && ranking[k] == freqs[cpu]
            ==> info[cpu as int] == (CpuInfo {
            cpu_kind: kind_at(k),
            freq_n: freqs[cpu],
            freq_d: ranking[0],
        })
    &&& forall|cpu: u32|
        cpu < info.len() && !(#[trigger] freqs.contains_key(cpu)) ==> info[cpu as int] == no_cpu()
}

/// Whether the CPU `a` comes before `b`: it is of a faster kind, or of the same
/// kind with a lower id.
pub open spec fn is_before(info: Seq<CpuInfo>, a: u32, b: u32) -> bool {
    info[a as int].cpu_kind < info[b as int].cpu_kind || (info[a as int].cpu_kind
        == info[b as int].cpu_kind && a < b)
}

/// Whether `order` lists the CPUs of `freqs`, each once, faster kinds first and
/// by id within a kind.
pub open spec fn is_fast_order(
    freqs: Map<u32, u32>,
    info: Seq<CpuInfo>,
    order: Seq<u32>,
) -> bool {
    &&& forall|i: int| 0 <= i < order.len() ==> freqs.contains_key(#[trigger] order[i])
    &&& forall|cpu: u32| #[trigger] freqs.contains_key(cpu) ==> order.contains(cpu)
    &&& forall|i: int, j: int| 0 <= i < j < order.len() ==> is_before(info, order[i], order[j])
}

/// CPU ids in the width that the scheduler's tables have.
pub open spec fn narrow(ids: Seq<u32>) -> Seq<u8> {
    ids.map_values(|id: u32| id as u8)
}

/// Whether `t` is the topology of a machine whose CPUs have the maximal
/// frequencies `freqs`.
pub open spec fn is_topology_of(freqs: Map<u32, u32>, t: Topology) -> bool {
    exists|ranking: Seq<u32>, order: Seq<u32>| #[trigger]
        is_ranking(freqs, ranking) && #[trigger] is_fast_order(freqs, t.cpu_info@, order) && {
            &&& is_cpu_table(freqs, ranking, t.cpu_info@)
            &&& t.cpu_num == fitted(freqs.dom().len() as int)
            &&& t.cpu_kind_num == fitted(ranking.len() as int)
            &&& t.cpus_fast_to_slow@ == narrow(order)
            &&& t.cpus_slow_to_fast@ == narrow(order).reverse()
        }
}

/// Whether `t` is the topology of a machine with `n` CPUs of one kind: the table
/// covers them all; the lists hold as many as are counted.
pub open spec fn is_single_kind(n: int, t: Topology) -> bool {
    &&& t.cpu_num == fitted(n)
    &&& t.cpu_kind_num == 1
    &&& t.cpus_fast_to_slow@ == Seq::new(fitted(n) as nat, |i: int| i as u8)
    &&& t.cpus_slow_to_fast@ == t.cpus_fast_to_slow@.reverse()
    &&& t.cpu_info@ == Seq::new(n as nat, |i: int| CpuInfo { cpu_kind: 0, freq_n: 1, freq_d: 1 })
}

/// `v` backwards.
fn reversed(v: &Vec<u8>) -> (r: Vec<u8>)
    ensures
        r@ == v@.reverse(),
{
    let mut r: Vec<u8> = Vec::new();
    let mut i: usize = v.len();
    while i > 0
        invariant
            i <= v@.len(),
            r@ == v@.reverse().take(v@.len() - i),
        decreases i,
    {
        i = i - 1;
        r.push(v[i]);
        assert(r@ =~= v@.reverse().take(v@.len() - i));
    }
    assert(r@ =~= v@.reverse());
    r
}

/// Whether `entries` are the entries of `freqs`, by ascending CPU id.
spec fn are_entries(freqs: Map<u32, u32>, entries: Seq<(u32, u32)>) -> bool {
    &&& entries.len() == freqs.dom().len()
    &&& forall|i: int, j: int| 0 <= i < j < entries.len() ==> entries[i].0 < entries[j].0
    &&& forall|i: int|
        0 <= i < entries.len() ==> freqs.contains_key((#[trigger] entries[i]).0)
            && freqs[entries[i].0] == entries[i].1
    &&& forall|cpu: u32| #[trigger]
        freqs.contains_key(cpu) ==> exists|i: int|
            0 <= i < entries.len() && (#[trigger] entries[i]).0 == cpu
}

fn sorted_entries(freqs: &BTreeMap<u32, u32>) -> (r: Vec<(u32, u32)>)
    ensures
        are_entries(freqs@, r@),
{
    let mut r: Vec<(u32, u32)> = Vec::new();
    let ghost all = vstd::std_specs::iter::IteratorSpec::remaining(
        &vstd::std_specs::btree::spec_btree_map_iter(freqs),
    );
    let ghost keys = all.map_values(|kv: (&u32, &u32)| *kv.0);
    let iter = freqs.iter();
    assert(vstd::std_specs::btree::increasing_seq(keys));
    assert(vstd::laws_cmp::obeys_cmp::<u32>());
    for (cpu, khz) in it: iter
        invariant
            it.seq() == all,
            r@.len() == it.index(),
            forall|i: int|
                0 <= i < r@.len() ==> (#[trigger] r@[i]).0 == *all[i].0 && r@[i].1 == *all[i].1,
    {
        r.push((*cpu, *khz));
    }
    assert(r@.len() == all.len());
    assert forall|i: int, j: int| 0 <= i < j < r@.len() implies r@[i].0 < r@[j].0 by {
        assert(keys[i] == r@[i].0 && keys[j] == r@[j].0);
        assert(vstd::std_specs::cmp::OrdSpec::cmp_spec(&keys[i], &keys[j]) is Less);
    }
    assert forall|cpu: u32| #[trigger] freqs@.contains_key(cpu) implies exists|i: int|
        0 <= i < r@.len() && (#[trigger] r@[i]).0 == cpu by {
        assert(all.contains((&cpu, &freqs@[cpu])));
        let i = choose|i: int| 0 <= i < all.len() && all[i] == (&cpu, &freqs@[cpu]);
        assert(r@[i].0 == cpu);
    }
    assert forall|i: int| 0 <= i < r@.len() implies freqs@.contains_key((#[trigger] r@[i]).0)
        && freqs@[r@[i].0] == r@[i].1 by {
        assert(freqs@.contains_key(*all[i].0));
    }
    r
}

/// Adds `f` to a strictly descending list, unless it is there already.
fn rank(ranking: &mut Vec<u32>, f: u32)
    requires
        forall|i: int, j: int|
            0 <= i < j < old(ranking)@.len() ==> old(ranking)@[i] > old(ranking)@[j],
    ensures
        forall|i: int, j: int|
            0 <= i < j < final(ranking)@.len() ==> final(ranking)@[i] > final(ranking)@[j],
        forall|g: u32|
            final(ranking)@.contains(g) <==> (old(ranking)@.contains(g) || g == f),
{
    let mut i: usize = 0;
    while i < ranking.len() && ranking[i] > f
        invariant
            ranking@ == old(ranking)@,
            i <= ranking@.len(),
            forall|j: int| 0 <= j < i ==> ranking@[j] > f,
        decreases ranking@.len() - i,
    {
        i = i + 1;
    }
    if i < ranking.len() && ranking[i] == f {
        assert(ranking@[i as int] == f);
        return;
    }
    let ghost before = ranking@;
    ranking.insert(i, f);
    assert(ranking@[i as int] == f);
    assert forall|g: u32| ranking@.contains(g) <==> (before.contains(g) || g == f) by {
        if before.contains(g) {
            let j = choose|j: int| 0 <= j < before.len() && before[j] == g;
            if j < i {
                assert(ranking@[j] == g);
            } else {
                assert(ranking@[j + 1] == g);
            }
        }
        if ranking@.contains(g) && g != f {
            let j = choose|j: int| 0 <= j < ranking@.len() && ranking@[j] == g;
            if j < i {
                assert(before[j] == g);
            } else {
                assert(before[j - 1] == g);
            }
        }
    }
}

/// The place of `f` in a list that holds it.
fn place_of(ranking: &Vec<u32>, f: u32) -> (k: usize)
    requires
        ranking@.contains(f),
    ensures
        k < ranking@.len(),
        ranking@[k as int] == f,
{
    let n = ranking.len();
    let mut k: usize = 0;
    while k < n - 1 && ranking[k] != f
        invariant
            n == ranking@.len(),
            ranking@.contains(f),
            k < n,
            forall|j: int| 0 <= j < k ==> ranking@[j] != f,
        decreases ranking@.len() - k,
    {
        k = k + 1;
    }
    k
}

fn ranking_of(Ghost(freqs): Ghost<Map<u32, u32>>, entries: &Vec<(u32, u32)>) -> (ranking: Vec<u32>)
    requires
        are_entries(freqs, entries@),
    ensures
        is_ranking(freqs, ranking@),
        entries@.len() > 0 ==> ranking@.len() > 0,
{
    let mut ranking: Vec<u32> = Vec::new();
    for i in 0..entries.len()
        invariant
            forall|a: int, b: int| 0 <= a < b < ranking@.len() ==> ranking@[a] > ranking@[b],
            forall|g: u32| #[trigger]
                ranking@.contains(g) <==> exists|j: int|
                    0 <= j < i && (#[trigger] entries@[j]).1 == g,
    {
        let ghost before = ranking@;
        rank(&mut ranking, entries[i].1);
        assert forall|g: u32| #[trigger] ranking@.contains(g) <==> exists|j: int|
            0 <= j < i + 1 && (#[trigger] entries@[j]).1 == g by {
            assert(ranking@.contains(g) <==> (before.contains(g) || g == entries@[i as int].1));
            if before.contains(g) {
                let j = choose|j: int| 0 <= j < i && (#[trigger] entries@[j]).1 == g;
                assert(entries@[j].1 == g);
            }
            if g == entries@[i as int].1 {
                assert(entries@[i as int].1 == g);
            }
        }
    }
    assert forall|i: int| 0 <= i < ranking@.len() implies exists|cpu: u32| #[trigger]
        freqs.contains_key(cpu) && freqs[cpu] == #[trigger] ranking@[i] by {
        assert(ranking@.contains(ranking@[i]));
        let j = choose|j: int| 0 <= j < entries@.len() && (#[trigger] entries@[j]).1 == ranking@[i];
        assert(freqs.contains_key(entries@[j].0));
    }
    assert forall|cpu: u32| #[trigger] freqs.contains_key(cpu) implies ranking@.contains(
        freqs[cpu],
    ) by {
        let j = choose|j: int| 0 <= j < entries@.len() && (#[trigger] entries@[j]).0 == cpu;
        assert(entries@[j].1 == freqs[cpu]);
    }
    if entries.len() > 0 {
        assert(ranking@.contains(entries@[0].1)) by {
            assert(entries@[0].1 == entries@[0].1);
        }
    }
    ranking
}

/// The entry of a CPU whose frequency stands at place `k` of `ranking`.
spec fn entry_at(ranking: Seq<u32>, k: int) -> CpuInfo {
    CpuInfo { cpu_kind: kind_at(k), freq_n: ranking[k], freq_d: ranking[0] }
}

fn cpu_table(
    Ghost(freqs): Ghost<Map<u32, u32>>,
    entries: &Vec<(u32, u32)>,
    ranking: &Vec<u32>,
) -> (info: Vec<CpuInfo>)
    requires
        are_entries(freqs, entries@),
        is_ranking(freqs, ranking@),
        entries@.len() > 0,
        ranking@.len() > 0,
        entries@.last().0 < usize::MAX,
    ensures
        is_cpu_table(freqs, ranking@, info@),
{
    let fastest = ranking[0];
    let max_id = entries[entries.len() - 1].0 as usize;
    let mut info: Vec<CpuInfo> = Vec::new();
    while info.len() < max_id + 1
        invariant
            max_id < usize::MAX,
            info@.len() <= max_id + 1,
            forall|x: int| 0 <= x < info@.len() ==> info@[x] == no_cpu(),
        decreases max_id + 1 - info@.len(),
    {
        info.push(CpuInfo::default());
    }
    for i in 0..entries.len()
        invariant
            are_entries(freqs, entries@),
            is_ranking(freqs, ranking@),
            entries@.len() > 0,
            ranking@.len() > 0,
            fastest == ranking@[0],
            max_id == entries@.last().0,
            info@.len() == max_id + 1,
            forall|j: int, k: int| #![trigger entries@[j], ranking@[k]]
                0 <= j < i && 0 <= k < ranking@.len() && ranking@[k] == entries@[j].1
                    ==> info@[entries@[j].0 as int] == entry_at(ranking@, k),
            forall|x: int|
                0 <= x < info@.len() && (forall|j: int|
                    0 <= j < i ==> (#[trigger] entries@[j]).0 != x) ==> #[trigger] info@[x]
                    == no_cpu(),
    {
        let (cpu, khz) = entries[i];
        assert(freqs.contains_key(entries@[i as int].0));
        let k = place_of(ranking, khz);
        assert(i < entries@.len() - 1 ==> entries@[i as int].0 < entries@.last().0);
        let ghost before = info@;
        info.set(cpu as usize, CpuInfo { cpu_kind: fit(k), freq_n: khz, freq_d: fastest });
        assert forall|j: int, m: int| #![trigger entries@[j], ranking@[m]]
            0 <= j < i + 1 && 0 <= m < ranking@.len() && ranking@[m]
                == entries@[j].1 implies info@[entries@[j].0 as int] == entry_at(ranking@, m) by {
            if j < i {
                assert(entries@[j].0 < entries@[i as int].0);
            } else {
                assert(m == k);
            }
        }
        assert forall|x: int|
            0 <= x < info@.len() && (forall|j: int|
                0 <= j < i + 1 ==> (#[trigger] entries@[j]).0 != x) implies #[trigger] info@[x]
            == no_cpu() by {
            assert(entries@[i as int].0 != x);
            assert(info@[x] == before[x]);
        }
    }
    assert forall|cpu: u32| #[trigger] freqs.contains_key(cpu) implies cpu < info@.len() by {
        let j = choose|j: int| 0 <= j < entries@.len() && (#[trigger] entries@[j]).0 == cpu;
        assert(j < entries@.len() - 1 ==> entries@[j].0 < entries@[entries@.len() - 1].0);
    }
    assert forall|cpu: u32, k: int| #![trigger freqs.contains_key(cpu), ranking@[k]]
        freqs.contains_key(cpu) && 0 <= k < ranking@.len() && ranking@[k]
            == freqs[cpu] implies info@[cpu as int] == entry_at(ranking@, k) by {
        let j = choose|j: int| 0 <= j < entries@.len() && (#[trigger] entries@[j]).0 == cpu;
        assert(entries@[j].1 == ranking@[k]);
    }
    assert(freqs.contains_key(entries@[entries@.len() - 1].0));
    assert((info@.len() - 1) as u32 == entries@[entries@.len() - 1].0);
    info
}

fn fast_order(
    Ghost(freqs): Ghost<Map<u32, u32>>,
    entries: &Vec<(u32, u32)>,
    info: &Vec<CpuInfo>,
) -> (order: Vec<u32>)
    requires
        are_entries(freqs, entries@),
        forall|cpu: u32| #[trigger] freqs.contains_key(cpu) ==> cpu < info@.len(),
    ensures
        is_fast_order(freqs, info@, order@),
{
    let mut order: Vec<u32> = Vec::new();
    let mut kind: u16 = 0;
    while kind < 256
        invariant
            are_entries(freqs, entries@),
            forall|cpu: u32| #[trigger] freqs.contains_key(cpu) ==> cpu < info@.len(),
            kind <= 256,
            forall|x: int|
                0 <= x < order@.len() ==> freqs.contains_key(#[trigger] order@[x])
                    && info@[order@[x] as int].cpu_kind < kind,
            forall|j: int|
                0 <= j < entries@.len() && info@[(#[trigger] entries@[j]).0 as int].cpu_kind < kind
                    ==> order@.contains(entries@[j].0),
            forall|x: int, y: int|
                0 <= x < y < order@.len() ==> is_before(info@, order@[x], order@[y]),
        decreases 256 - kind,
    {
        for i in 0..entries.len()
            invariant
                are_entries(freqs, entries@),
                forall|cpu: u32| #[trigger] freqs.contains_key(cpu) ==> cpu < info@.len(),
                kind < 256,
                forall|x: int|
                    0 <= x < order@.len() ==> freqs.contains_key(#[trigger] order@[x]) && (
                    info@[order@[x] as int].cpu_kind < kind || (info@[order@[x] as int].cpu_kind
                        == kind && exists|m: int|
                        0 <= m < i && (#[trigger] entries@[m]).0 == order@[x])),
                forall|j: int|
                    0 <= j < entries@.len() && info@[(#[trigger] entries@[j]).0 as int].cpu_kind
                        < kind ==> order@.contains(entries@[j].0),
                forall|j: int|
                    0 <= j < i && info@[(#[trigger] entries@[j]).0 as int].cpu_kind == kind
                        ==> order@.contains(entries@[j].0),
                forall|x: int, y: int|
                    0 <= x < y < order@.len() ==> is_before(info@, order@[x], order@[y]),
        {
            let cpu = entries[i].0;
            assert(freqs.contains_key(entries@[i as int].0));
            if info[cpu as usize].cpu_kind as u16 == kind {
                let ghost before = order@;
                order.push(cpu);
                assert(order@[before.len() as int] == cpu);
                assert forall|g: u32| before.contains(g) implies order@.contains(g) by {
                    let x = choose|x: int| 0 <= x < before.len() && before[x] == g;
                    assert(order@[x] == g);
                }
                assert forall|x: int, y: int| 0 <= x < y < order@.len() implies is_before(
                    info@,
                    order@[x],
                    order@[y],
                ) by {
                    assert(order@[x] == before[x]);
                    if y < before.len() {
                        assert(order@[y] == before[y]);
                    }
                }
                assert forall|x: int| 0 <= x < order@.len() implies freqs.contains_key(
                    #[trigger] order@[x],
                ) && (info@[order@[x] as int].cpu_kind < kind || (info@[order@[x] as int].cpu_kind
                    == kind && exists|m: int|
                    0 <= m < i + 1 && (#[trigger] entries@[m]).0 == order@[x])) by {
                    if x == before.len() {
                        assert(entries@[i as int].0 == order@[x]);
                    } else {
                        assert(order@[x] == before[x]);
                    }
                }
            }
        }
        kind = kind + 1;
    }
    assert forall|cpu: u32| #[trigger] freqs.contains_key(cpu) implies order@.contains(cpu) by {
        let j = choose|j: int| 0 <= j < entries@.len() && (#[trigger] entries@[j]).0 == cpu;
        assert(info@[entries@[j].0 as int].cpu_kind < 256);
    }
    order
}

impl Topology {
    /// Whether there is a CPU to run on and a kind to bind to, and what is counted
    /// are the CPUs in each of the two lists, as far as a byte counts.
    pub open spec fn is_usable(self) -> bool {
        &&& 1 <= self.cpu_num
        &&& 1 <= self.cpu_kind_num
        &&& self.cpu_num == fitted(self.cpus_fast_to_slow@.len() as int)
        &&& self.cpu_num == fitted(self.cpus_slow_to_fast@.len() as int)
    }

    /// The topology of a machine whose CPUs have the maximal frequencies
    /// `freq_by_cpu`.
    pub fn from_freqs(freq_by_cpu: &BTreeMap<u32, u32>) -> (r: Self)
        requires
            freq_by_cpu@.dom().len() > 0,
            forall|cpu: u32| #[trigger] freq_by_cpu@.contains_key(cpu) ==> cpu < usize::MAX,
        ensures
            is_topology_of(freq_by_cpu@, r),
            r.is_usable(),
    {
        let entries = sorted_entries(freq_by_cpu);
        let ghost freqs = freq_by_cpu@;
        // Distinct max_freqs, high to low: the index is the kind id.
        let ranking = ranking_of(Ghost(freqs), &entries);
        assert(freqs.contains_key(entries@[entries@.len() - 1].0));
        let cpu_info = cpu_table(Ghost(freqs), &entries, &ranking);
        let order = fast_order(Ghost(freqs), &entries, &cpu_info);
        let mut cpus_fast_to_slow: Vec<u8> = Vec::new();
        for i in 0..order.len()
            invariant
                cpus_fast_to_slow@ == narrow(order@).take(i as int),
        {
            cpus_fast_to_slow.push(order[i] as u8);
            assert(cpus_fast_to_slow@ =~= narrow(order@).take(i + 1));
        }
        assert(narrow(order@).take(order@.len() as int) == narrow(order@));
        let cpus_slow_to_fast = reversed(&cpus_fast_to_slow);
        proof {
            crate::topology_laws::law_every_cpu_once(freqs, cpu_info@, order@);
        }
        let r = Topology {
            cpu_num: fit(order.len()),
            cpu_kind_num: fit(ranking.len()),
            cpus_fast_to_slow,
            cpus_slow_to_fast,
            cpu_info,
        };
        assert(is_ranking(freqs, ranking@) && is_fast_order(freqs, r.cpu_info@, order@));
        r
    }

    /// The topology of a machine with `n` CPUs of one kind, where normalising a
    /// runtime is a no-op.
    pub fn single_kind(n: u32) -> (r: Self)
        requires
            n <= MAX_CPU,
        ensures
            is_single_kind(n as int, r),
    {
        let mut cpus: Vec<u8> = Vec::new();
        let count = fit(n as usize);
        let mut id: u8 = 0;
        while id < count
            invariant
                id <= count,
                cpus@ == Seq::new(id as nat, |i: int| i as u8),
            decreases count - id,
        {
            cpus.push(id);
            id = id + 1;
            assert(cpus@ =~= Seq::new(id as nat, |i: int| i as u8));
        }
        let mut cpu_info: Vec<CpuInfo> = Vec::new();
        let mut i: u32 = 0;
        while i < n
            invariant
                i <= n,
                cpu_info@ == Seq::new(
                    i as nat,
                    |i: int| CpuInfo { cpu_kind: 0, freq_n: 1, freq_d: 1 },
                ),
            decreases n - i,
        {
            cpu_info.push(CpuInfo { cpu_kind: 0, freq_n: 1, freq_d: 1 });
            i = i + 1;
            assert(cpu_info@ =~= Seq::new(
                i as nat,
                |i: int| CpuInfo { cpu_kind: 0, freq_n: 1, freq_d: 1 },
            ));
        }
        let slow = reversed(&cpus);
        Topology {
            cpu_num: count,
            cpu_kind_num: 1,
            cpus_fast_to_slow: cpus,
            cpus_slow_to_fast: slow,
            cpu_info,
        }
    }

    /// The machine topology, by what sysfs says. Always a usable one: on
    /// hardware without cpufreq it collapses to a single kind with
    /// `freq_n == freq_d`. Where there are more than 255 CPUs, 255 are counted.
    pub fn discover(sysfs: &CpuSysfs) -> (r: Self)
        requires
            sysfs.is_sound(),
        ensures
            if freq_map(sysfs.policies@).dom().len() > 0 {
                is_topology_of(freq_map(sysfs.policies@), r)
            } else {
                is_single_kind(capped(fallback_count(*sysfs)), r)
            },
            r.is_usable(),
    {
        let freq_by_cpu = read_cpufreq(&sysfs.policies);
        if freq_by_cpu.len() == 0 {
            let count = fallback_cpu_count(sysfs);
            let n: u32 = if count > MAX_CPU as u32 {
                MAX_CPU as u32
            } else {
                count
            };
            return Topology::single_kind(n);
        }
        Topology::from_freqs(&freq_by_cpu)
    }
}

/// `n`, but no more than the scheduler's tables hold.
pub open spec fn capped(n: int) -> int {
    if n > MAX_CPU {
        MAX_CPU as int
    } else {
        n
    }
}

impl CpuSysfs {
    /// Whether a topology can be worked out: every CPU id leaves room for a
    /// table up to it, and where there is no cpufreq, the list of online CPUs
    /// can be counted.
    pub open spec fn is_sound(self) -> bool {
        let freqs = freq_map(self.policies@);
        &&& forall|cpu: u32| #[trigger] freqs.contains_key(cpu) ==> cpu < usize::MAX
        &&& freqs.dom().len() == 0 ==> (self.online matches Some(list) ==> is_countable(list@))
    }

    /// Whether a topology can be worked out.
    pub fn check(&self) -> (r: bool)
        ensures
            r == self.is_sound(),
    {
        let freqs = read_cpufreq(&self.policies);
        let entries = sorted_entries(&freqs);
        if entries.len() == 0 {
            assert(freqs@.dom().len() == 0);
            assert(forall|cpu: u32| !(#[trigger] freqs@.contains_key(cpu)));
            return match &self.online {
                Some(list) => count_cpu_list(list.as_str()).is_some(),
                None => true,
            };
        }
        let top = entries[entries.len() - 1].0;
        assert(freqs@.contains_key(entries@[entries@.len() - 1].0));
        assert forall|cpu: u32| #[trigger] freqs@.contains_key(cpu) implies cpu <= top by {
            let j = choose|j: int| 0 <= j < entries@.len() && (#[trigger] entries@[j]).0 == cpu;
            assert(j < entries@.len() - 1 ==> entries@[j].0 < entries@[entries@.len() - 1].0);
        }
        (top as usize) < usize::MAX
    }
}

// ---------------------------------------------------------------------------
// Reporting and packing
// ---------------------------------------------------------------------------

/// The CPUs of one kind.
#[derive(Debug, Clone)]
pub struct KindGroup {
    pub kind: u8,
    /// The max_freq (kHz) of the first of them.
    pub khz: u32,
    pub cpus: Vec<u8>,
}

/// The ids of the CPUs of a kind, ascending. Blank entries count as no CPU.
pub open spec fn cpus_of_kind(info: Seq<CpuInfo>, kind: u8) -> Seq<u8>
    decreases info.len(),
{
    if info.len() == 0 {
        Seq::empty()
    } else {
        let front = cpus_of_kind(info.drop_last(), kind);
        if info.last().freq_n != 0 && info.last().cpu_kind == kind {
            front.push((info.len() - 1) as u8)
        } else {
            front
        }
    }
}

/// The frequency of the first CPU of a kind; 0 if there is none.
pub open spec fn khz_of_kind(info: Seq<CpuInfo>, kind: u8) -> u32
    decreases info.len(),
{
    if info.len() == 0 {
        0
    } else {
        let front = khz_of_kind(info.drop_last(), kind);
        if front == 0 && info.last().cpu_kind == kind {
            info.last().freq_n
        } else {
            front
        }
    }
}

/// The kinds below `top` that have a CPU, ascending.
pub open spec fn kinds_below(info: Seq<CpuInfo>, top: nat) -> Seq<u8>
    decreases top,
{
    if top == 0 {
        Seq::empty()
    } else {
        let front = kinds_below(info, (top - 1) as nat);
        let kind = (top - 1) as u8;
        if cpus_of_kind(info, kind).len() > 0 {
            front.push(kind)
        } else {
            front
        }
    }
}

/// Whether `g` describes the CPUs of the kind `kind`.
pub open spec fn is_group(info: Seq<CpuInfo>, kind: u8, g: KindGroup) -> bool {
    g.kind == kind && g.khz == khz_of_kind(info, kind) && g.cpus@ == cpus_of_kind(info, kind)
}

/// Whether `groups` describe the kinds of CPU in `info`, by ascending kind.
pub open spec fn are_groups(info: Seq<CpuInfo>, groups: Seq<KindGroup>) -> bool {
    &&& groups.len() == kinds_below(info, 256).len()
    &&& forall|i: int|
        0 <= i < groups.len() ==> is_group(
            info,
            kinds_below(info, 256)[i],
            #[trigger] groups[i],
        )
}

/// `kindK (F GHz, N cpus)` for one group, with `ghz` for the frequency.
pub open spec fn group_text(kind: u8, ghz: Seq<char>, cpus: int) -> Seq<char> {
    "kind"@ + text::decimal(kind as nat) + " ("@ + ghz + "GHz, "@ + text::decimal(cpus as nat)
        + " cpus)"@
}

/// The texts of all groups, separated by commas.
pub open spec fn groups_text(info: Seq<CpuInfo>, kinds: Seq<u8>, ghz: Seq<Seq<char>>) -> Seq<char>
    decreases kinds.len(),
{
    if kinds.len() == 0 {
        Seq::empty()
    } else {
        let i = kinds.len() - 1;
        let last = group_text(kinds[i], ghz[i], cpus_of_kind(info, kinds[i]).len() as int);
        if i == 0 {
            last
        } else {
            groups_text(info, kinds.drop_last(), ghz) + ", "@ + last
        }
    }
}

/// The one-line summary of a topology, with `ghz` for the kinds' frequencies.
pub open spec fn summary_text(t: Topology, ghz: Seq<Seq<char>>) -> Seq<char> {
    text::decimal(t.cpu_num as nat) + " CPUs, "@ + text::decimal(t.cpu_kind_num as nat)
        + " kind(s): "@ + groups_text(t.cpu_info@, kinds_below(t.cpu_info@, 256), ghz)
}

fn group_of_kind(info: &Vec<CpuInfo>, kind: u8) -> (g: KindGroup)
    ensures
        is_group(info@, kind, g),
{
    let mut khz: u32 = 0;
    let mut cpus: Vec<u8> = Vec::new();
    for id in 0..info.len()
        invariant
            khz == khz_of_kind(info@.take(id as int), kind),
            cpus@ == cpus_of_kind(info@.take(id as int), kind),
    {
        assert(info@.take(id + 1).drop_last() == info@.take(id as int));
        if info[id].cpu_kind == kind {
            if khz == 0 {
                khz = info[id].freq_n;
            }
            if info[id].freq_n != 0 {
                cpus.push(id as u8);
            }
        }
    }
    assert(info@.take(info@.len() as int) == info@);
    KindGroup { kind, khz, cpus }
}

impl Topology {
    /// The CPUs by kind, fastest kind first. CPU ids without a CPU are left out.
    pub fn kind_groups(&self) -> (r: Vec<KindGroup>)
        ensures
            are_groups(self.cpu_info@, r@),
    {
        let mut r: Vec<KindGroup> = Vec::new();
        let mut top: u16 = 0;
        while top < 256
            invariant
                top <= 256,
                r@.len() == kinds_below(self.cpu_info@, top as nat).len(),
                forall|i: int|
                    0 <= i < r@.len() ==> is_group(
                        self.cpu_info@,
                        kinds_below(self.cpu_info@, top as nat)[i],
                        #[trigger] r@[i],
                    ),
            decreases 256 - top,
        {
            let g = group_of_kind(&self.cpu_info, top as u8);
            if g.cpus.len() > 0 {
                r.push(g);
            }
            top = top + 1;
        }
        r
    }

    /// Human-readable one-line summary per kind, for startup logging. `ghz`
    /// renders a frequency in kHz as a number of GHz.
    pub fn summary<G: Fn(u32) -> String>(&self, ghz: G) -> (r: String)
        requires
            forall|khz: u32| #[trigger] call_requires(ghz, (khz,)),
        ensures
            exists|texts: Seq<Seq<char>>|
                {
                    &&& r@ == #[trigger] summary_text(*self, texts)
                    &&& renders(self.cpu_info@, kinds_below(self.cpu_info@, 256), ghz, texts)
                },
    {
        let groups = self.kind_groups();
        let ghost kinds = kinds_below(self.cpu_info@, 256);
        let ghost mut texts: Seq<Seq<char>> = Seq::empty();
        let mut parts = String::new();
        for i in 0..groups.len()
            invariant
                forall|khz: u32| #[trigger] call_requires(ghz, (khz,)),
                kinds == kinds_below(self.cpu_info@, 256),
                are_groups(self.cpu_info@, groups@),
                texts.len() == i,
                renders(self.cpu_info@, kinds.take(i as int), ghz, texts),
                parts@ == groups_text(self.cpu_info@, kinds.take(i as int), texts),
        {
            let g = &groups[i];
            assert(is_group(self.cpu_info@, kinds[i as int], groups@[i as int]));
            let rendered = ghz(g.khz);
            let ghost before = parts@;
            if i > 0 {
                parts.push_str(", ");
            }
            let ghost mid = parts@;
            parts.push_str("kind");
            text::push_decimal(&mut parts, g.kind as u64);
            parts.push_str(" (");
            parts.push_str(rendered.as_str());
            parts.push_str("GHz, ");
            text::push_decimal(&mut parts, g.cpus.len() as u64);
            parts.push_str(" cpus)");
            proof {
                let old_texts = texts;
                texts = texts.push(rendered@);
                assert(kinds.take(i + 1).drop_last() == kinds.take(i as int));
                lemma_groups_text_prefix(self.cpu_info@, kinds.take(i as int), old_texts, texts);
                assert(parts@ =~= mid + group_text(
                    g.kind,
                    rendered@,
                    g.cpus@.len() as int,
                ));
                assert(parts@ =~= groups_text(self.cpu_info@, kinds.take(i + 1), texts));
                assert(can_render(ghz, g.khz, rendered@));
                assert forall|j: int| 0 <= j < i + 1 implies can_render(
                    ghz,
                    khz_of_kind(self.cpu_info@, kinds.take(i + 1)[j]),
                    #[trigger] texts[j],
                ) by {
                    if j < i {
                        assert(texts[j] == old_texts[j]);
                        assert(kinds.take(i as int)[j] == kinds.take(i + 1)[j]);
                    }
                }
            }
        }
        assert(kinds.take(kinds.len() as int) == kinds);
        let mut r = String::new();
        text::push_decimal(&mut r, self.cpu_num as u64);
        r.push_str(" CPUs, ");
        text::push_decimal(&mut r, self.cpu_kind_num as u64);
        r.push_str(" kind(s): ");
        r.push_str(parts.as_str());
        assert(r@ =~= summary_text(*self, texts));
        r
    }
}

/// Whether `texts` are what `ghz` gives for the frequencies of `kinds`.
pub open spec fn renders<G: Fn(u32) -> String>(
    info: Seq<CpuInfo>,
    kinds: Seq<u8>,
    ghz: G,
    texts: Seq<Seq<char>>,
) -> bool {
    &&& texts.len() == kinds.len()
    &&& forall|i: int|
        0 <= i < kinds.len() ==> can_render(
            ghz,
            khz_of_kind(info, kinds[i]),
            #[trigger] texts[i],
        )
}

/// Whether `ghz` can give `rendered` for the frequency `khz`.
pub open spec fn can_render<G: Fn(u32) -> String>(ghz: G, khz: u32, rendered: Seq<char>) -> bool {
    exists|s: String| #[trigger] call_ensures(ghz, (khz,), s) && s@ == rendered
}

proof fn lemma_groups_text_prefix(
    info: Seq<CpuInfo>,
    kinds: Seq<u8>,
    a: Seq<Seq<char>>,
    b: Seq<Seq<char>>,
)
    requires
        kinds.len() <= a.len(),
        kinds.len() <= b.len(),
        forall|i: int| 0 <= i < kinds.len() ==> a[i] == b[i],
    ensures
        groups_text(info, kinds, a) == groups_text(info, kinds, b),
    decreases kinds.len(),
{
    if kinds.len() > 0 {
        lemma_groups_text_prefix(info, kinds.drop_last(), a, b);
    }
}

/// The scheduler's read-only tables.
pub struct Rodata {
    pub cpu_num: u8,
    pub cpu_kind_num: u8,
    pub cpus_fast_to_slow: [u8; 512],
    pub cpus_slow_to_fast: [u8; 512],
    pub cpu_info: [CpuInfo; 512],
}

/// `table` with its first entries replaced by those of `list`, as far as both
/// go.
pub open spec fn overlaid<T>(table: Seq<T>, list: Seq<T>) -> Seq<T> {
    Seq::new(
        table.len(),
        |i: int|
            if i < list.len() {
                list[i]
            } else {
                table[i]
            },
    )
}

fn overlay_ids(table: &mut [u8; 512], list: &Vec<u8>)
    ensures
        final(table)@ == overlaid(old(table)@, list@),
{
    let n: usize = if list.len() < 512 {
        list.len()
    } else {
        512
    };
    let mut i: usize = 0;
    while i < n
        invariant
            n <= 512,
            n <= list@.len(),
            i <= n,
            table@ == overlaid(old(table)@, list@.take(i as int)),
        decreases n - i,
    {
        table[i] = list[i];
        i = i + 1;
        assert(table@ =~= overlaid(old(table)@, list@.take(i as int)));
    }
    assert(table@ =~= overlaid(old(table)@, list@));
}

/// Copy the discovered topology into the scheduler's read-only tables. The
/// tables are of fixed size: the prefix that the topology fills is overwritten,
/// the rest stays as it is.
pub fn pack_topology(rodata: &mut Rodata, topo: &Topology)
    ensures
        final(rodata).cpu_num == topo.cpu_num,
        final(rodata).cpu_kind_num == topo.cpu_kind_num,
        final(rodata).cpus_fast_to_slow@ == overlaid(
            old(rodata).cpus_fast_to_slow@,
            topo.cpus_fast_to_slow@,
        ),
        final(rodata).cpus_slow_to_fast@ == overlaid(
            old(rodata).cpus_slow_to_fast@,
            topo.cpus_slow_to_fast@,
        ),
        final(rodata).cpu_info@ == overlaid(old(rodata).cpu_info@, topo.cpu_info@),
{
    rodata.cpu_num = topo.cpu_num;
    rodata.cpu_kind_num = topo.cpu_kind_num;
    overlay_ids(&mut rodata.cpus_fast_to_slow, &topo.cpus_fast_to_slow);
    overlay_ids(&mut rodata.cpus_slow_to_fast, &topo.cpus_slow_to_fast);
    let list = &topo.cpu_info;
    let n: usize = if list.len() < 512 {
        list.len()
    } else {
        512
    };
    let mut i: usize = 0;
    let ghost packed = *rodata;
    while i < n
        invariant
            n <= 512,
            n <= list@.len(),
            i <= n,
            rodata.cpu_num == packed.cpu_num,
            rodata.cpu_kind_num == packed.cpu_kind_num,
            rodata.cpus_fast_to_slow == packed.cpus_fast_to_slow,
            rodata.cpus_slow_to_fast == packed.cpus_slow_to_fast,
            rodata.cpu_info@ == overlaid(packed.cpu_info@, list@.take(i as int)),
        decreases n - i,
    {
        rodata.cpu_info[i] = list[i];
        i = i + 1;
        assert(rodata.cpu_info@ =~= overlaid(packed.cpu_info@, list@.take(i as int)));
    }
    assert(rodata.cpu_info@ =~= overlaid(packed.cpu_info@, list@));
}

} // verus!
