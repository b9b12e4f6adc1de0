//! What holds of the files of `/sys/devices/system/cpu`, stated of the files
//! themselves.

use crate::text;
use crate::text_laws;
use crate::topology;
use crate::topology::{CpuSysfs, PolicyDir};
use vstd::prelude::*;

verus! {

// ---------------------------------------------------------------------------
// Frequencies
// ---------------------------------------------------------------------------

/// Whether one of `ids` is the number of the CPU.
pub open spec fn names_cpu(ids: Seq<Seq<char>>, cpu: u32) -> bool {
    exists|k: int| 0 <= k < ids.len() && text::as_u32(#[trigger] ids[k]) == Some(cpu)
}

/// Whether a directory entry gives a CPU the frequency `khz`: its name begins
/// with `policy`, whatever follows; its maximal frequency is that number; and the
/// CPU is among its related CPUs.
pub open spec fn gives(p: PolicyDir, cpu: u32, khz: u32) -> bool {
    &&& p.name@.len() >= "policy"@.len() && p.name@.take("policy"@.len() as int) == "policy"@
    &&& p.max_freq matches Some(max) && text::as_u32(text::trimmed(max@)) == Some(khz)
    &&& p.related_cpus matches Some(ids) && names_cpu(text::words(ids@), cpu)
}

proof fn lemma_with_cpus(freqs: Map<u32, u32>, ids: Seq<Seq<char>>, khz: u32, cpu: u32)
    ensures
        topology::with_cpus(freqs, ids, khz).contains_key(cpu) <==> names_cpu(ids, cpu)
            || freqs.contains_key(cpu),
        names_cpu(ids, cpu) ==> topology::with_cpus(freqs, ids, khz)[cpu] == khz,
        !names_cpu(ids, cpu) && freqs.contains_key(cpu) ==> topology::with_cpus(
            freqs,
            ids,
            khz,
        )[cpu] == freqs[cpu],
    decreases ids.len(),
{
    if ids.len() > 0 {
        let front = ids.drop_last();
        lemma_with_cpus(freqs, front, khz, cpu);
        if names_cpu(front, cpu) {
            let k = choose|k: int| 0 <= k < front.len() && text::as_u32(#[trigger] front[k]) == Some(
                cpu,
            );
            assert(ids[k] == front[k]);
        }
        if names_cpu(ids, cpu) {
            let k = choose|k: int| 0 <= k < ids.len() && text::as_u32(#[trigger] ids[k]) == Some(
                cpu,
            );
            if k < front.len() {
                assert(front[k] == ids[k]);
            }
        }
        assert(ids.last() == ids[ids.len() - 1]);
    }
}

proof fn lemma_one_policy(policies: Seq<PolicyDir>, cpu: u32)
    requires
        policies.len() > 0,
    ensures
        forall|khz: u32| #[trigger]
            gives(policies.last(), cpu, khz) ==> topology::freq_map(policies).contains_key(cpu)
                && topology::freq_map(policies)[cpu] == khz,
        (forall|khz: u32| !(#[trigger] gives(policies.last(), cpu, khz))) ==> {
            let before = topology::freq_map(policies.drop_last());
            let after = topology::freq_map(policies);
            &&& after.contains_key(cpu) == before.contains_key(cpu)
            &&& before.contains_key(cpu) ==> after[cpu] == before[cpu]
        },
{
    let p = policies.last();
    let before = topology::freq_map(policies.drop_last());
    if text::starts_with(p.name@, "policy"@) {
        if let (Some(khz), Some(ids)) = (topology::policy_freq(p), p.related_cpus) {
            lemma_with_cpus(before, text::words(ids@), khz, cpu);
            if names_cpu(text::words(ids@), cpu) {
                assert(gives(p, cpu, khz));
            }
        }
    }
}

/// A CPU has the frequency that the last of the entries to give it one gives.
pub proof fn law_last_policy_counts(policies: Seq<PolicyDir>, i: int, cpu: u32, khz: u32)
    requires
        0 <= i < policies.len(),
        gives(policies[i], cpu, khz),
        forall|j: int, f: u32| i < j < policies.len() ==> !(#[trigger] gives(policies[j], cpu, f)),
    ensures
        topology::freq_map(policies).contains_key(cpu),
        topology::freq_map(policies)[cpu] == khz,
    decreases policies.len(),
{
    lemma_one_policy(policies, cpu);
    let last = policies.len() - 1;
    assert(policies.last() == policies[last]);
    if i < last {
        let front = policies.drop_last();
        assert(front[i] == policies[i]);
        assert forall|j: int, f: u32| i < j < front.len() implies !(#[trigger] gives(
            front[j],
            cpu,
            f,
        )) by {
            assert(front[j] == policies[j]);
            assert(!gives(policies[j], cpu, f));
        }
        law_last_policy_counts(front, i, cpu, khz);
        assert forall|f: u32| !(#[trigger] gives(policies.last(), cpu, f)) by {
            assert(!gives(policies[last], cpu, f));
        }
    }
}

/// A CPU to which no entry gives a frequency has none.
pub proof fn law_no_policy_no_frequency(policies: Seq<PolicyDir>, cpu: u32)
    requires
        forall|j: int, f: u32| 0 <= j < policies.len() ==> !(#[trigger] gives(policies[j], cpu, f)),
    ensures
        !topology::freq_map(policies).contains_key(cpu),
    decreases policies.len(),
{
    if policies.len() > 0 {
        lemma_one_policy(policies, cpu);
        let front = policies.drop_last();
        let last = policies.len() - 1;
        assert forall|j: int, f: u32| 0 <= j < front.len() implies !(#[trigger] gives(
            front[j],
            cpu,
            f,
        )) by {
            assert(front[j] == policies[j]);
            assert(!gives(policies[j], cpu, f));
        }
        law_no_policy_no_frequency(front, cpu);
        assert forall|f: u32| !(#[trigger] gives(policies.last(), cpu, f)) by {
            assert(policies.last() == policies[last]);
            assert(!gives(policies[last], cpu, f));
        }
    }
}

// ---------------------------------------------------------------------------
// Counting CPUs
// ---------------------------------------------------------------------------

/// A piece of a CPU list without a `-` names one CPU if it is a number, and none
/// otherwise.
pub proof fn law_single_cpu_counts_one(piece: Seq<char>)
    requires
        !piece.contains('-'),
    ensures
        topology::cpus_in_piece(piece) == (if text::as_u32(piece) is Some {
            1int
        } else {
            0
        }),
        topology::is_forward(piece),
{
}

/// A range names the CPUs from its first to its last number, both included; what
/// is no range of numbers names none.
pub proof fn law_range_counts_both_ends(from: Seq<char>, to: Seq<char>)
    requires
        !from.contains('-'),
    ensures
        ({
            let piece = from.push('-') + to;
            match (text::as_u32(from), text::as_u32(to)) {
                (Some(a), Some(b)) => {
                    &&& topology::cpus_in_piece(piece) == b - a + 1
                    &&& topology::is_forward(piece) <==> a <= b
                },
                _ => topology::cpus_in_piece(piece) == 0 && topology::is_forward(piece),
            }
        }),
{
    let piece = from.push('-') + to;
    let i = from.len() as int;
    assert(piece[i] == '-');
    assert forall|j: int| 0 <= j < i implies piece[j] != '-' by {
        assert(piece[j] == from[j]);
        assert(from.contains(from[j]));
    }
    text_laws::law_first_index_is_the_first(piece, '-', i);
    assert(piece.contains('-'));
    assert(piece.take(i) =~= from);
    assert(piece.skip(i + 1) =~= to);
}

/// The counts of the pieces add up, each piece counted once.
pub proof fn law_counts_add_up(a: Seq<Seq<char>>, b: Seq<Seq<char>>, piece: Seq<char>)
    ensures
        topology::cpus_in_pieces(Seq::<Seq<char>>::empty()) == 0,
        topology::cpus_in_pieces(seq![piece]) == topology::cpus_in_piece(piece),
        topology::cpus_in_pieces(a + b) == topology::cpus_in_pieces(a) + topology::cpus_in_pieces(
            b,
        ),
    decreases b.len(),
{
    reveal_with_fuel(topology::cpus_in_pieces, 2);
    assert(seq![piece].drop_last() =~= Seq::<Seq<char>>::empty());
    if b.len() == 0 {
        assert(a + b =~= a);
    } else {
        law_counts_add_up(a, b.drop_last(), piece);
        assert((a + b).drop_last() =~= a + b.drop_last());
        assert((a + b).last() == b.last());
    }
}

/// The pieces of a CPU list are what stands between its commas, margins taken
/// off the whole.
pub proof fn law_list_is_split_at_commas(
    list: Seq<char>,
    left: Seq<char>,
    a: Seq<char>,
    b: Seq<char>,
    right: Seq<char>,
)
    requires
        list == left + (a.push(',') + b) + right,
        forall|i: int| 0 <= i < left.len() ==> text::whitespace(#[trigger] left[i]),
        forall|i: int| 0 <= i < right.len() ==> text::whitespace(#[trigger] right[i]),
        !text::whitespace((a.push(',') + b)[0]),
        !text::whitespace((a.push(',') + b).last()),
    ensures
        topology::list_pieces(list) == text::fields(a, ',') + text::fields(b, ','),
{
    text_laws::law_trimming_takes_off_the_margins(left, a.push(',') + b, right);
    text_laws::law_fields_part_at_separator(a, b, ',');
}

/// A list without a comma is one piece.
pub proof fn law_list_of_one_piece(
    list: Seq<char>,
    left: Seq<char>,
    piece: Seq<char>,
    right: Seq<char>,
)
    requires
        list == left + piece + right,
        forall|i: int| 0 <= i < left.len() ==> text::whitespace(#[trigger] left[i]),
        forall|i: int| 0 <= i < right.len() ==> text::whitespace(#[trigger] right[i]),
        piece.len() > 0 ==> !text::whitespace(piece[0]) && !text::whitespace(piece.last()),
        !piece.contains(','),
    ensures
        topology::list_pieces(list) == seq![piece],
{
    text_laws::law_trimming_takes_off_the_margins(left, piece, right);
    text_laws::law_one_field(piece, ',');
}

/// A list can be counted exactly if none of its ranges runs backwards and its
/// count fits 32 bits.
pub proof fn law_what_can_be_counted(list: Seq<char>)
    ensures
        topology::is_countable(list) <==> {
            &&& forall|i: int|
                0 <= i < topology::list_pieces(list).len() ==> topology::is_forward(
                    #[trigger] topology::list_pieces(list)[i],
                )
            &&& topology::cpus_in_pieces(topology::list_pieces(list)) <= 0xffff_ffff
        },
{
}

/// The directories of CPUs are those named `cpu` and digits.
pub proof fn law_cpu_directories(name: Seq<char>, rest: Seq<char>)
    ensures
        topology::is_cpu_dir("cpu"@ + rest) <==> text_laws::are_digits(rest),
        topology::is_cpu_dir(name) ==> name == "cpu"@ + name.skip(3) && text_laws::are_digits(
            name.skip(3),
        ),
{
    reveal_strlit("cpu");
    let full = "cpu"@ + rest;
    assert(full.take(3) =~= "cpu"@);
    assert(full.skip(3) =~= rest);
    lemma_digits(rest);
    lemma_digits(name.skip(3));
    if topology::is_cpu_dir(name) {
        assert(name =~= name.take(3) + name.skip(3));
    }
}

proof fn lemma_digits(s: Seq<char>)
    ensures
        text::all_digits(s) <==> text_laws::are_digits(s),
{
    if text::all_digits(s) {
        assert forall|i: int| 0 <= i < s.len() implies '0' <= #[trigger] s[i] <= '9' by {
            assert(text::is_digit(s[i]));
        }
    }
    if text_laws::are_digits(s) {
        assert forall|i: int| 0 <= i < s.len() implies text::is_digit(#[trigger] s[i]) by {
            assert('0' <= s[i] <= '9');
        }
    }
}

/// The directories of CPUs are counted one by one.
pub proof fn law_cpu_directories_add_up(a: Seq<String>, b: Seq<String>, name: String)
    ensures
        topology::cpu_dirs(a + b) == topology::cpu_dirs(a) + topology::cpu_dirs(b),
        topology::cpu_dirs(seq![name]) == (if topology::is_cpu_dir(name@) {
            1int
        } else {
            0
        }),
    decreases b.len(),
{
    reveal_with_fuel(topology::cpu_dirs, 2);
    assert(seq![name].drop_last() =~= Seq::<String>::empty());
    if b.len() == 0 {
        assert(a + b =~= a);
    } else {
        law_cpu_directories_add_up(a, b.drop_last(), name);
        assert((a + b).drop_last() =~= a + b.drop_last());
        assert((a + b).last() == b.last());
    }
}

/// Without frequencies, the CPUs are counted by the list of those online; where
/// there is none, by the directories; where there are none, there is one CPU. No
/// count is below one.
pub proof fn law_fallback_counts_what_there_is(list: String, names: Vec<String>, sysfs: CpuSysfs)
    requires
        cpu_dirs_fit(names@),
    ensures
        sysfs.online == Some(list) ==> {
            let n = topology::cpus_in_pieces(topology::list_pieces(list@));
            topology::fallback_count(sysfs) == if n >= 1 {
                n
            } else {
                1
            }
        },
        sysfs.online is None && sysfs.entries == Some(names) ==> {
            let n = topology::cpu_dirs(names@);
            topology::fallback_count(sysfs) == if n >= 1 {
                n
            } else {
                1
            }
        },
        sysfs.online is None && sysfs.entries is None ==> topology::fallback_count(sysfs) == 1,
        topology::fallback_count(sysfs) >= 1,
{
    lemma_dirs_not_negative(names@);
}

/// Whether the directories among `names` are few enough for 32 bits.
pub open spec fn cpu_dirs_fit(names: Seq<String>) -> bool {
    topology::cpu_dirs(names) <= 0xffff_ffff
}

proof fn lemma_dirs_not_negative(names: Seq<String>)
    ensures
        topology::cpu_dirs(names) >= 0,
    decreases names.len(),
{
    if names.len() > 0 {
        lemma_dirs_not_negative(names.drop_last());
    }
}

/// A topology can be worked out exactly if there is room for a table up to the
/// highest CPU id, and, where there are no frequencies, a list of online CPUs can
/// be counted.
pub proof fn law_what_can_be_worked_out(sysfs: CpuSysfs)
    ensures
        sysfs.is_sound() <==> {
            &&& forall|cpu: u32| #[trigger]
                topology::freq_map(sysfs.policies@).contains_key(cpu) ==> cpu < usize::MAX
            &&& topology::freq_map(sysfs.policies@).dom().len() > 0 || sysfs.online is None
                || topology::is_countable(sysfs.online->0@)
        },
{
}

} // verus!
