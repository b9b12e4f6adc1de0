//! What holds of descriptor sets, control files and scan results.

use crate::control;
use crate::fd_set;
use crate::fd_set::FdSet;
use crate::game_task_finder;
use crate::game_task_finder::{Match, ProcEntry};
use crate::stats_map::StatsMap;
use crate::text;
use crate::tracker::GameTracker;
use vstd::prelude::*;

verus! {

// ---------------------------------------------------------------------------
// Descriptor sets
// ---------------------------------------------------------------------------

/// A bit of a word is set exactly if shifting it to the bottom leaves an odd number.
pub proof fn law_bits_of_a_word(word: u64, i: u64)
    requires
        i < 64,
    ensures
        fd_set::bit(word, i) <==> (word >> i) % 2 == 1,
{
    assert(i < 64 ==> (word & (1u64 << i) != 0 <==> (word >> i) % 2 == 1)) by (bit_vector);
}

/// A descriptor is in a set exactly if it is one of the 1024 that fit, and its bit
/// is set: 64 descriptors a word, lowest first.
pub proof fn law_set_layout(s: FdSet, word: int, i: u64, fd: int)
    requires
        i < 64,
    ensures
        0 <= word < 16 ==> (s@.contains(64 * word + i) <==> (s.bits@[word] >> i) % 2 == 1),
        fd < 0 || fd >= 1024 ==> !s@.contains(fd),
{
    if 0 <= word < 16 {
        law_bits_of_a_word(s.bits@[word], i);
        assert((64 * word + i) / 64 == word);
        assert((64 * word + i) % 64 == i);
    }
}

/// The scan state waits for stdin, for the wake descriptor and, if one is armed, for
/// the timer; for nothing else.
pub proof fn law_what_a_scan_waits_for(stdin_fd: i32, wake_fd: i32, timer_fd: i32, fd: int)
    ensures
        fd_set::scan_set(stdin_fd, wake_fd, timer_fd).contains(fd) <==> {
            ||| fd == stdin_fd
            ||| fd == wake_fd
            ||| timer_fd >= 0 && fd == timer_fd
        },
{
}

/// The larger of two numbers is one of them, and not less than either.
pub proof fn law_larger(a: int, b: int)
    ensures
        fd_set::larger(a, b) >= a,
        fd_set::larger(a, b) >= b,
        fd_set::larger(a, b) == a || fd_set::larger(a, b) == b,
{
}

/// There are 1024 descriptors that a set can hold.
pub proof fn law_set_size()
    ensures
        fd_set::FD_SETSIZE == 1024,
{
}

// ---------------------------------------------------------------------------
// Control files
// ---------------------------------------------------------------------------

/// A control file names a target exactly if, without the whitespace around it, it is
/// a number that is not negative; that number is the target.
pub proof fn law_what_names_a_target(content: Seq<char>, ppid: i32)
    ensures
        control::target_in(content) == Some(ppid) <==> ppid >= 0 && text::as_i32(
            text::trimmed(content),
        ) == Some(ppid),
        control::target_in(content) is Some ==> control::target_in(content)->0 >= 0,
{
}

/// What a named target does: a new one is tracked from now on, with none of its
/// processes counted; 0 ends the tracking and leaves the count; the one that is
/// tracked already changes nothing.
pub proof fn law_what_a_target_does(t: GameTracker, content: Seq<char>, ppid: i32)
    requires
        control::target_in(content) == Some(ppid),
    ensures
        ppid != t.game_ppid && ppid != 0 ==> {
            let after = control::retargeted(t, content);
            after.game_ppid == ppid && after.alive_count == 0
        },
        ppid == 0 ==> {
            let after = control::retargeted(t, content);
            after.game_ppid == 0 && after.alive_count == t.alive_count
        },
        ppid == t.game_ppid ==> control::retargeted(t, content) == t,
{
}

// ---------------------------------------------------------------------------
// Views
// ---------------------------------------------------------------------------

/// What a process, and a match, stand for.
pub proof fn law_views_of_a_match(e: ProcEntry, m: Match)
    ensures
        e@.0 == e.pid,
        e@.1 == e.comm@,
        m@.0 == m.ppid,
        m@.1.len() == m.procs@.len(),
        forall|i: int|
            0 <= i < m.procs@.len() ==> (#[trigger] m@.1[i]).0 == m.procs@[i].pid && m@.1[i].1
                == m.procs@[i].comm@,
        game_task_finder::entry_views(m.procs@) == m@.1,
{
}

/// Statistics stand for the map of all tasks.
pub proof fn law_view_of_the_statistics<S>(stats: StatsMap<S>)
    ensures
        stats@ == stats.tasks@,
{
}

} // verus!
