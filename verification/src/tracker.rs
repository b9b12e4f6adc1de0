//! The game that is being tracked.

use crate::game_task_finder::Match;
use vstd::prelude::*;

verus! {

/// State shared between the scan side, which detects games, and the scheduler
/// side, which sees processes exit.
#[derive(Debug, Clone, Copy, PartialEq, Eq, Structural)]
pub struct GameTracker {
    /// Common parent PID of the tracked game's process family; 0 means no game
    /// is tracked.
    pub game_ppid: i32,
    /// Number of the tracked game's processes still alive, counted down from
    /// the number found when the game was detected.
    pub alive_count: i32,
}

/// `n - 1`, wrapping around at the lowest `i32`.
pub open spec fn one_less(n: i32) -> i32 {
    if n == i32::MIN {
        i32::MAX
    } else {
        (n - 1) as i32
    }
}

/// The tracker after a process whose family is `dead_ppid` has exited, and
/// whether the scan side is to be woken.
pub open spec fn exit_noted(t: GameTracker, dead_ppid: i32) -> (GameTracker, bool) {
    if t.game_ppid == 0 || dead_ppid != t.game_ppid {
        (t, false)
    } else {
        (
            GameTracker { game_ppid: t.game_ppid, alive_count: one_less(t.alive_count) },
            t.alive_count == 1,
        )
    }
}

impl GameTracker {
    /// No game tracked.
    pub fn new() -> (r: Self)
        ensures
            r == (GameTracker { game_ppid: 0, alive_count: 0 }),
    {
        GameTracker { game_ppid: 0, alive_count: 0 }
    }

    /// True while a game is being tracked.
    pub fn is_tracking(&self) -> (r: bool)
        ensures
            r == (self.game_ppid != 0),
    {
        self.game_ppid != 0
    }

    /// A process of the family `dead_ppid` exited: if that is the tracked
    /// family, decrement the alive count. Returns whether the count hit zero,
    /// in which case the scan side is to be woken.
    ///
    /// Hitting zero does not end the tracking: the alive count is a snapshot
    /// taken when the game was detected, so a game that sheds a few threads can
    /// drive it to zero while it is still running. Once woken, the scan side
    /// scans again and only then decides.
    pub fn note_process_exit(&mut self, dead_ppid: i32) -> (wake: bool)
        ensures
            (*final(self), wake) == exit_noted(*old(self), dead_ppid),
    {
        if self.game_ppid == 0 || dead_ppid != self.game_ppid {
            return false;
        }
        let before = self.alive_count;
        self.alive_count = before.wrapping_sub(1);
        before == 1
    }

    /// Forget the tracked game, so that the scan side scans afresh.
    pub fn clear(&mut self)
        ensures
            *final(self) == (GameTracker { game_ppid: 0, alive_count: old(self).alive_count }),
    {
        self.game_ppid = 0;
    }

    /// Record a freshly detected game.
    pub fn track(&mut self, ppid: i32, proc_count: i32)
        ensures
            *final(self) == (GameTracker { game_ppid: ppid, alive_count: proc_count }),
    {
        self.alive_count = proc_count;
        self.game_ppid = ppid;
    }

    /// Record the game that a scan found: its family's parent, and how many
    /// processes the family has.
    pub fn track_match(&mut self, found: &Match)
        ensures
            final(self).game_ppid == found.ppid,
            final(self).alive_count == found.procs@.len() as i32,
    {
        self.track(found.ppid, found.procs.len() as i32);
    }
}

impl Default for GameTracker {
    fn default() -> (r: Self)
        ensures
            r == (GameTracker { game_ppid: 0, alive_count: 0 }),
    {
        Self::new()
    }
}

/// The tracker after `n` processes of the tracked family have exited.
pub open spec fn after_exits(t: GameTracker, n: nat) -> GameTracker
    decreases n,
{
    if n == 0 {
        t
    } else {
        let before = after_exits(t, (n - 1) as nat);
        exit_noted(before, before.game_ppid).0
    }
}

/// A game tracked with `count` live processes: after `n` of them have exited,
/// `count - n` are left, the game is still tracked, and the next exit wakes the
/// scan side exactly if it is that of the last one.
pub proof fn law_last_exit_wakes(t: GameTracker, n: nat)
    requires
        t.game_ppid != 0,
        n < t.alive_count,
    ensures
        after_exits(t, n).game_ppid == t.game_ppid,
        after_exits(t, n).alive_count == t.alive_count - n,
        exit_noted(after_exits(t, n), t.game_ppid).1 <==> n + 1 == t.alive_count,
    decreases n,
{
    if n > 0 {
        law_last_exit_wakes(t, (n - 1) as nat);
    }
}

/// An exit never changes which game is tracked; the exit of a process outside
/// the tracked family, or while no game is tracked, changes nothing and wakes
/// nobody.
pub proof fn law_exit_keeps_the_game(t: GameTracker, dead_ppid: i32)
    ensures
        exit_noted(t, dead_ppid).0.game_ppid == t.game_ppid,
        t.game_ppid == 0 || dead_ppid != t.game_ppid ==> exit_noted(t, dead_ppid) == (t, false),
{
}

} // verus!
