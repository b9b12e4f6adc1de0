//! The control file through which another program names the process family to
//! track: a single integer, the family's PPID, or 0 for none.

use crate::text;
use crate::tracker::GameTracker;
use vstd::prelude::*;

verus! {

/// The target that a control file names: a non-negative number, with or without
/// whitespace around it. Anything else names none.
pub open spec fn target_in(content: Seq<char>) -> Option<i32> {
    match text::as_i32(text::trimmed(content)) {
        Some(ppid) => if ppid >= 0 {
            Some(ppid)
        } else {
            None
        },
        None => None,
    }
}

/// Reads the target from the contents of a control file.
pub fn parse_target(content: &str) -> (r: Option<i32>)
    ensures
        r == target_in(content@),
{
    match text::parse_i32(&text::trim(&text::chars_of(content))) {
        Some(ppid) => if ppid >= 0 {
            Some(ppid)
        } else {
            None
        },
        None => None,
    }
}

/// The tracker after a control file has been read: a well-formed target replaces
/// the current one, 0 clears it, and anything else (empty, garbage, a torn
/// write, a negative number) is ignored. A target that is already tracked stays
/// as it is; of a new one, no processes are counted yet.
pub open spec fn retargeted(t: GameTracker, content: Seq<char>) -> GameTracker {
    match target_in(content) {
        Some(ppid) => if ppid == t.game_ppid {
            t
        } else if ppid == 0 {
            GameTracker { game_ppid: 0, alive_count: t.alive_count }
        } else {
            GameTracker { game_ppid: ppid, alive_count: 0 }
        },
        None => t,
    }
}

/// Acts on the contents of a control file.
pub fn retarget(tracker: &mut GameTracker, content: &str)
    ensures
        *final(tracker) == retargeted(*old(tracker), content@),
{
    if let Some(ppid) = parse_target(content) {
        if ppid != tracker.game_ppid {
            if ppid == 0 {
                tracker.clear();
            } else {
                tracker.track(ppid, 0);
            }
        }
    }
}

/// A file that names no target does no harm: the current target is kept.
pub proof fn law_bad_control_is_ignored(t: GameTracker, content: Seq<char>)
    requires
        target_in(content) is None,
    ensures
        retargeted(t, content) == t,
{
}

/// A published target is the one that is read, whether or not a newline follows
/// it.
pub proof fn law_published_target_is_read(t: GameTracker, ppid: i32)
    requires
        ppid >= 0,
    ensures
        retargeted(t, text::decimal(ppid as nat)).game_ppid == ppid,
        retargeted(t, text::decimal(ppid as nat).push('\n')).game_ppid == ppid,
{
    let digits = text::decimal(ppid as nat);
    text::law_decimal_round_trip(ppid as nat);
    assert(text::is_digit(digits[0]));
    assert(text::is_digit(digits[digits.len() - 1]));
    assert(text::trimmed(digits) == digits);
    let line = digits.push('\n');
    assert(line[0] == digits[0]);
    assert(line.drop_last() == digits);
    assert(text::trim_start(line) == line);
    assert(text::trim_end(line) == text::trim_end(digits));
}

/// What a control file says holds, however often it is read.
pub proof fn law_rereading_changes_nothing(t: GameTracker, content: Seq<char>)
    ensures
        retargeted(retargeted(t, content), content) == retargeted(t, content),
{
}

} // verus!
