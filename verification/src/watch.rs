//! The watch loop: when to wait, for what, and what to do about it.
//!
//! Two states, told apart by the tracked PPID:
//!
//! - no game tracked: wait for a typed game name, a wake from the scheduler
//!   side, or the periodic tick. A typed name starts a scan by that name; a
//!   tick or a wake starts a scan of the Steam environments.
//! - a game tracked: wait for a wake only. On a wake, either the game is
//!   already known to be gone, or a scan has to tell whether it still runs. The
//!   end of a game leads back to the first state silently.
//!
//! Whatever is to be told to anybody goes through [`WatchAction::Adopt`]; no
//! other action reports anything.
//!
//! [`Watcher`] decides; its caller performs each [`WatchAction`] and answers
//! with a [`WatchEvent`].

use crate::game_task_finder::{scan_by_game_name, steam_scan_proc, Match, ProcRecord};
use crate::text;
use vstd::prelude::*;

verus! {

/// Configuration for the watch loop.
#[derive(Debug, Clone, Copy)]
pub struct WatchConfig {
    /// Period of the recurring environment scan, in seconds. Only applies while
    /// no game is tracked. 0 disables the periodic tick.
    pub scan_interval_secs: i64,
}

impl Default for WatchConfig {
    fn default() -> (r: Self)
        ensures
            r.scan_interval_secs == 5,
    {
        WatchConfig { scan_interval_secs: 5 }
    }
}

/// What triggered a match.
#[derive(Debug)]
pub enum Trigger {
    /// A typed game name triggered a scan by comm.
    GameName(String),
    /// A tick or a wake triggered a scan of the Steam environments.
    Timer,
}

impl Clone for Trigger {
    fn clone(&self) -> (r: Self)
        ensures
            r == *self,
    {
        match self {
            Trigger::GameName(name) => Trigger::GameName(name.clone()),
            Trigger::Timer => Trigger::Timer,
        }
    }
}

/// Re-run the scan that originally found a game, to confirm it is still
/// running. A `GameName` trigger scans by that comm name again; a `Timer`
/// trigger scans the Steam environments again.
pub fn rescan(trigger: &Trigger, procs: &Vec<ProcRecord>) -> (r: Option<Match>)
    ensures
        match *trigger {
            Trigger::GameName(name) => crate::game_task_finder::first_match(
                procs@,
                |p: ProcRecord|
                    crate::game_task_finder::is_named(
                        p,
                        crate::game_task_finder::normalized(name@),
                    ),
                r,
            ),
            Trigger::Timer => crate::game_task_finder::first_match(
                procs@,
                |p: ProcRecord| crate::game_task_finder::is_steam_game(p),
                r,
            ),
        },
{
    match trigger {
        Trigger::GameName(name) => scan_by_game_name(name.as_str(), procs),
        Trigger::Timer => steam_scan_proc(procs),
    }
}

/// What reading a line from stdin gave.
#[derive(Debug)]
pub enum LineInput {
    Eof,
    Failed,
    Text(String),
}

/// The answer to an action.
#[derive(Debug)]
pub enum WatchEvent {
    /// The action was performed.
    Done,
    /// The shutdown flag and the tracked PPID.
    Status { shutdown: bool, game_ppid: i32 },
    /// Which of the awaited inputs are readable.
    Ready { stdin: bool, wake: bool, timer: bool },
    /// The shutdown flag, read after the action was performed.
    Flag { shutdown: bool },
    /// The outcome of a scan.
    Scanned { found: Option<Match> },
    /// The outcome of reading a line.
    Line { input: LineInput },
}

/// What the caller is to do next, and how it is to answer.
#[derive(Debug)]
pub enum WatchAction {
    /// Leave the loop. No answer.
    Stop,
    /// Read the shutdown flag and the tracked PPID. Answer: `Status`.
    CheckStatus,
    /// Wait for stdin, the wake channel or the timer. Answer: `Ready`.
    AwaitInput,
    /// Drain the wake channel. Answer: `Flag`.
    DrainWake,
    /// Drain the timer. Answer: `Flag`.
    DrainTimer,
    /// Read the shutdown flag. Answer: `Flag`.
    CheckShutdown,
    /// Scan the Steam environments. Answer: `Scanned`.
    SteamScan,
    /// Read a line from stdin. Answer: `Line`.
    ReadLine,
    /// Scan for a game by name. Answer: `Scanned`.
    NameScan { name: String },
    /// Report a match, then track it. Answer: `Done`.
    Adopt { trigger: Trigger, found: Match },
    /// Wait for the wake channel alone and drain it. Answer: `Status`.
    AwaitWake,
    /// Repeat the scan that found the tracked game. Answer: `Scanned`.
    Rescan { trigger: Trigger },
    /// Track this match; report nothing. Answer: `Done`.
    Retrack { found: Match },
    /// Stop tracking; report nothing. Answer: `Done`.
    StopTracking,
}

/// What the watcher is waiting to be answered.
#[derive(Debug)]
pub enum Phase {
    Looping,
    AwaitingInput,
    WakeDrained { stdin: bool, timer: bool },
    ScanGate { stdin: bool },
    SteamScanning { stdin: bool },
    SteamAdopted { stdin: bool },
    ReadingLine,
    NameScanning { name: String },
    AwaitingWake,
    Rescanning,
    Settled,
    Stopped,
}

/// Whether `event` answers the action that led to `phase`.
pub open spec fn answers(phase: Phase, event: WatchEvent) -> bool {
    match phase {
        Phase::Looping => event is Status,
        Phase::AwaitingInput => event is Ready,
        Phase::WakeDrained { .. } => event is Flag,
        Phase::ScanGate { .. } => event is Flag,
        Phase::SteamScanning { .. } => event is Scanned,
        Phase::SteamAdopted { .. } => event is Done,
        Phase::ReadingLine => event is Line,
        Phase::NameScanning { .. } => event is Scanned,
        Phase::AwaitingWake => event is Status,
        Phase::Rescanning => event is Scanned,
        Phase::Settled => event is Done,
        Phase::Stopped => false,
    }
}

/// The watch loop's state: what it waits for, and what triggered the most
/// recent match.
#[derive(Debug)]
pub struct Watcher {
    pub phase: Phase,
    pub last_trigger: Option<Trigger>,
}

/// Back to the top of the loop.
pub open spec fn loops(phase: Phase, action: WatchAction) -> bool {
    phase is Looping && action is CheckStatus
}

/// Out of the loop.
pub open spec fn stops(phase: Phase, action: WatchAction) -> bool {
    phase is Stopped && action is Stop
}

/// The end of an environment scan: a typed line comes next, if there is one.
pub open spec fn to_stdin(stdin: bool, phase: Phase, action: WatchAction) -> bool {
    if stdin {
        phase is ReadingLine && action is ReadLine
    } else {
        loops(phase, action)
    }
}

/// After the wake channel: the timer is drained if it ticked; a tick or a wake
/// leads on to an environment scan.
pub open spec fn to_scan(
    stdin: bool,
    wake: bool,
    timer: bool,
    phase: Phase,
    action: WatchAction,
) -> bool {
    if timer {
        phase == (Phase::ScanGate { stdin }) && action is DrainTimer
    } else if wake {
        phase == (Phase::ScanGate { stdin }) && action is CheckShutdown
    } else {
        to_stdin(stdin, phase, action)
    }
}

/// The loop's transitions: whether, in the phase `pre` and with `last` as the
/// most recent trigger, `event` leads to `post` and `action`. What becomes of
/// the most recent trigger is the subject of [`trigger_kept`].
pub open spec fn leads_to(
    pre: Phase,
    last: Option<Trigger>,
    event: WatchEvent,
    post: Phase,
    action: WatchAction,
) -> bool {
    match (pre, event) {
        (Phase::Looping, WatchEvent::Status { shutdown, game_ppid }) => {
            if shutdown {
                stops(post, action)
            } else if game_ppid == 0 {
                post is AwaitingInput && action is AwaitInput
            } else {
                post is AwaitingWake && action is AwaitWake
            }
        },
        (Phase::AwaitingInput, WatchEvent::Ready { stdin, wake, timer }) => {
            if wake {
                post == (Phase::WakeDrained { stdin, timer }) && action is DrainWake
            } else {
                to_scan(stdin, false, timer, post, action)
            }
        },
        (Phase::WakeDrained { stdin, timer }, WatchEvent::Flag { shutdown }) => {
            if shutdown {
                stops(post, action)
            } else {
                to_scan(stdin, true, timer, post, action)
            }
        },
        (Phase::ScanGate { stdin }, WatchEvent::Flag { shutdown }) => {
            if shutdown {
                to_stdin(stdin, post, action)
            } else {
                post == (Phase::SteamScanning { stdin }) && action is SteamScan
            }
        },
        (Phase::SteamScanning { stdin }, WatchEvent::Scanned { found }) => {
            match found {
                Some(m) => {
                    &&& post == (Phase::SteamAdopted { stdin })
                    &&& action == (WatchAction::Adopt { trigger: Trigger::Timer, found: m })
                },
                None => to_stdin(stdin, post, action),
            }
        },
        (Phase::SteamAdopted { stdin }, WatchEvent::Done) => to_stdin(stdin, post, action),
        (Phase::ReadingLine, WatchEvent::Line { input }) => {
            match input {
                LineInput::Text(line) => {
                    if text::trimmed(line@).len() == 0 {
                        loops(post, action)
                    } else {
                        &&& post matches Phase::NameScanning { name } && name@ == text::trimmed(line@)
                        &&& action matches WatchAction::NameScan { name } && name@ == text::trimmed(
                            line@,
                        )
                    }
                },
                _ => stops(post, action),
            }
        },
        (Phase::NameScanning { name }, WatchEvent::Scanned { found }) => {
            match found {
                Some(m) => {
                    &&& post is Settled
                    &&& action == (WatchAction::Adopt { trigger: Trigger::GameName(name), found: m })
                },
                None => loops(post, action),
            }
        },
        (Phase::AwaitingWake, WatchEvent::Status { shutdown, game_ppid }) => {
            if shutdown {
                stops(post, action)
            } else if game_ppid == 0 {
                loops(post, action)
            } else {
                match last {
                    Some(t) => post is Rescanning && action == (WatchAction::Rescan { trigger: t }),
                    None => loops(post, action),
                }
            }
        },
        (Phase::Rescanning, WatchEvent::Scanned { found }) => {
            match found {
                Some(m) => post is Settled && action == (WatchAction::Retrack { found: m }),
                None => post is Settled && action is StopTracking,
            }
        },
        (Phase::Settled, WatchEvent::Done) => loops(post, action),
        _ => false,
    }
}

/// The most recent trigger changes with a reported match, to the trigger of
/// that match, and not otherwise.
pub open spec fn trigger_kept(
    last: Option<Trigger>,
    action: WatchAction,
    new_last: Option<Trigger>,
) -> bool {
    match action {
        WatchAction::Adopt { trigger, .. } => new_last == Some(trigger),
        _ => new_last == last,
    }
}

/// One turn of the loop: `event` takes `pre` to `post` and asks for `action`.
pub open spec fn watch_step(
    pre: Watcher,
    event: WatchEvent,
    post: Watcher,
    action: WatchAction,
) -> bool {
    &&& leads_to(pre.phase, pre.last_trigger, event, post.phase, action)
    &&& trigger_kept(pre.last_trigger, action, post.last_trigger)
}

fn go_to_stdin(stdin: bool) -> (r: (Phase, WatchAction))
    ensures
        to_stdin(stdin, r.0, r.1),
{
    if stdin {
        (Phase::ReadingLine, WatchAction::ReadLine)
    } else {
        (Phase::Looping, WatchAction::CheckStatus)
    }
}

fn go_to_scan(stdin: bool, wake: bool, timer: bool) -> (r: (Phase, WatchAction))
    ensures
        to_scan(stdin, wake, timer, r.0, r.1),
{
    if timer {
        (Phase::ScanGate { stdin }, WatchAction::DrainTimer)
    } else if wake {
        (Phase::ScanGate { stdin }, WatchAction::CheckShutdown)
    } else {
        go_to_stdin(stdin)
    }
}

impl Watcher {
    /// The start of the loop: nothing matched yet, the first action to perform
    /// is `CheckStatus`.
    pub fn new() -> (r: Self)
        ensures
            r.phase is Looping,
            r.last_trigger is None,
    {
        Watcher { phase: Phase::Looping, last_trigger: None }
    }

    /// Whether `event` is an answer to the action asked for last.
    pub fn expects(&self, event: &WatchEvent) -> (r: bool)
        ensures
            r == answers(self.phase, *event),
    {
        match (&self.phase, event) {
            (Phase::Looping, WatchEvent::Status { .. }) => true,
            (Phase::AwaitingInput, WatchEvent::Ready { .. }) => true,
            (Phase::WakeDrained { .. }, WatchEvent::Flag { .. }) => true,
            (Phase::ScanGate { .. }, WatchEvent::Flag { .. }) => true,
            (Phase::SteamScanning { .. }, WatchEvent::Scanned { .. }) => true,
            (Phase::SteamAdopted { .. }, WatchEvent::Done) => true,
            (Phase::ReadingLine, WatchEvent::Line { .. }) => true,
            (Phase::NameScanning { .. }, WatchEvent::Scanned { .. }) => true,
            (Phase::AwaitingWake, WatchEvent::Status { .. }) => true,
            (Phase::Rescanning, WatchEvent::Scanned { .. }) => true,
            (Phase::Settled, WatchEvent::Done) => true,
            _ => false,
        }
    }

    /// Take the answer to the last action and decide on the next one.
    pub fn step(&mut self, event: WatchEvent) -> (action: WatchAction)
        requires
            answers(old(self).phase, event),
        ensures
            watch_step(*old(self), event, *final(self), action),
    {
        let mut before = Phase::Stopped;
        std::mem::swap(&mut before, &mut self.phase);
        let (phase, action) = match (before, event) {
            (Phase::Looping, WatchEvent::Status { shutdown, game_ppid }) => {
                if shutdown {
                    (Phase::Stopped, WatchAction::Stop)
                } else if game_ppid == 0 {
                    (Phase::AwaitingInput, WatchAction::AwaitInput)
                } else {
                    (Phase::AwaitingWake, WatchAction::AwaitWake)
                }
            },
            (Phase::AwaitingInput, WatchEvent::Ready { stdin, wake, timer }) => {
                if wake {
                    (Phase::WakeDrained { stdin, timer }, WatchAction::DrainWake)
                } else {
                    go_to_scan(stdin, false, timer)
                }
            },
            (Phase::WakeDrained { stdin, timer }, WatchEvent::Flag { shutdown }) => {
                if shutdown {
                    (Phase::Stopped, WatchAction::Stop)
                } else {
                    go_to_scan(stdin, true, timer)
                }
            },
            (Phase::ScanGate { stdin }, WatchEvent::Flag { shutdown }) => {
                if shutdown {
                    go_to_stdin(stdin)
                } else {
                    (Phase::SteamScanning { stdin }, WatchAction::SteamScan)
                }
            },
            (Phase::SteamScanning { stdin }, WatchEvent::Scanned { found }) => {
                match found {
                    Some(m) => {
                        self.last_trigger = Some(Trigger::Timer);
                        (
                            Phase::SteamAdopted { stdin },
                            WatchAction::Adopt { trigger: Trigger::Timer, found: m },
                        )
                    },
                    None => go_to_stdin(stdin),
                }
            },
            (Phase::SteamAdopted { stdin }, WatchEvent::Done) => go_to_stdin(stdin),
            (Phase::ReadingLine, WatchEvent::Line { input }) => {
                match input {
                    LineInput::Text(line) => {
                        let name = text::trim_text(line.as_str());
                        if name.as_str().is_empty() {
                            (Phase::Looping, WatchAction::CheckStatus)
                        } else {
                            (
                                Phase::NameScanning { name: name.clone() },
                                WatchAction::NameScan { name },
                            )
                        }
                    },
                    LineInput::Eof => (Phase::Stopped, WatchAction::Stop),
                    LineInput::Failed => (Phase::Stopped, WatchAction::Stop),
                }
            },
            (Phase::NameScanning { name }, WatchEvent::Scanned { found }) => {
                match found {
                    Some(m) => {
                        let trigger = Trigger::GameName(name);
                        self.last_trigger = Some(trigger.clone());
                        (Phase::Settled, WatchAction::Adopt { trigger, found: m })
                    },
                    None => (Phase::Looping, WatchAction::CheckStatus),
                }
            },
            (Phase::AwaitingWake, WatchEvent::Status { shutdown, game_ppid }) => {
                if shutdown {
                    (Phase::Stopped, WatchAction::Stop)
                } else if game_ppid == 0 {
                    (Phase::Looping, WatchAction::CheckStatus)
                } else {
                    match &self.last_trigger {
                        Some(t) => (Phase::Rescanning, WatchAction::Rescan { trigger: t.clone() }),
                        None => (Phase::Looping, WatchAction::CheckStatus),
                    }
                }
            },
            (Phase::Rescanning, WatchEvent::Scanned { found }) => {
                match found {
                    Some(m) => (Phase::Settled, WatchAction::Retrack { found: m }),
                    None => (Phase::Settled, WatchAction::StopTracking),
                }
            },
            _ => (Phase::Looping, WatchAction::CheckStatus),
        };
        self.phase = phase;
        action
    }
}

// ---------------------------------------------------------------------------
// What holds of the loop
// ---------------------------------------------------------------------------

/// A shutdown that is seen at the top of the loop, on a wake while scanning, or
/// on a wake while tracking ends the loop.
pub proof fn law_shutdown_stops(
    pre: Watcher,
    event: WatchEvent,
    post: Watcher,
    action: WatchAction,
)
    requires
        watch_step(pre, event, post, action),
        event == (WatchEvent::Flag { shutdown: true }) && pre.phase is WakeDrained || (event matches
            WatchEvent::Status { shutdown, .. } && shutdown),
    ensures
        action is Stop,
        post.phase is Stopped,
{
}

/// No environment scan starts once a shutdown has been seen.
pub proof fn law_no_scan_after_shutdown(
    pre: Watcher,
    event: WatchEvent,
    post: Watcher,
    action: WatchAction,
)
    requires
        watch_step(pre, event, post, action),
        event == (WatchEvent::Flag { shutdown: true }),
    ensures
        !(action is SteamScan),
{
}

/// While a game is tracked only the wake channel is waited for: neither stdin
/// nor the timer.
pub proof fn law_tracking_waits_for_wakes_only(
    pre: Watcher,
    game_ppid: i32,
    post: Watcher,
    action: WatchAction,
)
    requires
        pre.phase is Looping,
        game_ppid != 0,
        watch_step(pre, (WatchEvent::Status { shutdown: false, game_ppid }), post, action),
    ensures
        action is AwaitWake,
{
}

/// Input is waited for only while no game is tracked.
pub proof fn law_input_awaited_only_untracked(
    pre: Watcher,
    event: WatchEvent,
    post: Watcher,
    action: WatchAction,
)
    requires
        watch_step(pre, event, post, action),
        action is AwaitInput,
    ensures
        event == (WatchEvent::Status { shutdown: false, game_ppid: 0 }),
{
}

/// The tracking of a game is stopped only if a repeated scan found nothing.
pub proof fn law_end_is_confirmed(
    pre: Watcher,
    event: WatchEvent,
    post: Watcher,
    action: WatchAction,
)
    requires
        watch_step(pre, event, post, action),
        action is StopTracking,
    ensures
        pre.phase is Rescanning,
        event == (WatchEvent::Scanned { found: None }),
{
}

/// The end of a game leads back to the scan state silently. Where the tracking is
/// found cleared on a wake, the loop goes back to its top at once; where a
/// repeated scan finds nothing, tracking is stopped on the way there.
pub proof fn law_end_is_silent(
    pre: Watcher,
    event: WatchEvent,
    post: Watcher,
    action: WatchAction,
)
    requires
        watch_step(pre, event, post, action),
        pre.phase is AwaitingWake && event == (WatchEvent::Status {
            shutdown: false,
            game_ppid: 0,
        }) || pre.phase is Rescanning && event == (WatchEvent::Scanned { found: None }),
    ensures
        pre.phase is AwaitingWake ==> loops(post.phase, action),
        pre.phase is Rescanning ==> action is StopTracking && forall|
            next: Watcher,
            next_action: WatchAction,
        | #[trigger]
            watch_step(post, WatchEvent::Done, next, next_action) ==> loops(
                next.phase,
                next_action,
            ),
{
}

/// A repeated scan that still finds the game tracks it again and reports
/// nothing.
pub proof fn law_transient_drop_is_quiet(
    pre: Watcher,
    found: Match,
    post: Watcher,
    action: WatchAction,
)
    requires
        pre.phase is Rescanning,
        watch_step(pre, (WatchEvent::Scanned { found: Some(found) }), post, action),
    ensures
        action == (WatchAction::Retrack { found }),
        post.last_trigger == pre.last_trigger,
{
}

/// What is reported, or tracked again, is what the scan just found.
pub proof fn law_reports_what_was_scanned(
    pre: Watcher,
    event: WatchEvent,
    post: Watcher,
    action: WatchAction,
)
    requires
        watch_step(pre, event, post, action),
    ensures
        action matches WatchAction::Adopt { found, .. } ==> event == (WatchEvent::Scanned {
            found: Some(found),
        }),
        action matches WatchAction::Retrack { found } ==> event == (WatchEvent::Scanned {
            found: Some(found),
        }),
{
}

/// Every answer that fits the current phase has exactly one outcome.
pub proof fn law_one_outcome(
    pre: Watcher,
    event: WatchEvent,
    post1: Watcher,
    action1: WatchAction,
    post2: Watcher,
    action2: WatchAction,
)
    requires
        watch_step(pre, event, post1, action1),
        watch_step(pre, event, post2, action2),
    ensures
        answers(pre.phase, event),
        action1 matches WatchAction::NameScan { name: n1 } ==> (action2 matches WatchAction::NameScan {
            name: n2,
        } && n1@ == n2@),
        !(action1 is NameScan) ==> action1 == action2 && post1 == post2,
{
}

/// One turn of a run of the loop.
pub struct Turn {
    pub pre: Watcher,
    pub event: WatchEvent,
    pub post: Watcher,
    pub action: WatchAction,
}

/// Whether `turns` is a run of the loop from its start.
pub open spec fn is_run(turns: Seq<Turn>) -> bool {
    &&& turns.len() > 0 ==> turns[0].pre.last_trigger is None
    &&& forall|i: int|
        0 <= i < turns.len() ==> {
            let t = #[trigger] turns[i];
            watch_step(t.pre, t.event, t.post, t.action)
        }
    &&& forall|i: int, j: int|
        0 <= i && j == i + 1 && j < turns.len() ==> (#[trigger] turns[i]).post == (
        #[trigger] turns[j]).pre
}

/// The trigger of the last match that was reported in `turns`.
pub open spec fn latest_report(turns: Seq<Turn>) -> Option<Trigger>
    decreases turns.len(),
{
    if turns.len() == 0 {
        None
    } else {
        match turns.last().action {
            WatchAction::Adopt { trigger, .. } => Some(trigger),
            _ => latest_report(turns.drop_last()),
        }
    }
}

#[verifier::spinoff_prover]
proof fn lemma_last_trigger_is_latest_report(turns: Seq<Turn>)
    requires
        is_run(turns),
        turns.len() > 0,
    ensures
        turns.last().post.last_trigger == latest_report(turns),
    decreases turns.len(),
{
    let t = turns.last();
    assert(turns[turns.len() - 1] == t);
    assert(watch_step(t.pre, t.event, t.post, t.action));
    assert(trigger_kept(t.pre.last_trigger, t.action, t.post.last_trigger));
    if turns.len() > 1 {
        let front = turns.drop_last();
        assert forall|i: int| 0 <= i < front.len() implies front[i] == turns[i] by {}
        assert(is_run(front)) by {
            assert forall|i: int| 0 <= i < front.len() implies {
                let u = #[trigger] front[i];
                watch_step(u.pre, u.event, u.post, u.action)
            } by {
                assert(front[i] == turns[i]);
            }
            assert forall|i: int, j: int| 0 <= i && j == i + 1 && j < front.len() implies (
            #[trigger] front[i]).post == (#[trigger] front[j]).pre by {
                assert(front[i] == turns[i] && front[j] == turns[j]);
            }
        }
        lemma_last_trigger_is_latest_report(front);
        assert(front.last() == turns[turns.len() - 2]);
        assert(turns[turns.len() - 2].post == turns[turns.len() - 1].pre);
        assert(t.pre.last_trigger == latest_report(front));
    } else {
        assert(turns[0] == t);
        assert(t.pre.last_trigger is None);
        assert(turns.drop_last().len() == 0);
        assert(latest_report(turns.drop_last()) is None);
    }
}

/// In every run, a repeated scan uses the lookup that found the game last
/// reported.
pub proof fn law_rescan_repeats_the_lookup(turns: Seq<Turn>)
    requires
        is_run(turns),
        turns.len() > 0,
    ensures
        turns.last().action matches WatchAction::Rescan { trigger } ==> latest_report(
            turns.drop_last(),
        ) == Some(trigger),
{
    let t = turns.last();
    assert(turns[turns.len() - 1] == t);
    assert(watch_step(t.pre, t.event, t.post, t.action));
    assert(trigger_kept(t.pre.last_trigger, t.action, t.post.last_trigger));
    lemma_last_trigger_is_latest_report(turns);
}

} // verus!
