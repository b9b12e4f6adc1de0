//! When the watch loop does what: for each action, the answers that lead to it.

use crate::game_task_finder::Match;
use crate::text;
use crate::watch;
use crate::watch::{LineInput, Phase, Trigger, WatchAction, WatchEvent, Watcher};
use vstd::prelude::*;

verus! {

/// The loop stops only for a shutdown that it has seen, at the top of the loop,
/// after draining the wake channel or on a wake while tracking, or because stdin
/// has ended or failed; and for each of these it does stop.
pub proof fn law_what_stops_the_loop(
    pre: Watcher,
    event: WatchEvent,
    post: Watcher,
    action: WatchAction,
)
    requires
        watch::watch_step(pre, event, post, action),
    ensures
        action is Stop <==> {
            ||| event matches WatchEvent::Status { shutdown, .. } && shutdown
            ||| event matches WatchEvent::Flag { shutdown } && shutdown && pre.phase is WakeDrained
            ||| event matches WatchEvent::Line { input } && (input is Eof || input is Failed)
        },
        post.phase is Stopped <==> action is Stop,
{
}

/// No outcome of a scan stops the loop. A scan that finds nothing while no game
/// is tracked leads back to the top of the loop, or on to a line that waits to be
/// read.
pub proof fn law_scans_never_stop_the_loop(
    pre: Watcher,
    found: Option<Match>,
    post: Watcher,
    action: WatchAction,
)
    requires
        watch::watch_step(pre, (WatchEvent::Scanned { found }), post, action),
    ensures
        !(action is Stop),
        !(post.phase is Stopped),
        found is None && pre.phase is NameScanning ==> action is CheckStatus && post.phase is Looping,
        found is None && pre.phase == (Phase::SteamScanning { stdin: false }) ==> action
            is CheckStatus && post.phase is Looping,
        found is None && pre.phase == (Phase::SteamScanning { stdin: true }) ==> action is ReadLine
            && post.phase is ReadingLine,
{
}

/// At the top of the loop: without a shutdown, input is awaited exactly while no
/// game is tracked, and a wake exactly while one is.
pub proof fn law_what_is_awaited(
    pre: Watcher,
    event: WatchEvent,
    post: Watcher,
    action: WatchAction,
)
    requires
        watch::watch_step(pre, event, post, action),
    ensures
        action is AwaitInput <==> pre.phase is Looping && event == (WatchEvent::Status {
            shutdown: false,
            game_ppid: 0,
        }),
        action is AwaitWake <==> pre.phase is Looping && (event matches WatchEvent::Status {
            shutdown,
            game_ppid,
        } && !shutdown && game_ppid != 0),
{
}

/// What is readable is drained, the wake channel first; either of wake and tick
/// then leads to an environment scan, unless a shutdown has been seen.
pub proof fn law_what_leads_to_a_steam_scan(
    pre: Watcher,
    event: WatchEvent,
    post: Watcher,
    action: WatchAction,
)
    requires
        watch::watch_step(pre, event, post, action),
    ensures
        action is DrainWake <==> (event matches WatchEvent::Ready { wake, .. } && wake),
        action is DrainTimer <==> {
            ||| event matches WatchEvent::Ready { wake, timer, .. } && !wake && timer
            ||| event == (WatchEvent::Flag { shutdown: false }) && (pre.phase matches
                Phase::WakeDrained { timer, .. } && timer)
        },
        action is CheckShutdown <==> event == (WatchEvent::Flag { shutdown: false }) && (
        pre.phase matches Phase::WakeDrained { timer, .. } && !timer),
        action is SteamScan <==> event == (WatchEvent::Flag { shutdown: false })
            && pre.phase is ScanGate,
{
}

/// Whether a line on stdin waits to be read once the turn that `event` belongs to
/// has come to an end.
pub open spec fn line_waits(phase: Phase, event: WatchEvent) -> bool {
    ||| phase is AwaitingInput && (event matches WatchEvent::Ready { stdin, .. } && stdin)
    ||| phase matches Phase::WakeDrained { stdin, .. } && stdin
    ||| phase == (Phase::ScanGate { stdin: true })
    ||| phase == (Phase::SteamScanning { stdin: true })
    ||| phase == (Phase::SteamAdopted { stdin: true })
}

/// A waiting line is read as soon as there is nothing more to drain or to scan,
/// and it is not forgotten before.
pub proof fn law_a_waiting_line_is_read(
    pre: Watcher,
    event: WatchEvent,
    post: Watcher,
    action: WatchAction,
)
    requires
        watch::watch_step(pre, event, post, action),
    ensures
        action is ReadLine <==> line_waits(pre.phase, event) && {
            ||| event matches WatchEvent::Ready { wake, timer, .. } && !wake && !timer
            ||| event == (WatchEvent::Flag { shutdown: true }) && pre.phase is ScanGate
            ||| event == (WatchEvent::Scanned { found: None })
            ||| event is Done
        },
        line_waits(pre.phase, event) ==> {
            ||| action is ReadLine && post.phase is ReadingLine
            ||| action is Stop
            ||| line_waits(post.phase, WatchEvent::Done)
        },
        line_waits(post.phase, WatchEvent::Done) ==> line_waits(pre.phase, event),
{
}

/// A typed line leads to a scan for the name on it, margins taken off; a blank
/// one back to the top of the loop.
pub proof fn law_what_is_scanned_by_name(
    pre: Watcher,
    event: WatchEvent,
    post: Watcher,
    action: WatchAction,
)
    requires
        watch::watch_step(pre, event, post, action),
    ensures
        action is NameScan <==> (event matches WatchEvent::Line { input: LineInput::Text(line) }
            && text::trimmed(line@).len() > 0),
        event matches WatchEvent::Line { input: LineInput::Text(line) } ==> {
            &&& action matches WatchAction::NameScan { name } ==> name@ == text::trimmed(line@)
            &&& action is NameScan ==> (post.phase matches Phase::NameScanning { name } && name@
                == text::trimmed(line@))
            &&& text::trimmed(line@).len() == 0 ==> action is CheckStatus
        },
{
}

/// A game is reported and tracked exactly when a scan outside the tracking state
/// has found it, as what that scan was for.
pub proof fn law_what_is_adopted(
    pre: Watcher,
    event: WatchEvent,
    post: Watcher,
    action: WatchAction,
    trigger: Trigger,
    found: Match,
)
    requires
        watch::watch_step(pre, event, post, action),
    ensures
        action == (WatchAction::Adopt { trigger, found }) <==> event == (WatchEvent::Scanned {
            found: Some(found),
        }) && {
            ||| trigger is Timer && pre.phase is SteamScanning
            ||| trigger matches Trigger::GameName(name) && pre.phase == (Phase::NameScanning {
                name,
            })
        },
        action == (WatchAction::Adopt { trigger, found }) ==> post.last_trigger == Some(trigger),
        !(action is Adopt) ==> post.last_trigger == pre.last_trigger,
{
}

/// On a wake while a game is tracked, the lookup that found it is repeated; what
/// it finds is tracked again, and if it finds nothing, tracking ends.
pub proof fn law_what_a_wake_leads_to(
    pre: Watcher,
    event: WatchEvent,
    post: Watcher,
    action: WatchAction,
    trigger: Trigger,
    found: Match,
)
    requires
        watch::watch_step(pre, event, post, action),
    ensures
        action == (WatchAction::Rescan { trigger }) <==> pre.phase is AwaitingWake
            && pre.last_trigger == Some(trigger) && (event matches WatchEvent::Status {
            shutdown,
            game_ppid,
        } && !shutdown && game_ppid != 0),
        action == (WatchAction::Retrack { found }) <==> pre.phase is Rescanning && event == (
        WatchEvent::Scanned { found: Some(found) }),
        action is StopTracking <==> pre.phase is Rescanning && event == (WatchEvent::Scanned {
            found: None,
        }),
        pre.phase is AwaitingWake && event == (WatchEvent::Status { shutdown: false, game_ppid: 0 })
            ==> action is CheckStatus,
{
}

/// Everything that is done, and everything that there is nothing to do about,
/// leads back to the top of the loop.
pub proof fn law_what_leads_back_to_the_top(
    pre: Watcher,
    event: WatchEvent,
    post: Watcher,
    action: WatchAction,
)
    requires
        watch::watch_step(pre, event, post, action),
    ensures
        action is CheckStatus <==> {
            ||| event is Done && !line_waits(pre.phase, event)
            ||| event == (WatchEvent::Ready { stdin: false, wake: false, timer: false })
            ||| event == (WatchEvent::Flag { shutdown: true }) && pre.phase == (Phase::ScanGate {
                stdin: false,
            })
            ||| event == (WatchEvent::Scanned { found: None }) && pre.phase
                == (Phase::SteamScanning { stdin: false })
            ||| event == (WatchEvent::Scanned { found: None }) && pre.phase is NameScanning
            ||| event matches WatchEvent::Line { input: LineInput::Text(line) } && text::trimmed(
                line@,
            ).len() == 0
            ||| pre.phase is AwaitingWake && (event matches WatchEvent::Status {
                shutdown,
                game_ppid,
            } && !shutdown && (game_ppid == 0 || pre.last_trigger is None))
        },
        action is CheckStatus <==> post.phase is Looping,
{
}

/// What the loop waits to hear next is the answer to what it has just asked for.
pub proof fn law_phase_follows_action(
    pre: Watcher,
    event: WatchEvent,
    post: Watcher,
    action: WatchAction,
)
    requires
        watch::watch_step(pre, event, post, action),
    ensures
        action is AwaitInput <==> post.phase is AwaitingInput,
        action is DrainWake <==> post.phase is WakeDrained,
        action is DrainTimer || action is CheckShutdown <==> post.phase is ScanGate,
        action is SteamScan <==> post.phase is SteamScanning,
        action is ReadLine <==> post.phase is ReadingLine,
        action is NameScan <==> post.phase is NameScanning,
        (action matches WatchAction::Adopt { trigger, .. } && trigger is Timer)
            <==> post.phase is SteamAdopted,
        action is AwaitWake <==> post.phase is AwaitingWake,
        action is Rescan <==> post.phase is Rescanning,
        action is Retrack || action is StopTracking || (action matches WatchAction::Adopt {
            trigger,
            ..
        } && trigger is GameName) <==> post.phase is Settled,
        post.phase matches Phase::WakeDrained { timer, .. } ==> (event matches WatchEvent::Ready {
            timer: t,
            ..
        } && t == timer),
{
}

/// The answers that the loop expects: one kind for each thing it waits for, and
/// none once it has stopped.
pub proof fn law_expected_answers(phase: Phase, event: WatchEvent)
    ensures
        watch::answers(phase, event) <==> {
            ||| event is Status && (phase is Looping || phase is AwaitingWake)
            ||| event is Ready && phase is AwaitingInput
            ||| event is Flag && (phase is WakeDrained || phase is ScanGate)
            ||| event is Scanned && (phase is SteamScanning || phase is NameScanning
                || phase is Rescanning)
            ||| event is Line && phase is ReadingLine
            ||| event is Done && (phase is SteamAdopted || phase is Settled)
        },
{
}

} // verus!
