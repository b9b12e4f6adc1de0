//! What the main loop does, and when.
//!
//! Each turn of the loop looks at the clock and at the reasons to stop, runs a
//! cycle if one is due, with the flow of task events paused, and then takes in
//! events for a while. [`Runner`] decides; its caller performs each
//! [`RunAction`] and answers with a [`RunEvent`].

use crate::text;
use vstd::prelude::*;

verus! {

/// Operating mode.
#[derive(Debug, Clone, Copy, PartialEq, Eq, Structural)]
pub enum Mode {
    /// Gather task data into a table.
    Collect,
    /// Apply a trained model.
    Classify,
}

/// The mode with this name.
pub open spec fn mode_named(name: Seq<char>) -> Option<Mode> {
    if name == "collect"@ {
        Some(Mode::Collect)
    } else if name == "classify"@ {
        Some(Mode::Classify)
    } else {
        None
    }
}

/// Reads a mode; None if there is no mode of this name.
pub fn parse_mode(name: &str) -> (r: Option<Mode>)
    ensures
        r == mode_named(name@),
{
    if text::same_text(name, "collect") {
        Some(Mode::Collect)
    } else if text::same_text(name, "classify") {
        Some(Mode::Classify)
    } else {
        None
    }
}

/// What is refused at startup: collecting into a file that exists, so that a run
/// never destroys prior data.
pub fn would_overwrite(mode: Mode, output_exists: bool) -> (r: bool)
    ensures
        r == (mode is Collect && output_exists),
{
    mode == Mode::Collect && output_exists
}

/// Nanoseconds in a second.
pub const NS_PER_SEC: u128 = 1_000_000_000;

/// Whether the main loop goes on: until it is told to shut down, the kernel side
/// has exited, or, when collecting with a limit on the run time (`max_runtime`
/// seconds; 0 is no limit), the limit is reached.
pub open spec fn goes_on(cfg: RunConfig, shutdown: bool, exited: bool, elapsed_ns: u128) -> bool {
    !shutdown && !exited && !(cfg.mode is Collect && cfg.max_runtime > 0 && elapsed_ns
        >= cfg.max_runtime * NS_PER_SEC)
}

/// What the cycle that falls due is to do: `collect_duration` seconds after the
/// last one, a classify cycle, or a checkpoint of the table where one is asked
/// for. None if no cycle is due yet.
pub open spec fn work_due(cfg: RunConfig, since_last_ns: u128) -> Option<Work> {
    if since_last_ns < cfg.collect_duration * NS_PER_SEC {
        None
    } else {
        match cfg.mode {
            Mode::Classify => Some(Work::Classify),
            Mode::Collect => Some(
                if cfg.csv_checkpoint {
                    Work::WriteTable
                } else {
                    Work::Nothing
                },
            ),
        }
    }
}

/// What a cycle is to do.
#[derive(Debug, Clone, Copy, PartialEq, Eq, Structural)]
pub enum Work {
    /// Predict and update the tasks.
    Classify,
    /// Write the table.
    WriteTable,
    Nothing,
}

/// Settings of the main loop.
#[derive(Debug, Clone, Copy, PartialEq, Eq, Structural)]
pub struct RunConfig {
    pub mode: Mode,
    /// Seconds between cycles.
    pub collect_duration: u64,
    /// Whether to write the table every collect cycle, and not only at the end.
    pub csv_checkpoint: bool,
    /// Maximum run time in seconds (collect mode); 0 is no limit.
    pub max_runtime: u64,
}

impl RunConfig {
    /// Whether the main loop goes on.
    pub fn keeps_running(&self, shutdown: bool, exited: bool, elapsed_ns: u128) -> (r: bool)
        ensures
            r == goes_on(*self, shutdown, exited, elapsed_ns),
    {
        if shutdown || exited {
            return false;
        }
        if self.mode == Mode::Collect && self.max_runtime > 0 {
            elapsed_ns < self.max_runtime as u128 * NS_PER_SEC
        } else {
            true
        }
    }

    /// What the cycle that falls due is to do; None if none is due yet.
    pub fn due_work(&self, since_last_ns: u128) -> (r: Option<Work>)
        ensures
            r == work_due(*self, since_last_ns),
    {
        if since_last_ns < self.collect_duration as u128 * NS_PER_SEC {
            return None;
        }
        match self.mode {
            Mode::Classify => Some(Work::Classify),
            Mode::Collect => if self.csv_checkpoint {
                Some(Work::WriteTable)
            } else {
                Some(Work::Nothing)
            },
        }
    }
}

/// The answer to an action.
#[derive(Debug, Clone, Copy)]
pub enum RunEvent {
    /// The action was performed.
    Done,
    /// The reasons to stop, the time since the start of the loop, and the time
    /// since the last cycle.
    Status { shutdown: bool, exited: bool, elapsed_ns: u128, since_last_ns: u128 },
}

/// What the caller is to do next. All but `CheckStatus` are answered by `Done`.
#[derive(Debug, Clone, Copy, PartialEq, Eq, Structural)]
pub enum RunAction {
    /// Find out whether to stop, and what time it is. Answer: `Status`.
    CheckStatus,
    /// Stop the flow of task events, so that none are lost while a cycle runs.
    Pause,
    /// Do the work of a cycle.
    Perform { work: Work },
    /// Start the next interval, and let task events flow again.
    Resume,
    /// Take in task events for a while.
    Poll,
    /// Stop the game detection.
    StopDetection,
    /// Leave. No answer.
    Finish,
}

/// What the main loop is waiting to be answered.
#[derive(Debug, Clone, Copy, PartialEq, Eq, Structural)]
pub enum RunPhase {
    Checking,
    Pausing { work: Work },
    Working,
    Resuming,
    Polling,
    Stopping,
    Flushing,
    Ended,
}

/// The main loop's state.
#[derive(Debug, Clone, Copy)]
pub struct Runner {
    pub cfg: RunConfig,
    pub phase: RunPhase,
}

/// Whether `event` answers the action that led to `phase`.
pub open spec fn run_answers(phase: RunPhase, event: RunEvent) -> bool {
    match phase {
        RunPhase::Checking => event is Status,
        RunPhase::Ended => false,
        _ => event is Done,
    }
}

/// The loop's transitions: where `event` leads from `phase`, and what is to be
/// done then.
pub open spec fn run_next(cfg: RunConfig, phase: RunPhase, event: RunEvent) -> (
    RunPhase,
    RunAction,
) {
    match (phase, event) {
        (
            RunPhase::Checking,
            RunEvent::Status { shutdown, exited, elapsed_ns, since_last_ns },
        ) => if !goes_on(cfg, shutdown, exited, elapsed_ns) {
            (RunPhase::Stopping, RunAction::StopDetection)
        } else {
            match work_due(cfg, since_last_ns) {
                Some(work) => (RunPhase::Pausing { work }, RunAction::Pause),
                None => (RunPhase::Polling, RunAction::Poll),
            }
        },
        (RunPhase::Pausing { work }, _) => if work is Nothing {
            (RunPhase::Resuming, RunAction::Resume)
        } else {
            (RunPhase::Working, RunAction::Perform { work })
        },
        (RunPhase::Working, _) => (RunPhase::Resuming, RunAction::Resume),
        (RunPhase::Resuming, _) => (RunPhase::Polling, RunAction::Poll),
        (RunPhase::Polling, _) => (RunPhase::Checking, RunAction::CheckStatus),
        (RunPhase::Stopping, _) => match cfg.mode {
            Mode::Collect => (RunPhase::Flushing, RunAction::Perform { work: Work::WriteTable }),
            Mode::Classify => (RunPhase::Ended, RunAction::Finish),
        },
        _ => (RunPhase::Ended, RunAction::Finish),
    }
}

impl Runner {
    /// The start of the loop. The first action to perform is `CheckStatus`.
    pub fn new(cfg: RunConfig) -> (r: Self)
        ensures
            r.cfg == cfg,
            r.phase is Checking,
    {
        Runner { cfg, phase: RunPhase::Checking }
    }

    /// Whether `event` is an answer to the action asked for last.
    pub fn expects(&self, event: &RunEvent) -> (r: bool)
        ensures
            r == run_answers(self.phase, *event),
    {
        match (self.phase, event) {
            (RunPhase::Checking, RunEvent::Status { .. }) => true,
            (RunPhase::Checking, RunEvent::Done) => false,
            (RunPhase::Ended, _) => false,
            (_, RunEvent::Done) => true,
            (_, RunEvent::Status { .. }) => false,
        }
    }

    /// Take the answer to the last action and decide on the next one.
    pub fn step(&mut self, event: RunEvent) -> (action: RunAction)
        requires
            run_answers(old(self).phase, event),
        ensures
            final(self).cfg == old(self).cfg,
            (final(self).phase, action) == run_next(old(self).cfg, old(self).phase, event),
    {
        let (phase, action) = match (self.phase, event) {
            (
                RunPhase::Checking,
                RunEvent::Status { shutdown, exited, elapsed_ns, since_last_ns },
            ) => {
                if !self.cfg.keeps_running(shutdown, exited, elapsed_ns) {
                    (RunPhase::Stopping, RunAction::StopDetection)
                } else {
                    match self.cfg.due_work(since_last_ns) {
                        Some(work) => (RunPhase::Pausing { work }, RunAction::Pause),
                        None => (RunPhase::Polling, RunAction::Poll),
                    }
                }
            },
            (RunPhase::Pausing { work: Work::Nothing }, _) => (
                RunPhase::Resuming,
                RunAction::Resume,
            ),
            (RunPhase::Pausing { work }, _) => (RunPhase::Working, RunAction::Perform { work }),
            (RunPhase::Working, _) => (RunPhase::Resuming, RunAction::Resume),
            (RunPhase::Resuming, _) => (RunPhase::Polling, RunAction::Poll),
            (RunPhase::Polling, _) => (RunPhase::Checking, RunAction::CheckStatus),
            (RunPhase::Stopping, _) => match self.cfg.mode {
                Mode::Collect => (
                    RunPhase::Flushing,
                    RunAction::Perform { work: Work::WriteTable },
                ),
                Mode::Classify => (RunPhase::Ended, RunAction::Finish),
            },
            _ => (RunPhase::Ended, RunAction::Finish),
        };
        self.phase = phase;
        action
    }
}

// ---------------------------------------------------------------------------
// What holds of the loop
// ---------------------------------------------------------------------------

/// Where the loop is after the answers `events`, and what it has asked for on the
/// way there.
pub open spec fn run_of(cfg: RunConfig, events: Seq<RunEvent>) -> (RunPhase, Seq<RunAction>)
    decreases events.len(),
{
    if events.len() == 0 {
        (RunPhase::Checking, seq![RunAction::CheckStatus])
    } else {
        let before = run_of(cfg, events.drop_last());
        let next = run_next(cfg, before.0, events.last());
        (next.0, before.1.push(next.1))
    }
}

/// Whether every one of `events` answers what had been asked for.
pub open spec fn is_answered(cfg: RunConfig, events: Seq<RunEvent>) -> bool
    decreases events.len(),
{
    events.len() > 0 ==> is_answered(cfg, events.drop_last()) && run_answers(
        run_of(cfg, events.drop_last()).0,
        events.last(),
    )
}

/// Whether the flow of task events is paused once `actions` are performed.
pub open spec fn is_paused(actions: Seq<RunAction>) -> bool
    decreases actions.len(),
{
    if actions.len() == 0 {
        false
    } else {
        match actions.last() {
            RunAction::Pause => true,
            RunAction::Resume => false,
            _ => is_paused(actions.drop_last()),
        }
    }
}

/// How often the table is written in `actions`.
pub open spec fn tables_written(actions: Seq<RunAction>) -> nat
    decreases actions.len(),
{
    if actions.len() == 0 {
        0
    } else {
        tables_written(actions.drop_last()) + if actions.last() == (RunAction::Perform {
            work: Work::WriteTable,
        }) {
            1nat
        } else {
            0
        }
    }
}

/// Task events are paused exactly while a cycle is at work: whenever the loop
/// takes in events, looks at the clock, or stops, they flow.
pub proof fn law_events_flow_outside_cycles(cfg: RunConfig, events: Seq<RunEvent>)
    requires
        is_answered(cfg, events),
    ensures
        is_paused(run_of(cfg, events).1) <==> {
            ||| run_of(cfg, events).0 is Pausing
            ||| run_of(cfg, events).0 is Working
        },
    decreases events.len(),
{
    if events.len() > 0 {
        law_events_flow_outside_cycles(cfg, events.drop_last());
        let before = run_of(cfg, events.drop_last()).1;
        let next = run_next(cfg, run_of(cfg, events.drop_last()).0, events.last()).1;
        assert(before.push(next).drop_last() == before);
    } else {
        let first = seq![RunAction::CheckStatus];
        assert(first.drop_last() == Seq::<RunAction>::empty());
        assert(!is_paused(first.drop_last()));
    }
}

/// A run that collects without checkpoints writes the table once, at the end;
/// one that classifies never does.
pub proof fn law_table_is_written_at_the_end(cfg: RunConfig, events: Seq<RunEvent>)
    requires
        is_answered(cfg, events),
        !cfg.csv_checkpoint || cfg.mode is Classify,
    ensures
        tables_written(run_of(cfg, events).1) == (if cfg.mode is Collect && (run_of(
            cfg,
            events,
        ).0 is Flushing || run_of(cfg, events).0 is Ended) {
            1nat
        } else {
            0
        }),
        run_of(cfg, events).0 matches RunPhase::Pausing { work } ==> !(work is WriteTable),
    decreases events.len(),
{
    if events.len() > 0 {
        law_table_is_written_at_the_end(cfg, events.drop_last());
        let before = run_of(cfg, events.drop_last()).1;
        let next = run_next(cfg, run_of(cfg, events.drop_last()).0, events.last()).1;
        assert(before.push(next).drop_last() == before);
    } else {
        let first = seq![RunAction::CheckStatus];
        assert(first.drop_last() == Seq::<RunAction>::empty());
        assert(tables_written(first.drop_last()) == 0);
    }
}

} // verus!
