//! What holds of whole runs of the main loop.

use crate::run;
use crate::run::{Mode, RunAction, RunConfig, RunEvent, RunPhase, Work};
use vstd::prelude::*;

verus! {

// ---------------------------------------------------------------------------
// The table
// ---------------------------------------------------------------------------

/// Whether the table is written in `actions` after the last time that task events
/// were taken in.
pub open spec fn table_is_up_to_date(actions: Seq<RunAction>) -> bool {
    exists|i: int|
        {
            &&& 0 <= i < actions.len()
            &&& #[trigger] actions[i] == (RunAction::Perform { work: Work::WriteTable })
            &&& forall|j: int| i < j < actions.len() ==> !(#[trigger] actions[j] is Poll)
        }
}

/// How many of `actions` are `action`.
pub open spec fn count_of(actions: Seq<RunAction>, action: RunAction) -> nat {
    actions.filter(|a: RunAction| a == action).len()
}

proof fn lemma_count_step(actions: Seq<RunAction>, last: RunAction, action: RunAction)
    ensures
        count_of(actions.push(last), action) == count_of(actions, action) + if last == action {
            1nat
        } else {
            0
        },
{
    reveal(Seq::filter);
    assert(actions.push(last).drop_last() =~= actions);
    assert(actions.push(last).last() == last);
}

proof fn lemma_count_start(action: RunAction)
    ensures
        count_of(seq![RunAction::CheckStatus], action) == if action is CheckStatus {
            1nat
        } else {
            0
        },
{
    let none = Seq::<RunAction>::empty();
    reveal(Seq::filter);
    lemma_count_step(none, RunAction::CheckStatus, action);
    assert(none.push(RunAction::CheckStatus) =~= seq![RunAction::CheckStatus]);
}

/// Counting the tables that are written is counting the requests to write one.
pub proof fn law_tables_are_counted(actions: Seq<RunAction>)
    ensures
        run::tables_written(actions) == count_of(
            actions,
            RunAction::Perform { work: Work::WriteTable },
        ),
    decreases actions.len(),
{
    reveal(Seq::filter);
    if actions.len() > 0 {
        law_tables_are_counted(actions.drop_last());
        lemma_count_step(
            actions.drop_last(),
            actions.last(),
            RunAction::Perform { work: Work::WriteTable },
        );
        assert(actions.drop_last().push(actions.last()) =~= actions);
    }
}

proof fn lemma_flushed(cfg: RunConfig, events: Seq<RunEvent>)
    requires
        run::is_answered(cfg, events),
        cfg.mode is Collect,
    ensures
        ({
            let (phase, actions) = run::run_of(cfg, events);
            &&& actions.len() == events.len() + 1
            &&& phase is Flushing || phase is Ended ==> table_is_up_to_date(actions)
        }),
    decreases events.len(),
{
    if events.len() > 0 {
        lemma_flushed(cfg, events.drop_last());
        let (before, asked) = run::run_of(cfg, events.drop_last());
        let (phase, actions) = run::run_of(cfg, events);
        let last = actions.len() - 1;
        assert(actions.last() == actions[last]);
        if phase is Flushing {
            assert(actions[last] == (RunAction::Perform { work: Work::WriteTable }));
        }
        if phase is Ended {
            assert(before is Flushing);
            let i = choose|i: int|
                {
                    &&& 0 <= i < asked.len()
                    &&& #[trigger] asked[i] == (RunAction::Perform { work: Work::WriteTable })
                    &&& forall|j: int| i < j < asked.len() ==> !(#[trigger] asked[j] is Poll)
                };
            assert(actions[i] == asked[i]);
            assert forall|j: int| i < j < actions.len() implies !(#[trigger] actions[j] is Poll) by {
                if j < asked.len() {
                    assert(actions[j] == asked[j]);
                }
            }
        }
    }
}

/// A run that collects, with checkpoints or without, and that has come to its end,
/// has written the table after the last time it took in task events: nothing that
/// was collected is lost.
pub proof fn law_nothing_collected_is_lost(cfg: RunConfig, events: Seq<RunEvent>)
    requires
        run::is_answered(cfg, events),
        cfg.mode is Collect,
        run::run_of(cfg, events).1.contains(RunAction::Finish),
    ensures
        table_is_up_to_date(run::run_of(cfg, events).1),
{
    lemma_finish_is_the_end(cfg, events);
    lemma_flushed(cfg, events);
}

proof fn lemma_finish_is_the_end(cfg: RunConfig, events: Seq<RunEvent>)
    requires
        run::is_answered(cfg, events),
    ensures
        run::run_of(cfg, events).1.contains(RunAction::Finish) <==> run::run_of(
            cfg,
            events,
        ).0 is Ended,
        run::run_of(cfg, events).1.len() > 0,
        run::run_of(cfg, events).1.contains(RunAction::Finish) ==> run::run_of(
            cfg,
            events,
        ).1.last() is Finish,
    decreases events.len(),
{
    let (phase, actions) = run::run_of(cfg, events);
    if events.len() > 0 {
        lemma_finish_is_the_end(cfg, events.drop_last());
        let (before, asked) = run::run_of(cfg, events.drop_last());
        assert(actions.drop_last() =~= asked);
        assert(actions[actions.len() - 1] == actions.last());
        if actions.contains(RunAction::Finish) {
            let i = choose|i: int| 0 <= i < actions.len() && actions[i] == RunAction::Finish;
            if i < asked.len() {
                assert(asked[i] == RunAction::Finish);
                assert(asked.contains(RunAction::Finish));
            }
        }
    }
}

/// A run asks to finish at most once, and asks for nothing after that.
pub proof fn law_finish_is_the_last_action(cfg: RunConfig, events: Seq<RunEvent>, i: int)
    requires
        run::is_answered(cfg, events),
        0 <= i < run::run_of(cfg, events).1.len(),
        run::run_of(cfg, events).1[i] is Finish,
    ensures
        i == run::run_of(cfg, events).1.len() - 1,
    decreases events.len(),
{
    let (phase, actions) = run::run_of(cfg, events);
    if events.len() > 0 {
        let (before, asked) = run::run_of(cfg, events.drop_last());
        lemma_finish_is_the_end(cfg, events.drop_last());
        if i < asked.len() {
            assert(asked[i] == actions[i]);
            assert(asked.contains(RunAction::Finish));
        }
    }
}

/// The cycles among `events` that fall due: the answers about the clock on which
/// the loop goes on and the interval has passed.
pub open spec fn is_due_cycle(cfg: RunConfig, event: RunEvent) -> bool {
    event matches RunEvent::Status { shutdown, exited, elapsed_ns, since_last_ns } && !shutdown
        && !exited && (cfg.mode is Classify || cfg.max_runtime == 0 || elapsed_ns
        < cfg.max_runtime * 1_000_000_000) && since_last_ns >= cfg.collect_duration * 1_000_000_000
}

/// How many cycles fall due in `events`.
pub open spec fn due_cycles(cfg: RunConfig, events: Seq<RunEvent>) -> nat {
    events.filter(|e: RunEvent| is_due_cycle(cfg, e)).len()
}

proof fn lemma_due_step(cfg: RunConfig, events: Seq<RunEvent>)
    requires
        events.len() > 0,
    ensures
        due_cycles(cfg, events) == due_cycles(cfg, events.drop_last()) + if is_due_cycle(
            cfg,
            events.last(),
        ) {
            1nat
        } else {
            0
        },
{
    reveal(Seq::filter);
}

proof fn lemma_cycles(cfg: RunConfig, events: Seq<RunEvent>)
    requires
        run::is_answered(cfg, events),
    ensures
        ({
            let (phase, actions) = run::run_of(cfg, events);
            let due = due_cycles(cfg, events);
            let waiting: nat = if phase is Pausing {
                1
            } else {
                0
            };
            let written = count_of(actions, RunAction::Perform { work: Work::WriteTable });
            let predicted = count_of(actions, RunAction::Perform { work: Work::Classify });
            let idle = count_of(actions, RunAction::Perform { work: Work::Nothing });
            let at_work: nat = if phase is Working {
                1
            } else {
                0
            };
            let last: nat = if phase is Flushing || phase is Ended {
                1
            } else {
                0
            };
            &&& count_of(actions, RunAction::Pause) == due
            &&& count_of(actions, RunAction::Resume) + waiting + at_work == due
            &&& idle == 0
            &&& cfg.mode is Classify ==> written == 0 && predicted + waiting == due
            &&& cfg.mode is Collect ==> predicted == 0 && written + (if cfg.csv_checkpoint {
                waiting
            } else {
                0
            }) == last + (if cfg.csv_checkpoint {
                due
            } else {
                0
            })
            &&& phase matches RunPhase::Pausing { work } ==> work == (if cfg.mode is Classify {
                Work::Classify
            } else if cfg.csv_checkpoint {
                Work::WriteTable
            } else {
                Work::Nothing
            })
        }),
    decreases events.len(),
{
    let write = RunAction::Perform { work: Work::WriteTable };
    let predict = RunAction::Perform { work: Work::Classify };
    let idle = RunAction::Perform { work: Work::Nothing };
    if events.len() > 0 {
        lemma_cycles(cfg, events.drop_last());
        lemma_due_step(cfg, events);
        let (before, asked) = run::run_of(cfg, events.drop_last());
        let next = run::run_next(cfg, before, events.last()).1;
        lemma_count_step(asked, next, RunAction::Pause);
        lemma_count_step(asked, next, RunAction::Resume);
        lemma_count_step(asked, next, write);
        lemma_count_step(asked, next, predict);
        lemma_count_step(asked, next, idle);
    } else {
        reveal(Seq::filter);
        lemma_count_start(RunAction::Pause);
        lemma_count_start(RunAction::Resume);
        lemma_count_start(write);
        lemma_count_start(predict);
        lemma_count_start(idle);
    }
}

/// How often the table is written by a run that has come to its end: when it
/// collects with checkpoints, once for each cycle that fell due and once more at
/// the end; when it collects without, once; when it classifies, never.
pub proof fn law_how_often_the_table_is_written(cfg: RunConfig, events: Seq<RunEvent>)
    requires
        run::is_answered(cfg, events),
        run::run_of(cfg, events).1.contains(RunAction::Finish),
    ensures
        cfg.mode is Collect && cfg.csv_checkpoint ==> count_of(
            run::run_of(cfg, events).1,
            RunAction::Perform { work: Work::WriteTable },
        ) == due_cycles(cfg, events) + 1,
        cfg.mode is Collect && !cfg.csv_checkpoint ==> count_of(
            run::run_of(cfg, events).1,
            RunAction::Perform { work: Work::WriteTable },
        ) == 1,
        cfg.mode is Classify ==> count_of(
            run::run_of(cfg, events).1,
            RunAction::Perform { work: Work::WriteTable },
        ) == 0,
{
    lemma_finish_is_the_end(cfg, events);
    lemma_cycles(cfg, events);
}

/// How often tasks are predicted by a run that has come to its end: when it
/// classifies, once for each cycle that fell due; when it collects, never.
pub proof fn law_how_often_tasks_are_predicted(cfg: RunConfig, events: Seq<RunEvent>)
    requires
        run::is_answered(cfg, events),
        run::run_of(cfg, events).1.contains(RunAction::Finish),
    ensures
        cfg.mode is Classify ==> count_of(
            run::run_of(cfg, events).1,
            RunAction::Perform { work: Work::Classify },
        ) == due_cycles(cfg, events),
        cfg.mode is Collect ==> count_of(
            run::run_of(cfg, events).1,
            RunAction::Perform { work: Work::Classify },
        ) == 0,
{
    lemma_finish_is_the_end(cfg, events);
    lemma_cycles(cfg, events);
}

/// In either mode, task events are paused once for each cycle that fell due, and
/// let flow again as often.
pub proof fn law_every_pause_ends(cfg: RunConfig, events: Seq<RunEvent>)
    requires
        run::is_answered(cfg, events),
        run::run_of(cfg, events).1.contains(RunAction::Finish),
    ensures
        count_of(run::run_of(cfg, events).1, RunAction::Pause) == due_cycles(cfg, events),
        count_of(run::run_of(cfg, events).1, RunAction::Resume) == due_cycles(cfg, events),
{
    lemma_finish_is_the_end(cfg, events);
    lemma_cycles(cfg, events);
}

// ---------------------------------------------------------------------------
// One step
// ---------------------------------------------------------------------------

/// The loop stops exactly for a shutdown, for an exit of the kernel side, or, when
/// it collects with a limit, once that many seconds have passed.
pub proof fn law_what_ends_the_run(
    cfg: RunConfig,
    shutdown: bool,
    exited: bool,
    elapsed_ns: u128,
    since_last_ns: u128,
)
    ensures
        run::run_next(
            cfg,
            RunPhase::Checking,
            RunEvent::Status { shutdown, exited, elapsed_ns, since_last_ns },
        ).1 is StopDetection <==> {
            ||| shutdown
            ||| exited
            ||| cfg.mode is Collect && cfg.max_runtime > 0 && elapsed_ns >= cfg.max_runtime
                * 1_000_000_000
        },
        run::goes_on(cfg, shutdown, exited, elapsed_ns) <==> !(shutdown || exited || cfg.mode
            is Collect && cfg.max_runtime > 0 && elapsed_ns >= cfg.max_runtime * 1_000_000_000),
{
}

/// A loop that goes on pauses for a cycle exactly if the interval has passed, and
/// else takes in events.
pub proof fn law_when_a_cycle_starts(cfg: RunConfig, event: RunEvent)
    requires
        run::run_answers(RunPhase::Checking, event),
        !(run::run_next(cfg, RunPhase::Checking, event).1 is StopDetection),
    ensures
        run::run_next(cfg, RunPhase::Checking, event).1 is Pause <==> is_due_cycle(cfg, event),
        run::run_next(cfg, RunPhase::Checking, event).1 is Poll <==> !is_due_cycle(cfg, event),
{
}

/// What a cycle does, if one is due: predict when classifying; when collecting,
/// write the table with checkpoints, and nothing without.
pub proof fn law_what_a_cycle_does(cfg: RunConfig, since_last_ns: u128)
    ensures
        run::work_due(cfg, since_last_ns) is None <==> since_last_ns < cfg.collect_duration
            * 1_000_000_000,
        since_last_ns >= cfg.collect_duration * 1_000_000_000 ==> {
            &&& cfg.mode is Classify ==> run::work_due(cfg, since_last_ns) == Some(Work::Classify)
            &&& cfg.mode is Collect && cfg.csv_checkpoint ==> run::work_due(cfg, since_last_ns)
                == Some(Work::WriteTable)
            &&& cfg.mode is Collect && !cfg.csv_checkpoint ==> run::work_due(cfg, since_last_ns)
                == Some(Work::Nothing)
        },
{
}

/// Whether the loop waits for the answer to `action` in `phase`.
pub open spec fn awaits(phase: RunPhase, action: RunAction) -> bool {
    match action {
        RunAction::CheckStatus => phase is Checking,
        RunAction::Pause => phase is Pausing,
        RunAction::Perform { .. } => phase is Working || phase is Flushing,
        RunAction::Resume => phase is Resuming,
        RunAction::Poll => phase is Polling,
        RunAction::StopDetection => phase is Stopping,
        RunAction::Finish => phase is Ended,
    }
}

/// Which action follows which. After a look at the clock: a pause, events, or the
/// end of game detection. After a pause: the work of a cycle, or, with none to do,
/// the next interval. After a cycle's work the next interval, then events, then the
/// clock again. After the end of game detection the table is written when
/// collecting, and then, or at once when classifying, the run is over.
pub proof fn law_which_action_follows(cfg: RunConfig, phase: RunPhase, event: RunEvent)
    requires
        run::run_answers(phase, event),
    ensures
        ({
            let (next, action) = run::run_next(cfg, phase, event);
            &&& awaits(next, action)
            &&& phase is Checking ==> action is Pause || action is Poll || action is StopDetection
            &&& phase matches RunPhase::Pausing { work } ==> if work is Nothing {
                action is Resume
            } else {
                action == (RunAction::Perform { work }) && next is Working
            }
            &&& phase is Working ==> action is Resume
            &&& phase is Resuming ==> action is Poll
            &&& phase is Polling ==> action is CheckStatus
            &&& phase is Stopping && cfg.mode is Collect ==> action == (RunAction::Perform {
                work: Work::WriteTable,
            }) && next is Flushing
            &&& phase is Stopping && cfg.mode is Classify ==> action is Finish
            &&& phase is Flushing ==> action is Finish
        }),
{
}

/// A look at the clock is answered by what was seen, any other action by the news
/// that it is done, and the end by nothing.
pub proof fn law_expected_answers(phase: RunPhase, event: RunEvent)
    ensures
        phase is Checking ==> (run::run_answers(phase, event) <==> event is Status),
        !(phase is Checking) && !(phase is Ended) ==> (run::run_answers(phase, event) <==> event
            is Done),
        phase is Ended ==> !run::run_answers(phase, event),
{
}

/// A run starts with a look at the clock, and asks for one action per answer.
pub proof fn law_runs_grow_by_one_action(cfg: RunConfig, events: Seq<RunEvent>, event: RunEvent)
    ensures
        run::run_of(cfg, Seq::empty()) == (RunPhase::Checking, seq![RunAction::CheckStatus]),
        run::run_of(cfg, events.push(event)).0 == run::run_next(
            cfg,
            run::run_of(cfg, events).0,
            event,
        ).0,
        run::run_of(cfg, events.push(event)).1 == run::run_of(cfg, events).1.push(
            run::run_next(cfg, run::run_of(cfg, events).0, event).1,
        ),
        run::is_answered(cfg, events.push(event)) <==> run::is_answered(cfg, events)
            && run::run_answers(run::run_of(cfg, events).0, event),
{
    assert(events.push(event).drop_last() =~= events);
    assert(events.push(event).last() == event);
}

/// A mode is read from its name, spelled just so, and from nothing else.
pub proof fn law_mode_names(name: Seq<char>)
    ensures
        name == "collect"@ ==> run::mode_named(name) == Some(Mode::Collect),
        name == "classify"@ ==> run::mode_named(name) == Some(Mode::Classify),
        name != "collect"@ && name != "classify"@ ==> run::mode_named(name) is None,
{
    reveal_strlit("collect");
    reveal_strlit("classify");
    assert("collect"@.len() != "classify"@.len());
}

} // verus!
