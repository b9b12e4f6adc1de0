use scx_teddy::run::{
    parse_mode, would_overwrite, Mode, RunAction, RunConfig, RunEvent, Runner, Work, NS_PER_SEC,
};

fn config(mode: Mode, csv_checkpoint: bool) -> RunConfig {
    RunConfig { mode, collect_duration: 10, csv_checkpoint, max_runtime: 0 }
}

fn status(shutdown: bool, since_last_secs: u128) -> RunEvent {
    RunEvent::Status {
        shutdown,
        exited: false,
        elapsed_ns: 0,
        since_last_ns: since_last_secs * NS_PER_SEC,
    }
}

fn play(cfg: RunConfig, events: Vec<RunEvent>) -> Vec<RunAction> {
    let mut runner = Runner::new(cfg);
    events
        .into_iter()
        .map(|e| {
            assert!(runner.expects(&e));
            runner.step(e)
        })
        .collect()
}

#[test]
fn modes_have_names() {
    assert_eq!(parse_mode("collect"), Some(Mode::Collect));
    assert_eq!(parse_mode("classify"), Some(Mode::Classify));
    assert_eq!(parse_mode("Collect"), None);
    assert_eq!(parse_mode(""), None);
}

#[test]
fn collecting_never_overwrites() {
    assert!(would_overwrite(Mode::Collect, true));
    assert!(!would_overwrite(Mode::Collect, false));
    assert!(!would_overwrite(Mode::Classify, true));
}

#[test]
fn the_loop_runs_until_it_is_told_or_times_out() {
    let mut cfg = config(Mode::Collect, false);
    assert!(cfg.keeps_running(false, false, u128::MAX));
    assert!(!cfg.keeps_running(true, false, 0));
    assert!(!cfg.keeps_running(false, true, 0));
    cfg.max_runtime = 2;
    assert!(cfg.keeps_running(false, false, 2 * NS_PER_SEC - 1));
    assert!(!cfg.keeps_running(false, false, 2 * NS_PER_SEC));
    cfg.mode = Mode::Classify;
    assert!(cfg.keeps_running(false, false, 2 * NS_PER_SEC));
}

#[test]
fn cycles_come_due() {
    assert_eq!(config(Mode::Classify, false).due_work(10 * NS_PER_SEC - 1), None);
    assert_eq!(config(Mode::Classify, true).due_work(10 * NS_PER_SEC), Some(Work::Classify));
    assert_eq!(config(Mode::Collect, true).due_work(10 * NS_PER_SEC), Some(Work::WriteTable));
    assert_eq!(config(Mode::Collect, false).due_work(u128::MAX), Some(Work::Nothing));
}

#[test]
fn a_classify_run_pauses_around_its_cycles() {
    let done = RunEvent::Done;
    let actions = play(
        config(Mode::Classify, false),
        vec![status(false, 3), done, status(false, 10), done, done, done, done, status(true, 0), done],
    );
    assert_eq!(
        actions,
        vec![
            RunAction::Poll,
            RunAction::CheckStatus,
            RunAction::Pause,
            RunAction::Perform { work: Work::Classify },
            RunAction::Resume,
            RunAction::Poll,
            RunAction::CheckStatus,
            RunAction::StopDetection,
            RunAction::Finish,
        ]
    );
}

#[test]
fn a_collect_run_writes_the_table_at_the_end() {
    let done = RunEvent::Done;
    let actions = play(
        config(Mode::Collect, false),
        vec![status(false, 10), done, done, done, status(true, 0), done, done],
    );
    assert_eq!(
        actions,
        vec![
            RunAction::Pause,
            RunAction::Resume,
            RunAction::Poll,
            RunAction::CheckStatus,
            RunAction::StopDetection,
            RunAction::Perform { work: Work::WriteTable },
            RunAction::Finish,
        ]
    );
}

#[test]
fn checkpoints_write_the_table_too() {
    let actions = play(
        config(Mode::Collect, true),
        vec![status(false, 10), RunEvent::Done],
    );
    assert_eq!(actions[1], RunAction::Perform { work: Work::WriteTable });
}

#[test]
fn only_fitting_answers_are_expected() {
    let mut runner = Runner::new(config(Mode::Classify, false));
    assert!(!runner.expects(&RunEvent::Done));
    runner.step(status(true, 0));
    assert!(!runner.expects(&status(true, 0)));
    runner.step(RunEvent::Done);
    assert!(!runner.expects(&RunEvent::Done));
}
