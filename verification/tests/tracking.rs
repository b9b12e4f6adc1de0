use scx_teddy::control::{parse_target, retarget};
use scx_teddy::fd_set::{
    scan_fds, scan_readiness, scan_timer_setting, wake_fds, FdSet, ITimerspec, Timespec,
};
use scx_teddy::game_task_finder::{Match, ProcEntry, ProcRecord};
use scx_teddy::tracker::GameTracker;
use scx_teddy::watch::{rescan, LineInput, Trigger, WatchAction, WatchConfig, WatchEvent, Watcher};

fn game(ppid: i32, procs: i32) -> Match {
    Match {
        ppid,
        procs: (0..procs).map(|i| ProcEntry { pid: 100 + i, comm: format!("p{i}") }).collect(),
    }
}

fn status(shutdown: bool, game_ppid: i32) -> WatchEvent {
    WatchEvent::Status { shutdown, game_ppid }
}

#[test]
fn the_last_exit_wakes() {
    let mut t = GameTracker::default();
    t.track(60, 2);
    assert!(t.is_tracking());
    assert!(!t.note_process_exit(60));
    assert!(t.note_process_exit(60));
    assert_eq!(t, GameTracker { game_ppid: 60, alive_count: 0 });
    assert!(!t.note_process_exit(60));
    assert_eq!(t.alive_count, -1);
}

#[test]
fn exits_elsewhere_do_not_count() {
    let mut t = GameTracker::new();
    assert!(!t.note_process_exit(0));
    t.track_match(&game(60, 1));
    assert!(!t.note_process_exit(61));
    assert_eq!(t, GameTracker { game_ppid: 60, alive_count: 1 });
    t.clear();
    assert!(!t.note_process_exit(60));
    assert_eq!(t, GameTracker { game_ppid: 0, alive_count: 1 });
}

#[test]
fn the_alive_count_wraps_around() {
    let mut t = GameTracker { game_ppid: 5, alive_count: i32::MIN };
    assert!(!t.note_process_exit(5));
    assert_eq!(t.alive_count, i32::MAX);
}

#[test]
fn a_control_file_retargets() {
    let mut t = GameTracker::new();
    t.track(60, 3);
    for bad in ["", "garbage", "-1", "12 34", "99999999999"] {
        retarget(&mut t, bad);
        assert_eq!(t, GameTracker { game_ppid: 60, alive_count: 3 });
    }
    retarget(&mut t, "60\n");
    assert_eq!(t.alive_count, 3);
    retarget(&mut t, "1234\n");
    assert_eq!(t, GameTracker { game_ppid: 1234, alive_count: 0 });
    retarget(&mut t, " 0 ");
    assert!(!t.is_tracking());
    assert_eq!(parse_target("+7"), Some(7));
    assert_eq!(parse_target("0x7"), None);
}

#[test]
fn descriptors_are_remembered_bit_by_bit() {
    let mut s = FdSet::new();
    for fd in [0, 63, 64, 1023] {
        assert!(!s.is_set(fd));
        s.set(fd);
        assert!(s.is_set(fd));
    }
    assert!(!s.is_set(1));
    assert_eq!(s.bits[0], 1 | 1 << 63);
    assert_eq!(s.bits[1], 1);
    assert_eq!(s.bits[15], 1 << 63);
}

#[test]
fn the_scan_set_holds_the_armed_descriptors() {
    let (set, nfds) = scan_fds(0, 7, 9);
    assert!(set.is_set(0) && set.is_set(7) && set.is_set(9));
    assert_eq!(nfds, 10);
    let (set, nfds) = scan_fds(3, 2, -1);
    assert!(set.is_set(3) && set.is_set(2) && !set.is_set(0));
    assert_eq!(nfds, 4);
    let (set, nfds) = wake_fds(5);
    assert!(set.is_set(5) && !set.is_set(0));
    assert_eq!(nfds, 6);
}

#[test]
fn readiness_is_what_select_left_behind() {
    let (set, _) = scan_fds(0, 7, -1);
    assert_eq!(scan_readiness(1, &set, 0, 7, -1), (true, true, false));
    assert_eq!(scan_readiness(-1, &set, 0, 7, -1), (false, false, false));
    assert_eq!(scan_readiness(0, &set, 0, 7, 9), (false, false, false));
    assert_eq!(scan_readiness(2, &set, 1, 7, 9), (false, true, false));
}

#[test]
fn the_timer_ticks_at_once_and_then_every_interval() {
    assert_eq!(
        scan_timer_setting(5),
        Some(ITimerspec {
            it_interval: Timespec { tv_sec: 5, tv_nsec: 0 },
            it_value: Timespec { tv_sec: 0, tv_nsec: 1 },
        })
    );
    assert_eq!(scan_timer_setting(0), None);
    assert_eq!(scan_timer_setting(-3), None);
    assert_eq!(WatchConfig::default().scan_interval_secs, 5);
}

#[test]
fn a_rescan_repeats_the_lookup() {
    let procs = vec![
        ProcRecord {
            pid: 7,
            stat: Some(b"7 (game) S 3 0".to_vec()),
            comm: Some(b"game\n".to_vec()),
            environ: None,
        },
        ProcRecord {
            pid: 8,
            stat: Some(b"8 (steamy) S 4 0".to_vec()),
            comm: Some(b"steamy\n".to_vec()),
            environ: Some(b"SteamGameId=1\0".to_vec()),
        },
    ];
    assert_eq!(rescan(&Trigger::GameName("GAME".to_string()), &procs).unwrap().ppid, 3);
    assert_eq!(rescan(&Trigger::Timer, &procs).unwrap().ppid, 4);
    assert!(rescan(&Trigger::GameName("gone".to_string()), &procs).is_none());
}

#[test]
fn a_tick_scans_and_adopts() {
    let mut w = Watcher::new();
    assert!(matches!(w.step(status(false, 0)), WatchAction::AwaitInput));
    let ready = WatchEvent::Ready { stdin: false, wake: false, timer: true };
    assert!(w.expects(&ready));
    assert!(matches!(w.step(ready), WatchAction::DrainTimer));
    assert!(matches!(w.step(WatchEvent::Flag { shutdown: false }), WatchAction::SteamScan));
    match w.step(WatchEvent::Scanned { found: Some(game(60, 2)) }) {
        WatchAction::Adopt { trigger: Trigger::Timer, found } => assert_eq!(found.ppid, 60),
        other => panic!("{other:?}"),
    }
    assert!(matches!(w.step(WatchEvent::Done), WatchAction::CheckStatus));
    assert!(matches!(w.step(status(false, 60)), WatchAction::AwaitWake));
}

#[test]
fn a_typed_name_scans_by_name() {
    let mut w = Watcher::new();
    w.step(status(false, 0));
    let ready = WatchEvent::Ready { stdin: true, wake: false, timer: false };
    assert!(matches!(w.step(ready), WatchAction::ReadLine));
    let line = WatchEvent::Line { input: LineInput::Text("  My Game \n".to_string()) };
    match w.step(line) {
        WatchAction::NameScan { name } => assert_eq!(name, "My Game"),
        other => panic!("{other:?}"),
    }
    match w.step(WatchEvent::Scanned { found: Some(game(9, 1)) }) {
        WatchAction::Adopt { trigger: Trigger::GameName(name), found } => {
            assert_eq!((name.as_str(), found.ppid), ("My Game", 9));
        }
        other => panic!("{other:?}"),
    }
    assert!(matches!(w.step(WatchEvent::Done), WatchAction::CheckStatus));
    assert!(matches!(w.step(status(false, 9)), WatchAction::AwaitWake));
    match w.step(status(false, 9)) {
        WatchAction::Rescan { trigger: Trigger::GameName(name) } => assert_eq!(name, "My Game"),
        other => panic!("{other:?}"),
    }
}

#[test]
fn an_empty_line_is_passed_over_and_eof_stops() {
    let mut w = Watcher::new();
    w.step(status(false, 0));
    w.step(WatchEvent::Ready { stdin: true, wake: false, timer: false });
    let blank = WatchEvent::Line { input: LineInput::Text(" \n".to_string()) };
    assert!(matches!(w.step(blank), WatchAction::CheckStatus));
    for end in [LineInput::Eof, LineInput::Failed] {
        let mut w = Watcher::new();
        w.step(status(false, 0));
        w.step(WatchEvent::Ready { stdin: true, wake: false, timer: false });
        assert!(matches!(w.step(WatchEvent::Line { input: end }), WatchAction::Stop));
        assert!(!w.expects(&WatchEvent::Done));
    }
}

#[test]
fn a_failed_scan_goes_on_to_the_typed_line() {
    let mut w = Watcher::new();
    w.step(status(false, 0));
    let ready = WatchEvent::Ready { stdin: true, wake: true, timer: true };
    assert!(matches!(w.step(ready), WatchAction::DrainWake));
    assert!(matches!(w.step(WatchEvent::Flag { shutdown: false }), WatchAction::DrainTimer));
    assert!(matches!(w.step(WatchEvent::Flag { shutdown: false }), WatchAction::SteamScan));
    assert!(matches!(w.step(WatchEvent::Scanned { found: None }), WatchAction::ReadLine));
}

#[test]
fn a_wake_without_a_tick_scans_too() {
    let mut w = Watcher::new();
    w.step(status(false, 0));
    w.step(WatchEvent::Ready { stdin: false, wake: true, timer: false });
    assert!(matches!(w.step(WatchEvent::Flag { shutdown: false }), WatchAction::CheckShutdown));
    assert!(matches!(w.step(WatchEvent::Flag { shutdown: false }), WatchAction::SteamScan));
}

#[test]
fn nothing_ready_loops() {
    let mut w = Watcher::new();
    w.step(status(false, 0));
    let ready = WatchEvent::Ready { stdin: false, wake: false, timer: false };
    assert!(matches!(w.step(ready), WatchAction::CheckStatus));
}

#[test]
fn a_shutdown_stops_the_loop() {
    let mut w = Watcher::new();
    assert!(matches!(w.step(status(true, 5)), WatchAction::Stop));
    let mut w = Watcher::new();
    w.step(status(false, 0));
    w.step(WatchEvent::Ready { stdin: true, wake: true, timer: true });
    assert!(matches!(w.step(WatchEvent::Flag { shutdown: true }), WatchAction::Stop));
    let mut w = Watcher::new();
    w.step(status(false, 5));
    assert!(matches!(w.step(status(true, 5)), WatchAction::Stop));
}

#[test]
fn a_shutdown_seen_late_keeps_the_scan_from_starting() {
    let mut w = Watcher::new();
    w.step(status(false, 0));
    w.step(WatchEvent::Ready { stdin: false, wake: false, timer: true });
    assert!(matches!(w.step(WatchEvent::Flag { shutdown: true }), WatchAction::CheckStatus));
}

fn tracking() -> Watcher {
    let mut w = Watcher::new();
    w.step(status(false, 0));
    w.step(WatchEvent::Ready { stdin: false, wake: false, timer: true });
    w.step(WatchEvent::Flag { shutdown: false });
    w.step(WatchEvent::Scanned { found: Some(game(60, 2)) });
    w.step(WatchEvent::Done);
    w.step(status(false, 60));
    w
}

#[test]
fn a_transient_drop_is_tracked_again() {
    let mut w = tracking();
    assert!(matches!(w.step(status(false, 60)), WatchAction::Rescan { trigger: Trigger::Timer }));
    match w.step(WatchEvent::Scanned { found: Some(game(61, 3)) }) {
        WatchAction::Retrack { found } => assert_eq!((found.ppid, found.procs.len()), (61, 3)),
        other => panic!("{other:?}"),
    }
    assert!(matches!(w.step(WatchEvent::Done), WatchAction::CheckStatus));
}

#[test]
fn the_end_of_a_game_is_silent() {
    let mut w = tracking();
    assert!(matches!(w.step(status(false, 0)), WatchAction::CheckStatus));
    assert!(matches!(w.step(status(false, 0)), WatchAction::AwaitInput));
    let mut w = tracking();
    w.step(status(false, 60));
    assert!(matches!(w.step(WatchEvent::Scanned { found: None }), WatchAction::StopTracking));
    assert!(matches!(w.step(WatchEvent::Done), WatchAction::CheckStatus));
    assert!(matches!(w.step(status(false, 0)), WatchAction::AwaitInput));
}

#[test]
fn a_wake_without_a_known_trigger_loops() {
    let mut w = Watcher::new();
    w.step(status(false, 7));
    assert!(matches!(w.step(status(false, 7)), WatchAction::CheckStatus));
}
