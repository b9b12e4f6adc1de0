use scx_teddy::csv::{
    collect_data, csv_document, csv_header, read_proc_comm, read_proc_field, task_csv_row,
};
use scx_teddy::stats_map::{
    account_event, classify_in_order, classify_tasks, climb_one_step, climb_to_root,
    collect_in_order, collect_tasks, process_event, EventError, StatsMap,
};
use scx_teddy::task_stats::{TaskEvent, TaskStats};
use scx_teddy::tracker::GameTracker;
use scx_teddy::wire::{event_of, order_of, parse_event, ByteOrder, EVENT_SIZE};

fn event(tid: i32, parent: i32) -> TaskEvent {
    TaskEvent {
        tid,
        parent,
        sleep_start: 100,
        sleep_end: 130,
        runtime_ns: 7,
        yield_cnt: 1,
        runnable_stop_cnt: 2,
        stop_cnt: 3,
    }
}

fn record(e: &TaskEvent) -> Vec<u8> {
    let mut v = Vec::new();
    v.extend(e.tid.to_ne_bytes());
    v.extend(e.parent.to_ne_bytes());
    v.extend(e.sleep_start.to_ne_bytes());
    v.extend(e.sleep_end.to_ne_bytes());
    v.extend(e.runtime_ns.to_ne_bytes());
    v.extend(e.yield_cnt.to_ne_bytes());
    v.extend(e.runnable_stop_cnt.to_ne_bytes());
    v.extend(e.stop_cnt.to_ne_bytes());
    v.extend([0u8; 4]);
    v
}

fn add_square(sum: f64, ns: u64) -> f64 {
    sum + (ns as f64) * (ns as f64)
}

fn no_parent(_pid: i32) -> Option<i32> {
    None
}

fn account(stats: &mut StatsMap<f64>, tracker: &mut GameTracker, e: &TaskEvent) -> bool {
    assert!(stats.fits(e));
    account_event(e, stats, tracker, 0.0, add_square)
}

fn chain(parents: &[(i32, i32)]) -> StatsMap<f64> {
    let mut stats = StatsMap::new();
    let mut tracker = GameTracker::new();
    for &(tid, parent) in parents {
        account(&mut stats, &mut tracker, &event(tid, parent));
    }
    stats
}

fn ancestor(stats: &StatsMap<f64>, tid: i32) -> i32 {
    stats.get(tid).unwrap().ancestor
}

#[test]
fn events_add_up() {
    let mut ts = TaskStats::new(9, 0.0);
    let mut awake = event(1, 9);
    awake.sleep_end = awake.sleep_start;
    awake.runtime_ns = 10;
    ts.update(&event(1, 9), add_square);
    ts.update(&awake, add_square);
    assert_eq!((ts.event_count, ts.runtime_sum, ts.runtime_sum_sq), (2, 17, 149.0));
    assert_eq!((ts.sleep_count, ts.sleep_sum, ts.sleep_sum_sq), (1, 30, 900.0));
    assert_eq!((ts.yield_cnt, ts.runnable_stop_cnt, ts.stop_cnt), (2, 4, 6));
    assert_eq!((ts.ancestor, ts.exit), (9, 0));
}

#[test]
fn a_reversed_sleep_is_no_sleep() {
    let mut ts = TaskStats::new(9, 0.0);
    let mut e = event(1, 9);
    e.sleep_end = 1;
    ts.update(&e, add_square);
    assert_eq!((ts.sleep_count, ts.sleep_sum), (0, 0));
}

#[test]
fn the_order_of_events_does_not_matter() {
    let (a, mut b) = (event(1, 9), event(1, 9));
    b.runtime_ns = 1000;
    let mut x = TaskStats::new(9, 0.0);
    x.update(&a, add_square);
    x.update(&b, add_square);
    let mut y = TaskStats::new(9, 0.0);
    y.update(&b, add_square);
    y.update(&a, add_square);
    assert_eq!((x.runtime_sum, x.sleep_sum), (y.runtime_sum, y.sleep_sum));
}

#[test]
fn features_are_taken_once_per_news() {
    let mut ts = TaskStats::new(9, 0.0);
    assert!(ts.take_features_if_needed().is_none());
    ts.update(&event(1, 9), add_square);
    assert_eq!(ts.take_features_if_needed().unwrap().event_count, 1);
    assert!(ts.take_features_if_needed().is_none());
}

#[test]
fn full_counters_have_no_room() {
    let mut ts = TaskStats::new(9, 0.0);
    assert!(ts.fits(&event(1, 9)));
    ts.runtime_sum = u64::MAX - 6;
    assert!(!ts.fits(&event(1, 9)));
    ts.runtime_sum = u64::MAX - 7;
    assert!(ts.fits(&event(1, 9)));
    ts.sleep_sum = u64::MAX;
    assert!(!ts.fits(&event(1, 9)));
}

#[test]
fn records_read_as_events() {
    let mut e = event(-5, i32::MIN);
    e.runtime_ns = 0x0102_0304_0506_0708;
    assert_eq!(parse_event(&record(&e)), Some(e));
    let mut long = record(&e);
    long.push(9);
    assert_eq!(parse_event(&long), Some(e));
    assert_eq!(parse_event(&record(&e)[..EVENT_SIZE - 1]), None);
    assert_eq!(parse_event(&[]), None);
}

#[test]
fn words_make_an_event() {
    let expected = TaskEvent {
        tid: 1,
        parent: -1,
        sleep_start: 11,
        sleep_end: 12,
        runtime_ns: 13,
        yield_cnt: 8,
        runnable_stop_cnt: 9,
        stop_cnt: 10,
    };
    let pair = |first: u64, second: u64| first | second << 32;
    let little = [pair(1, 0xffff_ffff), 11, 12, 13, pair(8, 9), pair(10, 77)];
    assert_eq!(event_of(&little, ByteOrder::Little), expected);
    let big = [pair(0xffff_ffff, 1), 11, 12, 13, pair(9, 8), pair(77, 10)];
    assert_eq!(event_of(&big, ByteOrder::Big), expected);
}

#[test]
fn the_bytes_of_one_tell_the_order() {
    assert_eq!(order_of(&1u64.to_le_bytes()), ByteOrder::Little);
    assert_eq!(order_of(&1u64.to_be_bytes()), ByteOrder::Big);
}

#[test]
fn a_record_is_accounted_for() {
    let mut stats: StatsMap<f64> = StatsMap::new();
    let mut tracker = GameTracker::new();
    let r = process_event(&record(&event(7, 3)), &mut stats, &mut tracker, 0.0, add_square);
    assert_eq!(r, Ok(false));
    assert_eq!(stats.get(7).unwrap().runtime_sum, 7);
    assert_eq!(ancestor(&stats, 7), 3);
}

#[test]
fn a_short_record_is_refused() {
    let mut stats: StatsMap<f64> = StatsMap::new();
    let mut tracker = GameTracker::new();
    let r = process_event(&[0; 47], &mut stats, &mut tracker, 0.0, add_square);
    assert_eq!(r, Err(EventError::TooShort));
    assert!(stats.tids().is_empty());
}

#[test]
fn a_full_counter_is_reported() {
    let mut stats: StatsMap<f64> = StatsMap::new();
    let mut tracker = GameTracker::new();
    let mut e = event(7, 3);
    e.runtime_ns = u64::MAX;
    let data = record(&e);
    assert_eq!(process_event(&data, &mut stats, &mut tracker, 0.0, add_square), Ok(false));
    assert_eq!(
        process_event(&data, &mut stats, &mut tracker, 0.0, add_square),
        Err(EventError::CounterFull)
    );
    assert_eq!(stats.get(7).unwrap().event_count, 1);
}

#[test]
fn a_climb_starts_at_the_first_parent() {
    let stats = chain(&[(7, 3), (7, 4), (8, 0)]);
    assert_eq!(ancestor(&stats, 7), 3);
    assert_eq!(stats.get(7).unwrap().event_count, 2);
    assert_eq!(ancestor(&stats, 8), 1);
    assert!(stats.get(9).is_none());
}

#[test]
fn the_exit_of_the_ppid_ends_the_game() {
    let mut stats = chain(&[(60, 1), (70, 60)]);
    let mut tracker = GameTracker::new();
    tracker.track(60, 2);
    assert!(account(&mut stats, &mut tracker, &event(60, -1)));
    assert!(!tracker.is_tracking());
    assert_eq!(stats.get(60).unwrap().exit, 1);
    tracker.track(61, 2);
    assert!(account(&mut stats, &mut tracker, &event(61, -1)));
    assert!(!tracker.is_tracking());
    assert!(stats.get(61).is_none());
}

#[test]
fn exits_of_the_family_count_down() {
    let mut stats = chain(&[(70, 60), (71, 60), (72, 9)]);
    let mut tracker = GameTracker::new();
    tracker.track(60, 2);
    assert!(!account(&mut stats, &mut tracker, &event(72, -1)));
    assert!(!account(&mut stats, &mut tracker, &event(70, -1)));
    assert!(account(&mut stats, &mut tracker, &event(71, -1)));
    assert_eq!(tracker, GameTracker { game_ppid: 60, alive_count: 0 });
}

#[test]
fn other_negative_parents_are_ignored() {
    let mut stats = chain(&[(70, 60)]);
    let mut tracker = GameTracker::new();
    tracker.track(70, 1);
    assert!(!account(&mut stats, &mut tracker, &event(70, -2)));
    assert!(tracker.is_tracking());
    assert_eq!(stats.get(70).unwrap().exit, 0);
}

#[test]
fn a_step_follows_the_ancestor_or_the_parent() {
    let stats = chain(&[(10, 20), (20, 30)]);
    assert_eq!(climb_one_step(20, &stats, &no_parent), 30);
    assert_eq!(climb_one_step(99, &stats, &no_parent), 1);
    assert_eq!(climb_one_step(99, &stats, &|pid| Some(pid + 1)), 100);
    assert_eq!(climb_one_step(99, &stats, &|_| Some(0)), 1);
}

#[test]
fn a_climb_ends_at_init_or_at_the_game() {
    let stats = chain(&[(10, 20), (20, 30), (30, 40)]);
    let parents = |pid: i32| if pid == 40 { Some(50) } else { Some(1) };
    assert_eq!(climb_to_root(10, &stats, 0, &parents), 1);
    assert_eq!(climb_to_root(10, &stats, 50, &parents), 50);
    assert_eq!(climb_to_root(10, &stats, 30, &parents), 30);
    assert_eq!(climb_to_root(50, &stats, 50, &parents), 50);
}

#[test]
fn a_cycle_of_ancestors_ends_at_init() {
    let stats = chain(&[(10, 20), (20, 10)]);
    assert_eq!(climb_to_root(10, &stats, 50, &no_parent), 1);
}

#[test]
fn a_classify_cycle_takes_one_step_each() {
    let mut stats = chain(&[(10, 20), (20, 30), (30, 1)]);
    let due = classify_in_order(&vec![10, 20, 30], &mut stats, 1, 0, &no_parent);
    assert_eq!(due, vec![10, 20, 30]);
    assert_eq!((ancestor(&stats, 10), ancestor(&stats, 20)), (30, 1));
    let due = classify_in_order(&vec![10, 20, 30], &mut stats, 1, 0, &no_parent);
    assert!(due.is_empty());
    assert_eq!(ancestor(&stats, 10), 1);
}

#[test]
fn a_converged_task_stays() {
    let mut stats = chain(&[(10, 60), (60, 5)]);
    classify_in_order(&vec![10], &mut stats, 1, 60, &no_parent);
    assert_eq!(ancestor(&stats, 10), 60);
}

#[test]
fn a_deep_chain_converges_in_as_many_cycles() {
    let mut stats = chain(&[(10, 11), (11, 12), (12, 13), (13, 14), (14, 60)]);
    for _ in 0..5 {
        classify_tasks(&mut stats, 1, 60, &no_parent);
    }
    for tid in 10..15 {
        assert_eq!(ancestor(&stats, tid), 60);
    }
}

#[test]
fn exited_and_quiet_tasks_are_left_out() {
    let mut stats = chain(&[(10, 20), (11, 20), (11, 20)]);
    let mut tracker = GameTracker::new();
    account(&mut stats, &mut tracker, &event(12, 20));
    account(&mut stats, &mut tracker, &event(12, 20));
    account(&mut stats, &mut tracker, &event(12, -1));
    assert_eq!(classify_tasks(&mut stats, 2, 0, &no_parent), vec![11]);
    assert_eq!((ancestor(&stats, 10), ancestor(&stats, 11)), (20, 1));
    assert_eq!(collect_tasks(&mut stats, 2, 0, &no_parent), vec![11]);
}

#[test]
fn collecting_climbs_all_the_way() {
    let mut stats = chain(&[(10, 20), (20, 30), (30, 60)]);
    assert_eq!(collect_in_order(&vec![20, 10], &mut stats, 1, 60, &no_parent), vec![20, 10]);
    assert_eq!((ancestor(&stats, 10), ancestor(&stats, 20)), (60, 60));
    assert_eq!(collect_in_order(&vec![10, 99], &mut stats, 1, 60, &no_parent), vec![10]);
}

#[test]
fn status_fields_are_found_by_name() {
    let status = Some("Name:\tx\nTgid:\t42\nPPid:\t 7 \nTgid:\t9\n".to_string());
    assert_eq!(read_proc_field(&status, "Tgid"), Some(42));
    assert_eq!(read_proc_field(&status, "PPid"), Some(7));
    assert_eq!(read_proc_field(&status, "Name"), None);
    assert_eq!(read_proc_field(&status, "Pid"), None);
    assert_eq!(read_proc_field(&status, "Tg"), None);
    assert_eq!(read_proc_field(&None, "Tgid"), None);
    assert_eq!(read_proc_field(&Some("Tgid:\t3\r\n".to_string()), "Tgid"), Some(3));
}

#[test]
fn the_comm_is_trimmed() {
    assert_eq!(read_proc_comm(&Some("a b\n".to_string())), "a b");
    assert_eq!(read_proc_comm(&None), "");
}

#[test]
fn the_header_names_the_columns() {
    assert_eq!(
        csv_header(),
        "tid,tgid,ancestor,comm,runtime_cv,avg_sleep_ms,sleep_cv,yield_ratio,sleep_ratio,\
         runnable_stop_ratio"
    );
}

#[test]
fn a_row_has_as_many_cells_as_the_header() {
    let values: Vec<String> = ["0.5", "NaN", "0", "1", "2", "3"].map(String::from).to_vec();
    let row = task_csv_row(-7, Some(8), 1, "a b", &values);
    assert_eq!(row, "-7,8,1,a b,0.5,NaN,0,1,2,3");
    assert_eq!(row.split(',').count(), csv_header().split(',').count());
    assert_eq!(task_csv_row(7, None, 60, "", &values), "7,,60,,0.5,NaN,0,1,2,3");
}

#[test]
fn a_table_is_header_and_rows() {
    let rows = vec![(1, "x".to_string()), (2, "y".to_string())];
    assert_eq!(csv_document(&rows), format!("{}\nx\ny\n", csv_header()));
    assert_eq!(csv_document(&vec![]), format!("{}\n", csv_header()));
}

#[test]
fn rows_describe_the_eligible_tasks() {
    let mut stats = chain(&[(10, 20), (20, 60), (20, 60)]);
    let rows = collect_data(
        &mut stats,
        2,
        60,
        &no_parent,
        &|tid| Some(format!("Tgid:\t{}\n", tid + 1)),
        &|_| Some("game\n".to_string()),
        &|ts: TaskStats<f64>| vec![ts.event_count.to_string(), "x".to_string()],
    );
    assert_eq!(rows, vec![(20, "20,21,60,game,2,x".to_string())]);
}
