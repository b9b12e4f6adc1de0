use scx_teddy::classifier::{
    algorithm_of, load_model, nearest_cluster, Algorithm, KMeansClassifier, KMeansModel,
    KMeansScaler, ModelError, FARTHEST,
};
use scx_teddy::sched::{
    avg_per_task_ns, plan_tasks, plan_tasks_in, run_classify_cycle, update_for, validate_config_kinds,
    ClusterSchedConfig, SchedConfig, SliceConfig, TaskSnapshot,
};
use scx_teddy::stats_map::{account_event, StatsMap};
use scx_teddy::task_stats::{TaskEvent, TaskStats};
use scx_teddy::tracker::GameTracker;
use scx_teddy::wire::{
    bytes_of_u32, bytes_of_u64, encode_sched_info, machine_order, task_key, ByteOrder,
};

fn model(centroids: Vec<Vec<f64>>) -> KMeansModel<f64> {
    KMeansModel {
        n_clusters: centroids.len(),
        centroids,
        scaler: KMeansScaler { mean: vec![1.0, 2.0], std: vec![2.0, 0.0] },
    }
}

fn scale(x: f64, m: f64, s: f64) -> f64 {
    if s != 0.0 {
        (x - m) / s
    } else {
        0.0
    }
}

fn rank(a: &Vec<f64>, b: &Vec<f64>) -> u64 {
    let d: f64 = a.iter().zip(b).map(|(x, y)| (x - y) * (x - y)).sum();
    if d < f64::MAX {
        (d + 0.0).to_bits()
    } else {
        FARTHEST
    }
}

fn fixed(prio: i32, cpu_kind: u8, slice_ns: u64) -> ClusterSchedConfig<f64> {
    ClusterSchedConfig { prio, cpu_kind, cpu_prefer: 2, slice: SliceConfig::Fixed { slice_ns } }
}

fn event(tid: i32, runtime_ns: u64) -> TaskEvent {
    TaskEvent {
        tid,
        parent: 1,
        sleep_start: 0,
        sleep_end: 0,
        runtime_ns,
        yield_cnt: 0,
        runnable_stop_cnt: 0,
        stop_cnt: 1,
    }
}

fn stats_of(events: &[TaskEvent]) -> StatsMap<u64> {
    let mut stats = StatsMap::new();
    let mut tracker = GameTracker::new();
    for e in events {
        account_event(e, &mut stats, &mut tracker, 0u64, |sum, _| sum);
    }
    stats
}

#[test]
fn the_first_of_the_nearest_wins() {
    assert_eq!(nearest_cluster(&vec![5, 3, 9, 3]), 1);
    assert_eq!(nearest_cluster(&vec![FARTHEST, FARTHEST - 1]), 1);
    assert_eq!(nearest_cluster(&vec![FARTHEST, FARTHEST]), 0);
    assert_eq!(nearest_cluster(&vec![]), 0);
    assert_eq!(nearest_cluster(&vec![0, 0]), 0);
}

#[test]
fn features_are_standardized_one_by_one() {
    let c = KMeansClassifier::from_model(model(vec![])).unwrap();
    assert_eq!(c.standardize(&vec![5.0, 7.0, 9.0], scale), vec![2.0, 0.0]);
    assert_eq!(c.standardize(&vec![5.0], scale), vec![2.0]);
}

#[test]
fn prediction_takes_the_nearest_centroid() {
    let c = KMeansClassifier::from_model(model(vec![
        vec![0.0, 0.0],
        vec![2.0, 0.0],
        vec![10.0, 0.0],
    ]))
    .unwrap();
    assert_eq!(c.n_clusters(), 3);
    assert_eq!(c.predict(&vec![1.0, 0.0], scale, rank), 0);
    assert_eq!(c.predict(&vec![5.5, 0.0], scale, rank), 1);
    assert_eq!(c.predict(&vec![100.0, 0.0], scale, rank), 2);
    assert_eq!(c.predict(&vec![f64::NAN, 0.0], scale, rank), 0);
    assert_eq!(c.predict(&vec![f64::INFINITY, 0.0], scale, rank), 0);
}

#[test]
fn an_empty_feature_vector_is_nearest_to_all() {
    let c = KMeansClassifier::from_model(model(vec![vec![3.0], vec![0.0]])).unwrap();
    assert_eq!(c.predict(&vec![], scale, rank), 0);
}

#[test]
fn models_have_to_fit_together() {
    let mut m = model(vec![vec![0.0]]);
    m.n_clusters = 4;
    let e = KMeansClassifier::from_model(m).unwrap_err();
    assert!(matches!(e, ModelError::CentroidCount { centroids: 1, n_clusters: 4 }));
    assert_eq!(e.message(), "Centroid count (1) does not match n_clusters (4)");
    let mut m = model(vec![]);
    m.scaler.std.pop();
    let e = KMeansClassifier::from_model(m).unwrap_err();
    assert!(matches!(e, ModelError::ScalerLength));
    assert_eq!(e.message(), "Scaler mean/std length mismatch");
}

#[test]
fn algorithms_are_dispatched_by_name() {
    assert!(matches!(algorithm_of(Some("kmeans".to_string())), Ok(Algorithm::KMeans)));
    assert!(matches!(algorithm_of(None), Err(ModelError::MissingAlgorithm)));
    let e = algorithm_of(Some("KMeans".to_string())).unwrap_err();
    assert_eq!(e.message(), "Unsupported algorithm: KMeans");
}

fn parse(content: &str) -> Result<KMeansModel<f64>, serde_json::Error> {
    let raw: serde_json::Value = serde_json::from_str(content)?;
    let n_clusters: usize = serde_json::from_value(raw["n_clusters"].clone())?;
    let centroids: Vec<Vec<f64>> = serde_json::from_value(raw["centroids"].clone())?;
    let mean: Vec<f64> = serde_json::from_value(raw["mean"].clone())?;
    let std: Vec<f64> = serde_json::from_value(raw["std"].clone())?;
    Ok(KMeansModel { n_clusters, centroids, scaler: KMeansScaler { mean, std } })
}

#[test]
fn a_model_is_loaded_from_json() {
    let text = r#"{"algorithm": "kmeans", "n_clusters": 1, "centroids": [[0.5]],
        "mean": [1.0], "std": [2.0]}"#;
    let c = load_model(text, parse).unwrap();
    assert_eq!((c.n_clusters, c.centroids, c.mean, c.std), (1, vec![vec![0.5]], vec![1.0], vec![2.0]));
}

#[test]
fn what_is_no_json_is_no_model() {
    let e = load_model("{", parse).unwrap_err();
    assert!(matches!(e, ModelError::Json { .. }));
    assert_eq!(e.message(), "Failed to parse model JSON");
}

#[test]
fn a_model_names_its_algorithm() {
    for text in ["{}", "[]", "3", r#"{"algorithm": 7}"#, r#"{"algorithm": null}"#] {
        let e = load_model(text, parse).unwrap_err();
        assert!(matches!(e, ModelError::MissingAlgorithm), "{text}");
        assert_eq!(e.message(), "Missing 'algorithm' field in model JSON");
    }
    let e = load_model(r#"{"algorithm": "knn", "x": "kmeans"}"#, parse).unwrap_err();
    assert_eq!(e.message(), "Unsupported algorithm: knn");
}

#[test]
fn a_kmeans_model_has_to_be_one() {
    let e = load_model(r#"{"algorithm": "kmeans"}"#, parse).unwrap_err();
    assert!(matches!(e, ModelError::KMeans { .. }));
    assert_eq!(e.message(), "Failed to parse KMeans model");
    let text = r#"{"algorithm": "kmeans", "n_clusters": 2, "centroids": [], "mean": [], "std": []}"#;
    let e = load_model(text, parse).unwrap_err();
    assert_eq!(e.message(), "Centroid count (0) does not match n_clusters (2)");
}

#[test]
fn clusters_without_parameters_get_the_default_ones() {
    let mut cfg = SchedConfig::new(fixed(3, 0, 1));
    cfg.insert("0".to_string(), fixed(0, 1, 2));
    cfg.insert("12".to_string(), fixed(1, 2, 3));
    cfg.insert("0".to_string(), fixed(2, 1, 4));
    assert_eq!(cfg.for_cluster(0).prio, 2);
    assert_eq!(cfg.for_cluster(12).prio, 1);
    assert_eq!(cfg.for_cluster(1).prio, 3);
    assert!(cfg.get("00").is_none());
}

#[test]
fn bindings_to_missing_kinds_are_refused() {
    let mut cfg = SchedConfig::new(fixed(3, 2, 1));
    cfg.insert("a".to_string(), fixed(0, 9, 2));
    assert_eq!(
        validate_config_kinds(&cfg, 1).unwrap_err().message(),
        "config default: cpu_kind=2 exceeds this machine's 1 kind(s) (valid: 0=shared, 1..=1)"
    );
    assert_eq!(
        validate_config_kinds(&cfg, 2).unwrap_err().message(),
        "config cluster a: cpu_kind=9 exceeds this machine's 2 kind(s) (valid: 0=shared, 1..=2)"
    );
    assert!(validate_config_kinds(&cfg, 9).is_ok());
    cfg.insert("a".to_string(), fixed(0, 0, 2));
    assert!(validate_config_kinds(&cfg, 2).is_ok());
}

#[test]
fn slices_are_fixed_or_adaptive() {
    let ts = TaskStats::new(1, 0u64);
    let adaptive = ClusterSchedConfig {
        prio: 0,
        cpu_kind: 0,
        cpu_prefer: 0,
        slice: SliceConfig::Adaptive { slice_sigma: 2.0 },
    };
    assert_eq!(fixed(0, 0, 5).compute_slice_ns(ts, &|_, _| 77), 5);
    assert_eq!(adaptive.compute_slice_ns(ts, &|_, sigma: f64| (sigma * 3000.0) as u64), 6000);
    assert_eq!(adaptive.compute_slice_ns(ts, &|_, _| 999), 1000);
    assert_eq!(adaptive.compute_slice_ns(ts, &|_, _| 1001), 1001);
}

#[test]
fn parameters_are_laid_out_for_the_kernel() {
    let slice = 0x0102_0304_0506_0708;
    let little = encode_sched_info(-2, 3, 1, slice, ByteOrder::Little);
    assert_eq!(little, [0xfe, 0xff, 0xff, 0xff, 3, 1, 0, 0, 8, 7, 6, 5, 4, 3, 2, 1]);
    let big = encode_sched_info(-2, 3, 1, slice, ByteOrder::Big);
    assert_eq!(big, [0xff, 0xff, 0xff, 0xfe, 3, 1, 0, 0, 1, 2, 3, 4, 5, 6, 7, 8]);
    assert_eq!(task_key(-77, ByteOrder::Little), (-77i32).to_le_bytes());
    assert_eq!(task_key(i32::MIN, ByteOrder::Big), i32::MIN.to_be_bytes());
}

#[test]
fn numbers_become_bytes_as_in_the_standard_library() {
    for n in [0, 1, 0xff, 0x100, 0x0102_0304_0506_0708, u64::MAX] {
        assert_eq!(bytes_of_u64(n, ByteOrder::Little), n.to_le_bytes());
        assert_eq!(bytes_of_u64(n, ByteOrder::Big), n.to_be_bytes());
        assert_eq!(bytes_of_u32(n as u32, ByteOrder::Little), (n as u32).to_le_bytes());
        assert_eq!(bytes_of_u32(n as u32, ByteOrder::Big), (n as u32).to_be_bytes());
    }
}

#[test]
fn updates_are_in_the_order_of_the_machine() {
    let stats = stats_of(&[event(7, 10)]);
    let cfg = SchedConfig::new(fixed(-3, 1, 0x1234));
    let report = plan_tasks(&vec![7], &stats, &cfg, 1, &|_| 0, &|_, _| 0);
    assert_eq!(report.updates[0].key, 7i32.to_ne_bytes());
    assert_eq!(report.updates[0].value[0..4], (-3i32).to_ne_bytes());
    assert_eq!(report.updates[0].value[8..16], 0x1234u64.to_ne_bytes());
    let u = update_for(&report.snapshot[0], ByteOrder::Big);
    assert_eq!((u.key, u.value[15]), ([0, 0, 0, 7], 0x34));
    for order in [ByteOrder::Little, ByteOrder::Big] {
        let report = plan_tasks_in(&vec![7], &stats, &cfg, 1, &|_| 0, &|_, _| 0, order);
        assert_eq!(report.updates[0].value, encode_sched_info(-3, 1, 2, 0x1234, order));
        assert_eq!(report.updates[0].key, task_key(7, order));
    }
    let native = if 1u64.to_ne_bytes()[0] == 1 { ByteOrder::Little } else { ByteOrder::Big };
    assert_eq!(machine_order(), native);
}

#[test]
fn a_cycle_plans_the_due_tasks() {
    let stats = stats_of(&[event(7, 10), event(8, 20), event(9, 11)]);
    let mut cfg = SchedConfig::new(fixed(3, 0, 100));
    cfg.insert("1".to_string(), fixed(0, 1, 200));
    let predict = |ts: TaskStats<u64>| if ts.runtime_sum >= 20 { 1 } else { 0 };
    let report = plan_tasks(&vec![9, 8, 7], &stats, &cfg, 3, &predict, &|_, _| 0);
    assert_eq!(
        report.snapshot,
        vec![
            TaskSnapshot { tid: 9, cluster: 0, prio: 3, slice_ns: 100, cpu_kind: 0, cpu_prefer: 2 },
            TaskSnapshot { tid: 8, cluster: 1, prio: 0, slice_ns: 200, cpu_kind: 1, cpu_prefer: 2 },
            TaskSnapshot { tid: 7, cluster: 0, prio: 3, slice_ns: 100, cpu_kind: 0, cpu_prefer: 2 },
        ]
    );
    assert_eq!(report.cluster_tids, vec![vec![9, 7], vec![8], vec![]]);
    assert_eq!(report.updates.len(), 3);
    assert_eq!(report.updates[1].key, 8i32.to_ne_bytes());
    assert_eq!(report.updates[1].value[4..8], [1, 2, 0, 0]);
    assert_eq!(report.updates[1].value[8..16], 200u64.to_ne_bytes());
}

#[test]
fn only_tasks_with_news_are_predicted() {
    let mut stats = stats_of(&[event(7, 10), event(8, 20)]);
    let cfg = SchedConfig::new(fixed(3, 0, 100));
    let cycle = |stats: &mut StatsMap<u64>, min_events: u64| {
        run_classify_cycle(stats, &cfg, 1, min_events, 0, &|_| None, &|_| 0, &|_, _: f64| 0)
    };
    assert!(cycle(&mut stats, 2).snapshot.is_empty());
    let report = cycle(&mut stats, 1);
    assert_eq!(report.snapshot.len(), 2);
    assert_eq!(report.cluster_tids.iter().map(|t| t.len()).sum::<usize>(), 2);
    assert!(cycle(&mut stats, 1).snapshot.is_empty());
    account_event(&event(8, 1), &mut stats, &mut GameTracker::new(), 0, |sum, _| sum);
    let report = cycle(&mut stats, 1);
    assert_eq!(report.cluster_tids, vec![vec![8]]);
}

#[test]
fn the_average_is_per_task() {
    assert_eq!(avg_per_task_ns(7, 2), 3500);
    assert_eq!(avg_per_task_ns(7, 0), 0);
}
