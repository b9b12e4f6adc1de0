use scx_teddy::topology::{
    count_cpu_list, fallback_cpu_count, pack_topology, read_cpufreq, CpuInfo, CpuSysfs, PolicyDir,
    Rodata, Topology,
};

fn policy(name: &str, max: &str, cpus: &str) -> PolicyDir {
    PolicyDir {
        name: name.to_string(),
        max_freq: Some(max.to_string()),
        related_cpus: Some(cpus.to_string()),
    }
}

fn sysfs(policies: Vec<PolicyDir>, online: Option<&str>, entries: Option<Vec<&str>>) -> CpuSysfs {
    CpuSysfs {
        policies,
        online: online.map(String::from),
        entries: entries.map(|v| v.into_iter().map(String::from).collect()),
    }
}

fn ghz(khz: u32) -> String {
    format!("{:.2}", khz as f64 / 1_000_000.0)
}

fn hybrid() -> Topology {
    let machine = sysfs(
        vec![
            policy("policy4", "3900000\n", "4 5\n"),
            policy("policy0", "5100000\n", "0 1\n"),
            policy("policy2", "5100000\n", "2\n"),
        ],
        Some("0-7"),
        None,
    );
    assert!(machine.check());
    Topology::discover(&machine)
}

#[test]
fn policies_give_each_cpu_its_frequency() {
    let freqs = read_cpufreq(&vec![
        policy("policy0", " 100 \n", "0 1 x +2 -3"),
        policy("other", "900", "7"),
        policy("policy9", "nonsense", "8"),
        PolicyDir { name: "policy1".to_string(), max_freq: None, related_cpus: Some("9".into()) },
        PolicyDir { name: "policy2".to_string(), max_freq: Some("5".into()), related_cpus: None },
        policy("policy3", "200", "1"),
    ]);
    let pairs: Vec<(u32, u32)> = freqs.into_iter().collect();
    assert_eq!(pairs, vec![(0, 100), (1, 200), (2, 100)]);
}

#[test]
fn kinds_are_numbered_fastest_first() {
    let t = hybrid();
    assert_eq!((t.cpu_num, t.cpu_kind_num), (5, 2));
    assert_eq!(t.cpus_fast_to_slow, vec![0, 1, 2, 4, 5]);
    assert_eq!(t.cpus_slow_to_fast, vec![5, 4, 2, 1, 0]);
    assert_eq!(
        t.cpu_info,
        vec![
            CpuInfo { cpu_kind: 0, freq_n: 5_100_000, freq_d: 5_100_000 },
            CpuInfo { cpu_kind: 0, freq_n: 5_100_000, freq_d: 5_100_000 },
            CpuInfo { cpu_kind: 0, freq_n: 5_100_000, freq_d: 5_100_000 },
            CpuInfo::default(),
            CpuInfo { cpu_kind: 1, freq_n: 3_900_000, freq_d: 5_100_000 },
            CpuInfo { cpu_kind: 1, freq_n: 3_900_000, freq_d: 5_100_000 },
        ]
    );
}

#[test]
fn three_tiers_are_ordered_by_frequency() {
    let t = Topology::discover(&sysfs(
        vec![
            policy("policy0", "1800", "0 1"),
            policy("policy2", "2800", "2 3"),
            policy("policy4", "2400", "4"),
        ],
        None,
        None,
    ));
    assert_eq!(t.cpus_fast_to_slow, vec![2, 3, 4, 0, 1]);
    let kinds: Vec<u8> = t.cpu_info.iter().map(|c| c.cpu_kind).collect();
    assert_eq!(kinds, vec![2, 2, 0, 0, 1]);
}

#[test]
fn normalising_shortens_slow_runtimes() {
    let t = hybrid();
    let normalised = |cpu: usize, ns: u64| {
        ns * t.cpu_info[cpu].freq_n as u64 / t.cpu_info[cpu].freq_d as u64
    };
    assert_eq!(normalised(0, 1_000_000), 1_000_000);
    assert_eq!(normalised(4, 5_100_000), 3_900_000);
}

#[test]
fn without_cpufreq_there_is_one_kind() {
    let t = Topology::discover(&sysfs(vec![], Some("0-2\n"), None));
    assert_eq!((t.cpu_num, t.cpu_kind_num), (3, 1));
    assert_eq!(t.cpus_fast_to_slow, vec![0, 1, 2]);
    assert_eq!(t.cpus_slow_to_fast, vec![2, 1, 0]);
    assert_eq!(t.cpu_info, vec![CpuInfo { cpu_kind: 0, freq_n: 1, freq_d: 1 }; 3]);
}

#[test]
fn the_fallback_is_usable_on_any_number_of_cpus() {
    for (online, n, entries) in [
        ("0", 1, 1),
        ("0-254", 255, 255),
        ("0-255", 255, 256),
        ("0-299", 255, 300),
        ("0-511", 255, 512),
        ("0-9999", 255, 512),
    ] {
        let t = Topology::discover(&sysfs(vec![], Some(online), None));
        assert_eq!((t.cpu_num as usize, t.cpu_kind_num), (n, 1));
        let ids: Vec<u8> = (0..n as u8).collect();
        assert_eq!(t.cpus_fast_to_slow, ids);
        assert_eq!(t.cpus_slow_to_fast, ids.into_iter().rev().collect::<Vec<u8>>());
        assert_eq!(t.cpu_info, vec![CpuInfo { cpu_kind: 0, freq_n: 1, freq_d: 1 }; entries]);
    }
}

#[test]
fn the_count_stops_at_what_a_byte_holds() {
    let ids = |top: u32| (0..top).map(|i| i.to_string()).collect::<Vec<_>>().join(" ");
    let t = Topology::discover(&sysfs(vec![policy("policy0", "7", &ids(256))], None, None));
    assert_eq!((t.cpu_num, t.cpu_kind_num), (255, 1));
    assert_eq!(t.cpus_fast_to_slow, (0..=255).collect::<Vec<u8>>());
    assert_eq!(t.cpus_slow_to_fast, (0..=255).rev().collect::<Vec<u8>>());
    assert_eq!(t.cpu_info.len(), 256);
}

#[test]
fn more_frequencies_than_kinds_share_the_last_kind() {
    let policies =
        (0..258u32).map(|i| policy("policy", &(1000 - i).to_string(), &i.to_string())).collect();
    let t = Topology::discover(&sysfs(policies, None, None));
    assert_eq!((t.cpu_num, t.cpu_kind_num), (255, 255));
    let kinds: Vec<u8> = t.cpu_info.iter().map(|c| c.cpu_kind).collect();
    assert_eq!((kinds[0], kinds[254], kinds[255], kinds[256], kinds[257]), (0, 254, 255, 255, 255));
}

#[test]
fn cpu_lists_are_counted() {
    assert_eq!(count_cpu_list("0-19"), Some(20));
    assert_eq!(count_cpu_list(" 0,2-5\n"), Some(5));
    assert_eq!(count_cpu_list("x,3,4-,5-6-7"), Some(1));
    assert_eq!(count_cpu_list(""), Some(0));
    assert_eq!(count_cpu_list("5-2"), None);
    assert_eq!(count_cpu_list("0-4294967295"), None);
    assert_eq!(count_cpu_list("1-4294967295"), Some(u32::MAX));
}

#[test]
fn the_count_falls_back_to_the_directory() {
    assert_eq!(fallback_cpu_count(&sysfs(vec![], Some("0-3"), Some(vec!["cpu0"]))), 4);
    let names = vec!["cpu0", "cpu11", "cpu", "cpufreq", "cpu1x", "online"];
    assert_eq!(fallback_cpu_count(&sysfs(vec![], None, Some(names))), 2);
    assert_eq!(fallback_cpu_count(&sysfs(vec![], None, None)), 1);
    assert_eq!(fallback_cpu_count(&sysfs(vec![], None, Some(vec!["cpufreq"]))), 1);
    assert_eq!(fallback_cpu_count(&sysfs(vec![], Some(""), None)), 1);
}

#[test]
fn backward_ranges_are_told_beforehand() {
    assert!(!sysfs(vec![], Some("5-2"), None).check());
    assert!(sysfs(vec![policy("policy0", "1", "0")], Some("5-2"), None).check());
}

#[test]
fn the_summary_lists_the_kinds() {
    assert_eq!(
        hybrid().summary(ghz),
        "5 CPUs, 2 kind(s): kind0 (5.10GHz, 3 cpus), kind1 (3.90GHz, 2 cpus)"
    );
    assert_eq!(
        Topology::single_kind(4).summary(ghz),
        "4 CPUs, 1 kind(s): kind0 (0.00GHz, 4 cpus)"
    );
}

#[test]
fn groups_hold_the_cpus_of_a_kind() {
    let groups = hybrid().kind_groups();
    assert_eq!(groups.len(), 2);
    assert_eq!((groups[0].kind, groups[0].khz, groups[0].cpus.clone()), (0, 5_100_000, vec![0, 1, 2]));
    assert_eq!((groups[1].kind, groups[1].khz, groups[1].cpus.clone()), (1, 3_900_000, vec![4, 5]));
}

#[test]
fn packing_fills_a_prefix_of_the_tables() {
    let mut rodata = Rodata {
        cpu_num: 0,
        cpu_kind_num: 0,
        cpus_fast_to_slow: [9; 512],
        cpus_slow_to_fast: [9; 512],
        cpu_info: [CpuInfo::default(); 512],
    };
    pack_topology(&mut rodata, &hybrid());
    assert_eq!((rodata.cpu_num, rodata.cpu_kind_num), (5, 2));
    assert_eq!(rodata.cpus_fast_to_slow[..6], [0, 1, 2, 4, 5, 9]);
    assert_eq!(rodata.cpus_slow_to_fast[..6], [5, 4, 2, 1, 0, 9]);
    assert_eq!(rodata.cpu_info[4].cpu_kind, 1);
    assert_eq!(rodata.cpu_info[6], CpuInfo::default());
}
