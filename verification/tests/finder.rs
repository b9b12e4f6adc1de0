use scx_teddy::game_task_finder::{
    children_of, get_ppid, normalize, parse_assignment, parse_stat, pid_entries, read_environ,
    read_field, scan_by_game_name, steam_scan_proc, Match, ProcRecord,
};

fn process(pid: i32, ppid: i32, comm: &str, environ: &str) -> ProcRecord {
    ProcRecord {
        pid,
        stat: Some(format!("{pid} ({comm}) S {ppid} 1 1 0").into_bytes()),
        comm: Some(format!("{comm}\n").into_bytes()),
        environ: Some(environ.replace(';', "\0").into_bytes()),
    }
}

fn found(m: &Match) -> (i32, Vec<(i32, String)>) {
    (m.ppid, m.procs.iter().map(|p| (p.pid, p.comm.clone())).collect())
}

fn proton() -> Vec<ProcRecord> {
    vec![
        process(1, 0, "systemd", "PATH=/bin;"),
        process(50, 1, "reaper", "SteamGameId=42;"),
        process(60, 50, "pv-adverb", "SteamGameId=42;"),
        process(70, 60, "armoredcore6.exe", "HOME=/root;SteamGameId=42;"),
        process(71, 60, "services.exe", "SteamGameId=42;"),
        process(72, 70, "Helper Thread", "X=1;"),
    ]
}

#[test]
fn the_environment_is_split_at_nul_and_equals() {
    let env = read_environ(&Some(b"A=1\0\0B=x=y\0junk\0C=\0".to_vec()));
    assert!(env.contains_key("A"));
    assert!(env.contains_key("B"));
    assert!(env.contains_key("C"));
    assert!(!env.contains_key("junk"));
    assert!(!env.contains_key(""));
    assert!(!read_environ(&None).contains_key("A"));
}

#[test]
fn bytes_that_are_no_utf8_are_replaced() {
    let env = read_environ(&Some(b"K\xff=v\0".to_vec()));
    assert!(env.contains_key("K\u{fffd}"));
    assert_eq!(read_field(&Some(b"a\xffb\n".to_vec())), "a\u{fffd}b");
}

#[test]
fn assignments_split_at_the_first_equals() {
    assert_eq!(parse_assignment("B=x=y"), Some(("B".to_string(), "x=y".to_string())));
    assert_eq!(parse_assignment("=v"), Some((String::new(), "v".to_string())));
    assert_eq!(parse_assignment("novalue"), None);
}

#[test]
fn a_field_has_nul_as_space_and_no_margins() {
    assert_eq!(read_field(&Some(b"game\0--fast\0\n".to_vec())), "game --fast");
    assert_eq!(read_field(&None), "");
}

#[test]
fn the_parent_stands_behind_the_last_parenthesis() {
    assert_eq!(parse_stat("7 (a) b) (c) S 42 7 7"), 42);
    assert_eq!(parse_stat("7 (x) S -1 7"), -1);
    assert_eq!(parse_stat("7 (x) S"), 0);
    assert_eq!(parse_stat("7 (x) S ppid"), 0);
    assert_eq!(parse_stat("S 9"), 9);
    assert_eq!(get_ppid(&Some(b"7 (x) R 5 0".to_vec())), 5);
    assert_eq!(get_ppid(&None), 0);
}

#[test]
fn normalisation_drops_whitespace_and_case() {
    assert_eq!(normalize(" Armored Core\t6 "), "armoredcore6");
    assert_eq!(normalize("ÄÖ"), "äö");
    assert_eq!(normalize("İ"), "i\u{307}");
    assert_eq!(normalize("a b"), normalize("ab"));
    assert_eq!(normalize(" \u{3000}"), "");
}

#[test]
fn normalising_twice_is_normalising_once() {
    for name in [" Armored Core\t6 ", "ÄÖ x", "İ", "ΑΣ", "", "\u{85}Q\u{a0}"] {
        let once = normalize(name);
        assert_eq!(normalize(&once), once);
        assert!(!once.chars().any(char::is_whitespace));
    }
    assert_eq!(normalize("Ab c") + &normalize(" D\ne"), normalize("Ab c D\ne"));
}

#[test]
fn only_numeric_entries_are_processes() {
    let names: Vec<String> =
        ["1", "self", "42", "4x", "-3", ""].iter().map(|s| s.to_string()).collect();
    assert_eq!(pid_entries(&names), vec![1, 42, -3]);
}

#[test]
fn children_share_the_parent() {
    let children = children_of(60, &proton());
    let names: Vec<(i32, &str)> = children.iter().map(|c| (c.pid, c.comm.as_str())).collect();
    assert_eq!(names, vec![(70, "armoredcore6.exe"), (71, "services.exe")]);
    assert!(children_of(9, &proton()).is_empty());
}

#[test]
fn a_name_finds_the_family() {
    let m = scan_by_game_name(" Armored Core6.EXE", &proton()).unwrap();
    assert_eq!(
        found(&m),
        (60, vec![(70, "armoredcore6.exe".to_string()), (71, "services.exe".to_string())])
    );
    assert!(scan_by_game_name("nothing", &proton()).is_none());
}

#[test]
fn a_name_matches_whole_comms_only() {
    assert!(scan_by_game_name("armoredcore6", &proton()).is_none());
    let m = scan_by_game_name("helperthread", &proton()).unwrap();
    assert_eq!(found(&m), (70, vec![(72, "Helper Thread".to_string())]));
}

#[test]
fn the_steam_scan_skips_infrastructure() {
    let m = steam_scan_proc(&proton()).unwrap();
    assert_eq!(m.ppid, 60);
    assert!(m.procs.iter().any(|p| p.pid == 70));
}

#[test]
fn the_older_steam_variable_counts_too() {
    let procs = vec![process(5, 4, "game", "STEAM_GAME=1;"), process(6, 4, "x", "")];
    let m = steam_scan_proc(&procs).unwrap();
    assert_eq!(found(&m), (4, vec![(5, "game".to_string()), (6, "x".to_string())]));
}

#[test]
fn every_infrastructure_process_is_skipped() {
    for comm in ["reaper", "srt-bwrap", "pv-adverb", "steam.exe"] {
        assert!(steam_scan_proc(&vec![process(5, 4, comm, "SteamGameId=1;")]).is_none());
    }
    assert!(steam_scan_proc(&vec![process(5, 4, "Reaper", "SteamGameId=1;")]).is_some());
}

#[test]
fn processes_without_a_steam_id_are_no_games() {
    let procs = vec![
        process(5, 4, "game", "SteamGameIdX=1;"),
        ProcRecord { pid: 6, stat: None, comm: None, environ: None },
    ];
    assert!(steam_scan_proc(&procs).is_none());
}

#[test]
fn the_first_of_several_games_is_taken() {
    let procs = vec![
        process(9, 8, "second.exe", "SteamGameId=2;"),
        process(5, 4, "first.exe", "SteamGameId=1;"),
    ];
    assert_eq!(steam_scan_proc(&procs).unwrap().ppid, 8);
}
