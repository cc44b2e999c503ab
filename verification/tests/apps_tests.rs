use diarization::apps::{
    build_recordable_apps, friendly_name_from_lowercase, get_friendly_name,
    is_system_name_lowercase, is_system_process, list_recordable_apps, select_pid_by_name,
    select_pid_for_app, select_pid_for_file_name, sort_recordable_apps, ProcessListing,
    RecordableApp, RunningProcess,
};
use diarization::order::lex_less;
use std::collections::HashSet;

fn pids(v: &[u32]) -> HashSet<u32> {
    v.iter().copied().collect()
}

fn proc_(pid: u32, name: &str, parent: Option<u32>) -> RunningProcess {
    RunningProcess { pid, name: name.to_string(), exe_file_name: None, parent_pid: parent }
}

#[test]
fn system_processes() {
    assert!(is_system_process("SVCHOST.EXE"));
    assert!(!is_system_process("svchost"));
    assert!(is_system_process("launchd.exe"));
    assert!(is_system_process("Finder"));
    assert!(is_system_process("Memory Compression"));
    assert!(!is_system_process("Zoom.exe"));
}

#[test]
fn friendly_names() {
    assert_eq!(get_friendly_name("Zoom.exe"), "Zoom Workplace");
    assert_eq!(get_friendly_name("ms-teams.exe"), "Microsoft Teams");
    assert_eq!(get_friendly_name("OBS64.EXE"), "OBS Studio");
    assert_eq!(get_friendly_name("myapp.exe"), "Myapp");
    assert_eq!(get_friendly_name("ÉCRAN"), "Écran");
    assert_eq!(get_friendly_name(".exe"), ".exe");
    assert_eq!(get_friendly_name(""), "");
}

#[test]
fn code_point_order() {
    assert!(lex_less("abc", "abd"));
    assert!(lex_less("ab", "abc"));
    assert!(!lex_less("abc", "abc"));
    assert!(!lex_less("b", "abc"));
}

#[test]
fn apps_listed_audio_first_then_by_name() {
    let procs = vec![
        proc_(1, "svchost.exe", None),
        proc_(2, "slack.exe", None),
        proc_(3, "Zoom.exe", None),
        proc_(4, "chrome.exe", None),
        proc_(5, "chrome.exe", None),
        proc_(6, "ZOOM.exe", None),
    ];
    let apps = build_recordable_apps(&procs, &pids(&[5]));
    let names: Vec<&str> = apps.iter().map(|a| a.name.as_str()).collect();
    assert_eq!(names, vec!["Google Chrome", "Slack", "Zoom Workplace"]);
    assert!(apps[0].has_audio);
    assert_eq!(apps[0].pid, Some(5));
    assert_eq!(apps[2].executable, "Zoom.exe");
    assert_eq!(apps[2].id, "Zoom.exe");
    assert!(apps[2].icon.is_none());
}

#[test]
fn equal_names_keep_process_order() {
    let procs = vec![proc_(1, "zoomworkplace.exe", None), proc_(2, "zoom", None)];
    let apps = build_recordable_apps(&procs, &pids(&[]));
    assert_eq!(apps.len(), 2);
    assert_eq!(apps[0].executable, "zoomworkplace.exe");
    assert_eq!(apps[1].executable, "zoom");
}

#[test]
fn pid_prefers_audio_session() {
    let procs = vec![proc_(10, "zoom.exe", None), proc_(11, "Zoom.exe", Some(10))];
    assert_eq!(select_pid_by_name("zoom.exe", &procs, &pids(&[11])), Some(11));
}

#[test]
fn pid_prefers_tree_root() {
    let procs = vec![
        proc_(21, "chrome.exe", Some(20)),
        proc_(20, "chrome.exe", Some(1)),
        proc_(22, "other.exe", None),
    ];
    assert_eq!(select_pid_by_name("chrome", &procs, &pids(&[])), Some(20));
}

#[test]
fn pid_falls_back_to_first_candidate() {
    let procs = vec![proc_(31, "app", Some(32)), proc_(32, "app", Some(31))];
    assert_eq!(select_pid_by_name("app", &procs, &pids(&[])), Some(31));
    assert_eq!(select_pid_by_name("none", &procs, &pids(&[])), None);
}

#[test]
fn pid_by_executable_path() {
    let procs = vec![RunningProcess {
        pid: 40,
        name: "helper".to_string(),
        exe_file_name: Some("Teams.exe".to_string()),
        parent_pid: None,
    }];
    assert_eq!(select_pid_by_name("teams", &procs, &pids(&[])), Some(40));
    assert_eq!(select_pid_for_app("/opt/apps/TEAMS.EXE", &procs, &pids(&[])), Some(40));
}

#[test]
fn pid_for_known_file_name() {
    let procs = vec![proc_(50, "Slack.exe", None)];
    assert_eq!(select_pid_for_file_name(Some("SLACK.EXE"), "/x/SLACK.EXE", &procs, &pids(&[])), Some(50));
    assert_eq!(select_pid_for_file_name(None, "slack", &procs, &pids(&[])), Some(50));
    assert_eq!(select_pid_for_file_name(Some("teams.exe"), "slack", &procs, &pids(&[])), None);
}

fn listing(pid: u32, name: &str, system: bool, display: &str) -> ProcessListing {
    ProcessListing {
        pid,
        name: name.to_string(),
        name_lower: name.to_lowercase(),
        system,
        display_name: display.to_string(),
        display_key: display.to_lowercase(),
    }
}

fn app(exe: &str, has_audio: bool) -> RecordableApp {
    RecordableApp {
        id: exe.to_string(),
        name: exe.to_string(),
        executable: exe.to_string(),
        pid: Some(1),
        has_audio,
        icon: None,
    }
}

#[test]
fn pid_for_relative_path_uses_file_name() {
    let procs = vec![proc_(60, "zoom.exe", None), proc_(61, "dir", None)];
    assert_eq!(select_pid_for_app("dir/zoom.exe", &procs, &pids(&[])), Some(60));
    assert_eq!(select_pid_for_app("Zoom.exe", &procs, &pids(&[])), Some(60));
    assert_eq!(select_pid_for_app("apps/slack.exe", &procs, &pids(&[])), None);
}

#[test]
fn system_names_given_in_lowercase() {
    assert!(is_system_name_lowercase("svchost.exe"));
    assert!(!is_system_name_lowercase("svchost"));
    assert!(is_system_name_lowercase("finder"));
    assert!(!is_system_name_lowercase("SVCHOST.EXE"));
    assert!(!is_system_name_lowercase("zoom.exe"));
}

#[test]
fn friendly_names_from_lowercase_names() {
    assert_eq!(friendly_name_from_lowercase("Zoom.exe", "zoom.exe"), "Zoom Workplace");
    assert_eq!(friendly_name_from_lowercase("myapp.exe", "myapp.exe"), "Myapp");
    assert_eq!(friendly_name_from_lowercase("Slack.exe", "slack.exe"), "Slack");
}

#[test]
fn listings_skip_system_and_merge_audio() {
    let entries = vec![
        listing(1, "svchost.exe", true, "Svchost"),
        listing(2, "zoom.exe", false, "Zoom Workplace"),
        listing(3, "Zoom.exe", false, "Zoom Workplace"),
        listing(4, "Slack.exe", false, "Slack"),
    ];
    let apps = list_recordable_apps(&entries, &pids(&[3]));
    assert_eq!(apps.len(), 2);
    assert_eq!(apps[0].executable, "zoom.exe");
    assert!(apps[0].has_audio);
    assert_eq!(apps[0].pid, Some(3));
    assert_eq!(apps[1].executable, "Slack.exe");
    assert_eq!(apps[1].pid, Some(4));
    assert!(!apps[1].has_audio);
}

#[test]
fn sort_puts_audio_first_and_keeps_ties() {
    let apps = vec![app("b", false), app("a", false), app("c", true), app("a2", false)];
    let keys = vec!["b".to_string(), "a".to_string(), "c".to_string(), "a".to_string()];
    let sorted = sort_recordable_apps(apps, keys);
    let exes: Vec<&str> = sorted.iter().map(|a| a.executable.as_str()).collect();
    assert_eq!(exes, vec!["c", "a", "a2", "b"]);
}

#[test]
fn one_entry_per_executable() {
    let procs = vec![
        proc_(1, "Zoom.exe", None),
        proc_(2, "zoom.exe", None),
        proc_(3, "ZOOM.EXE", None),
        proc_(4, "launchd", None),
        proc_(5, "slack.exe", None),
    ];
    let apps = build_recordable_apps(&procs, &pids(&[]));
    let exes: Vec<String> = apps.iter().map(|a| a.executable.to_lowercase()).collect();
    assert_eq!(exes, vec!["slack.exe".to_string(), "zoom.exe".to_string()]);
    assert_eq!(apps[1].pid, Some(1));
    assert_eq!(apps[1].name, "Zoom Workplace");
}

#[test]
fn audio_flag_follows_any_process_of_the_executable() {
    let procs = vec![proc_(1, "zoom.exe", None), proc_(2, "Zoom.exe", None), proc_(3, "slack.exe", None)];
    let apps = build_recordable_apps(&procs, &pids(&[2]));
    assert_eq!(apps.len(), 2);
    assert_eq!(apps[0].executable, "zoom.exe");
    assert!(apps[0].has_audio);
    assert_eq!(apps[0].pid, Some(2));
    assert!(!apps[1].has_audio);
    assert_eq!(apps[1].pid, Some(3));
}

#[test]
fn pid_for_name_without_separators() {
    let procs = vec![proc_(70, "a.b.exe", None)];
    assert_eq!(select_pid_for_app("A.B.EXE", &procs, &pids(&[])), Some(70));
    assert_eq!(select_pid_for_app("tools/bin/a.b.exe/", &procs, &pids(&[])), Some(70));
}

#[test]
fn audio_flag_for_ascii_names() {
    let procs = vec![proc_(1, "Teams.exe", None), proc_(2, "TEAMS.EXE", None), proc_(3, "teams.exe", None)];
    let apps = build_recordable_apps(&procs, &pids(&[3]));
    assert_eq!(apps.len(), 1);
    assert!(apps[0].has_audio);
    assert_eq!(apps[0].pid, Some(3));
    assert_eq!(apps[0].executable, "Teams.exe");
}
