//! Which files hold the logs of sessions.
use openquota_codex::paths::{codex_homes, session_sources, PathPlan, PathRoot};
use openquota_codex::sessions::{
    discover_session_files, is_log, LogDirectory, LogEntry, LogPlace,
};
use std::path::{Path, PathBuf};
use tempfile::tempdir;

fn resolved(plan: &PathPlan, home: &Path) -> PathBuf {
    let mut path = match &plan.root {
        PathRoot::Home => home.to_path_buf(),
        PathRoot::Text(text) => PathBuf::from(text),
    };
    for part in &plan.parts {
        path = path.join(part);
    }
    path
}

fn all_resolved(plans: &[PathPlan], home: &Path) -> Vec<PathBuf> {
    plans.iter().map(|plan| resolved(plan, home)).collect()
}

fn entry(path: &str) -> LogEntry {
    let relative: Vec<Vec<u8>> = path
        .split('/')
        .map(|name| name.as_bytes().to_vec())
        .collect();
    let name = relative.last().cloned().unwrap_or_default();
    LogEntry { relative, name }
}

fn directory(path: &str, files: &[&str]) -> LogDirectory {
    LogDirectory {
        path: path.as_bytes().to_vec(),
        files: files.iter().map(|file| entry(file)).collect(),
    }
}

fn place(home: usize, directory: usize, file: usize) -> LogPlace {
    LogPlace {
        home,
        directory,
        file,
    }
}

#[test]
fn codex_home_override_supports_multiple_comma_separated_paths() {
    let directory = tempdir().unwrap();
    let default_home = directory.path().join("home");
    let first = directory.path().join("codex-work");
    let second = directory.path().join("codex-personal");
    let configured = format!("{}, {}", first.display(), second.display());

    assert_eq!(
        all_resolved(&codex_homes(Some(configured.as_ref())), &default_home),
        vec![first, second]
    );
    assert_eq!(
        all_resolved(&codex_homes(Some("~/.codex-alt")), &default_home),
        vec![default_home.join(".codex-alt")]
    );
    assert_eq!(
        all_resolved(&codex_homes(None), &default_home),
        vec![default_home.join(".codex")]
    );
    assert_eq!(
        all_resolved(&codex_homes(Some("  \t ")), &default_home),
        vec![default_home.join(".codex")]
    );
}

#[test]
fn a_setting_of_separators_lists_no_directories() {
    assert!(codex_homes(Some(" , ,")).is_empty());
    assert_eq!(
        all_resolved(&codex_homes(Some("")), Path::new("/home/me")),
        vec![Path::new("/home/me/.codex")]
    );
}

#[test]
fn active_sessions_win_over_matching_archived_paths() {
    let relative = "2026/07/rollout.jsonl";
    let homes = vec![vec![
        directory("/home/sessions", &[relative]),
        directory("/home/archived_sessions", &[relative, "2025/12/rollout.jsonl"]),
    ]];
    assert_eq!(
        discover_session_files(&homes),
        vec![place(0, 0, 0), place(0, 1, 1)]
    );
}

#[test]
fn logs_are_read_in_the_order_of_their_paths() {
    let homes = vec![vec![directory(
        "/home/sessions",
        &["b.jsonl", "a/z.jsonl", "a.jsonl", "a/notes.txt", "a/b/c.jsonl"],
    )]];
    // A directory comes before a file whose name goes on after the same letters.
    let files: Vec<usize> = discover_session_files(&homes)
        .iter()
        .map(|place| place.file)
        .collect();
    assert_eq!(files, [4, 1, 2, 0]);
    let mut paths: Vec<PathBuf> = ["b.jsonl", "a/z.jsonl", "a.jsonl", "a/b/c.jsonl"]
        .iter()
        .map(PathBuf::from)
        .collect();
    paths.sort();
    let sorted: Vec<&str> = paths.iter().filter_map(|path| path.to_str()).collect();
    assert_eq!(sorted, ["a/b/c.jsonl", "a/z.jsonl", "a.jsonl", "b.jsonl"]);
}

#[test]
fn a_directory_is_read_once() {
    let homes = vec![
        vec![directory("/one", &["x.jsonl"])],
        vec![directory("/one", &["x.jsonl"]), directory("/two", &["x.jsonl"])],
        vec![directory("/three", &["x.jsonl"])],
    ];
    assert_eq!(
        discover_session_files(&homes),
        vec![place(0, 0, 0), place(1, 1, 0), place(2, 0, 0)]
    );
}

#[test]
fn a_home_may_itself_be_a_log() {
    let homes = vec![vec![LogDirectory {
        path: b"/tmp/rollout.jsonl".to_vec(),
        files: vec![LogEntry {
            relative: Vec::new(),
            name: b"rollout.jsonl".to_vec(),
        }],
    }]];
    assert_eq!(discover_session_files(&homes), vec![place(0, 0, 0)]);
}

#[test]
fn logs_are_told_by_their_ending() {
    for name in ["a.jsonl", "..jsonl", "a.b.jsonl"] {
        assert!(is_log(&name.as_bytes().to_vec()), "{name}");
        assert_eq!(
            Path::new(name).extension().and_then(|ending| ending.to_str()),
            Some("jsonl")
        );
    }
    for name in [".jsonl", "jsonl", "a.json", "a.jsonl.bak", "a.JSONL", ""] {
        assert!(!is_log(&name.as_bytes().to_vec()), "{name}");
        assert_ne!(
            Path::new(name).extension().and_then(|ending| ending.to_str()),
            Some("jsonl")
        );
    }
}

#[test]
fn a_home_without_session_directories_is_searched_itself() {
    let home = PathPlan::written("/h");
    let paths = |active, archived| {
        all_resolved(&session_sources(&home, active, archived), Path::new("/"))
    };
    assert_eq!(
        paths(true, true),
        vec![Path::new("/h/sessions"), Path::new("/h/archived_sessions")]
    );
    assert_eq!(paths(true, false), vec![Path::new("/h/sessions")]);
    assert_eq!(paths(false, true), vec![Path::new("/h/archived_sessions")]);
    assert_eq!(paths(false, false), vec![Path::new("/h")]);
}
