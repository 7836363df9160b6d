use arkhash::task::TaskResult;
use arkhash::update::{normalize_ignore_paths, select_dirs_to_update, update_lines_to_append};
use arkhash::util::DirEntry;

fn strings(v: &[&str]) -> Vec<String> {
    v.iter().map(|s| s.to_string()).collect()
}

#[test]
fn ignore_names_are_rooted() {
    let out = normalize_ignore_paths(&strings(&["ignore", "./already", "x"]));
    assert_eq!(out, strings(&["./ignore", "./already", "./x"]));
}

/// A subdirectory listed in the ignore file is not selected, so it receives
/// no database file after a batch update.
#[test]
fn ignored_directory_is_not_selected() {
    let entries = vec![
        DirEntry { path: "./keep".to_string(), is_dir: true, has_db: false },
        DirEntry { path: "./ignore".to_string(), is_dir: true, has_db: false },
        DirEntry { path: "./afile".to_string(), is_dir: false, has_db: false },
    ];
    let ignore = normalize_ignore_paths(&strings(&["ignore"]));
    let dirs = select_dirs_to_update(&entries, &ignore);
    assert_eq!(dirs, strings(&["./keep"]));
}

#[test]
fn only_successful_results_become_lines() {
    let results = vec![
        TaskResult::Hashed { hashline: "l1\n".to_string(), expected: String::new() },
        TaskResult::Failed { description: "unreadable".to_string() },
        TaskResult::Hashed { hashline: "l2\n".to_string(), expected: String::new() },
    ];
    let lines = update_lines_to_append(&results);
    assert_eq!(lines, strings(&["l1\n", "l2\n"]));
}
