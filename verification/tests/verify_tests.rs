use arkhash::pattern::make_db_line;
use arkhash::task::TaskResult;
use arkhash::util::{regex_from_opts, DirEntry, Options};
use arkhash::verify::{
    bad_detail_file_name, classify_directory, combine_exit_codes, current_ledger_file_names,
    initial_exit_code, judge_results, ledger_file_names, outcome_exit_code, plan_verify_tasks,
    select_dirs_to_verify, sum_sizes, DirOutcome,
};

const D1: &str = "da39a3ee5e6b4b0d3255bfef95601890afd80709";
const D2: &str = "356a192b7913b04c54574d18c28d46e6395428ab";

fn opts() -> Options {
    Options::new(vec!["arkhash".to_string()])
}

fn strings(v: &[&str]) -> Vec<String> {
    v.iter().map(|s| s.to_string()).collect()
}

#[test]
fn ledger_names_are_month_scoped() {
    let (good, bad) = ledger_file_names(10, 2026);
    assert_eq!(good, "known_good_10_2026.txt");
    assert_eq!(bad, "to_check_10_2026.txt");
    let (good, bad) = ledger_file_names(1, 1999);
    assert_eq!(good, "known_good_1_1999.txt");
    assert_eq!(bad, "to_check_1_1999.txt");
}

#[test]
fn current_ledger_names_carry_a_real_month() {
    let (good, bad) = current_ledger_file_names();
    assert!(good.starts_with("known_good_"));
    assert!(good.ends_with(".txt"));
    assert!(bad.starts_with("to_check_"));
    assert!(bad.ends_with(".txt"));
    let middle = &good["known_good_".len()..good.len() - ".txt".len()];
    let mut parts = middle.split('_');
    let month: u32 = parts.next().unwrap().parse().unwrap();
    assert!((1..=12).contains(&month));
}

#[test]
fn plan_builds_one_task_per_matching_line() {
    let o = opts();
    let pat = regex_from_opts(&o).unwrap();
    let db_lines = strings(&[
        &format!("{}  ./a", D1),
        "garbage",
        &format!("{}  ./b", D2),
    ]);
    let tasks = plan_verify_tasks(&db_lines, &pat, "testenvironment", "sha1");
    assert_eq!(tasks.len(), 2);
    assert_eq!(tasks[0].path, "./a");
    assert_eq!(tasks[0].cmp, D1);
    assert_eq!(tasks[0].workdir, "testenvironment");
    assert_eq!(tasks[0].algorithm, "sha1");
    assert_eq!(tasks[1].path, "./b");
    assert_eq!(tasks[1].cmp, D2);
}

/// An unchanged file verifies clean; a changed file's path lands in the
/// failed list, as does a failed task's description.
#[test]
fn judge_separates_matches_from_mismatches() {
    let o = opts();
    let pat = regex_from_opts(&o).unwrap();
    let results = vec![
        TaskResult::Hashed {
            hashline: format!("{}\n", make_db_line(&pat, D1, "./same").unwrap()),
            expected: D1.to_string(),
        },
        TaskResult::Hashed {
            hashline: format!("{}\n", make_db_line(&pat, D2, "./changed").unwrap()),
            expected: D1.to_string(),
        },
        TaskResult::Failed {
            description: "could not read ./gone".to_string(),
        },
    ];
    let failed = judge_results(&results, &pat);
    assert_eq!(failed, strings(&["./changed", "could not read ./gone"]));
    assert!(classify_directory(&failed) == DirOutcome::Bad);
    assert!(classify_directory(&strings(&[])) == DirOutcome::Good);
}

#[test]
fn malformed_result_lines_are_skipped() {
    let o = opts();
    let pat = regex_from_opts(&o).unwrap();
    let results = vec![TaskResult::Hashed {
        hashline: "short\n".to_string(),
        expected: D1.to_string(),
    }];
    let failed = judge_results(&results, &pat);
    assert_eq!(failed.len(), 0);
}

#[test]
fn exit_code_scenarios() {
    // clean batch verify with no prior ledger
    assert_eq!(initial_exit_code(true), 0);
    assert_eq!(combine_exit_codes(0, &vec![0, 0, 0]), 0);
    // one directory failed this run
    assert_eq!(combine_exit_codes(0, &vec![0, 1, 0]), 1);
    assert_eq!(combine_exit_codes(2, &vec![0, 1]), 1);
    // prior failures recorded, nothing touched this run
    assert_eq!(initial_exit_code(false), 2);
    assert_eq!(combine_exit_codes(2, &vec![]), 2);
    assert_eq!(combine_exit_codes(2, &vec![0, 0]), 2);
    // per-directory votes
    assert_eq!(outcome_exit_code(DirOutcome::Good), 0);
    assert_eq!(outcome_exit_code(DirOutcome::Bad), 1);
}

/// In batch mode, mutating one subdirectory must mark only that
/// subdirectory Bad and leave its siblings Good.
#[test]
fn batch_isolation_one_bad_directory() {
    let o = opts();
    let pat = regex_from_opts(&o).unwrap();
    let good_results = vec![TaskResult::Hashed {
        hashline: format!("{}\n", make_db_line(&pat, D1, "./f").unwrap()),
        expected: D1.to_string(),
    }];
    let bad_results = vec![TaskResult::Hashed {
        hashline: format!("{}\n", make_db_line(&pat, D2, "./f").unwrap()),
        expected: D1.to_string(),
    }];
    let verdict_a = classify_directory(&judge_results(&good_results, &pat));
    let verdict_b = classify_directory(&judge_results(&bad_results, &pat));
    let verdict_c = classify_directory(&judge_results(&good_results, &pat));
    assert!(verdict_a == DirOutcome::Good);
    assert!(verdict_b == DirOutcome::Bad);
    assert!(verdict_c == DirOutcome::Good);
    let codes = vec![
        outcome_exit_code(verdict_a),
        outcome_exit_code(verdict_b),
        outcome_exit_code(verdict_c),
    ];
    assert_eq!(combine_exit_codes(initial_exit_code(true), &codes), 1);
}

#[test]
fn selection_skips_checked_and_databaseless_directories() {
    let entries = vec![
        DirEntry { path: "./fresh".to_string(), is_dir: true, has_db: true },
        DirEntry { path: "./known".to_string(), is_dir: true, has_db: true },
        DirEntry { path: "./broken".to_string(), is_dir: true, has_db: true },
        DirEntry { path: "./nodb".to_string(), is_dir: true, has_db: false },
        DirEntry { path: "./afile".to_string(), is_dir: false, has_db: false },
        DirEntry { path: "./longestname".to_string(), is_dir: true, has_db: false },
    ];
    let good = strings(&["./known"]);
    let bad = strings(&["./broken"]);
    let (dirs, longest, bad_empty) = select_dirs_to_verify(&entries, &good, &bad);
    assert_eq!(dirs, strings(&["./fresh"]));
    assert_eq!(longest, "./longestname".len());
    assert_eq!(bad_empty, false);
    let (_, _, bad_empty) = select_dirs_to_verify(&entries, &good, &strings(&[]));
    assert_eq!(bad_empty, true);
}

#[test]
fn bad_detail_file_names() {
    assert_eq!(bad_detail_file_name("./test"), "to_check_test.txt");
    assert_eq!(bad_detail_file_name("ab"), "to_check_ab.txt");
    assert_eq!(bad_detail_file_name("./a/b"), "to_check_a/b.txt");
}

#[test]
fn byte_totals_saturate() {
    assert_eq!(sum_sizes(&vec![]), 0);
    assert_eq!(sum_sizes(&vec![1, 2, 3]), 6);
    assert_eq!(sum_sizes(&vec![u64::MAX, 5]), u64::MAX);
}
