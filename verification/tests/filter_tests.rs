use arkhash::filter::Filter;
use arkhash::pattern::make_db_line;
use arkhash::update::update_lines_to_append;
use arkhash::task::TaskResult;
use arkhash::util::{regex_from_opts, Options};

const D1: &str = "da39a3ee5e6b4b0d3255bfef95601890afd80709";
const D2: &str = "356a192b7913b04c54574d18c28d46e6395428ab";
const D3: &str = "da4b9237bacccdf19c0760cab7aec4a8359010b0";

fn opts() -> Options {
    Options::new(vec!["arkhash".to_string()])
}

fn strings(v: &[&str]) -> Vec<String> {
    v.iter().map(|s| s.to_string()).collect()
}

#[test]
fn unknown_algorithm_fails_construction() {
    let opts = Options::new(strings(&["arkhash", "--algo", "tiger"]));
    match Filter::new(&strings(&[]), &opts) {
        Ok(_) => panic!("expected an error"),
        Err(e) => assert_eq!(e, "Could not recognize hashing algorithm"),
    }
}

#[test]
fn recorded_paths_are_suppressed() {
    let db_lines = strings(&[
        &format!("{}  ./a.txt", D1),
        "not a database line",
        &format!("{}  ./b.txt", D2),
    ]);
    let f = Filter::new(&db_lines, &opts()).unwrap();
    assert!(!f.accepts("./a.txt"));
    assert!(!f.accepts("./b.txt"));
    assert!(f.accepts("./c.txt"));
    assert!(f.accepts("not a database line"));
}

#[test]
fn database_file_name_is_suppressed() {
    let f = Filter::new(&strings(&[]), &opts()).unwrap();
    assert!(!f.accepts("./sha1sum.txt"));
    assert!(f.accepts("./sha1sum.txt.bak"));
    let md5opts = Options::new(strings(&["arkhash", "-a", "md5"]));
    let f = Filter::new(&strings(&[]), &md5opts).unwrap();
    assert!(!f.accepts("./md5sum.txt"));
    assert!(f.accepts("./sha1sum.txt"));
}

#[test]
fn apply_keeps_order_of_survivors() {
    let db_lines = strings(&[&format!("{}  ./old", D1)]);
    let f = Filter::new(&db_lines, &opts()).unwrap();
    let out = f.apply(&strings(&["./new1", "./old", "./sha1sum.txt", "./new2"]));
    assert_eq!(out, strings(&["./new1", "./new2"]));
}

/// A directory with N files and no pre-existing database yields exactly N
/// database lines.
#[test]
fn coverage_n_files_n_lines() {
    let o = opts();
    let pat = regex_from_opts(&o).unwrap();
    let f = Filter::new(&strings(&[]), &o).unwrap();
    let candidates = strings(&["./a", "./b", "./c"]);
    let accepted = f.apply(&candidates);
    assert_eq!(accepted.len(), 3);
    let results: Vec<TaskResult> = vec![
        (D1, "./a"),
        (D2, "./b"),
        (D3, "./c"),
    ]
    .into_iter()
    .map(|(d, p)| TaskResult::Hashed {
        hashline: format!("{}\n", make_db_line(&pat, d, p).unwrap()),
        expected: String::new(),
    })
    .collect();
    let lines = update_lines_to_append(&results);
    assert_eq!(lines.len(), 3);
}

/// Running update twice on an unchanged tree appends nothing the second
/// time: the lines appended by the first run suppress every candidate.
#[test]
fn idempotence_second_run_appends_nothing() {
    let o = opts();
    let pat = regex_from_opts(&o).unwrap();
    let candidates = strings(&["./a", "./b"]);

    let first = Filter::new(&strings(&[]), &o).unwrap();
    let accepted = first.apply(&candidates);
    assert_eq!(accepted, candidates);

    // the first run appends one well-formed line per accepted path
    let mut db_lines: Vec<String> = Vec::new();
    db_lines.push(make_db_line(&pat, D1, "./a").unwrap());
    db_lines.push(make_db_line(&pat, D2, "./b").unwrap());

    let second = Filter::new(&db_lines, &o).unwrap();
    let accepted_again = second.apply(&candidates);
    assert_eq!(accepted_again.len(), 0);
}

/// Adding one new file and re-running update appends exactly one line and
/// leaves the prior lines untouched.
#[test]
fn monotonicity_one_new_file_one_new_line() {
    let o = opts();
    let pat = regex_from_opts(&o).unwrap();
    let mut db_lines: Vec<String> = Vec::new();
    db_lines.push(make_db_line(&pat, D1, "./a").unwrap());
    db_lines.push(make_db_line(&pat, D2, "./b").unwrap());
    let before = db_lines.clone();

    let f = Filter::new(&db_lines, &o).unwrap();
    let accepted = f.apply(&strings(&["./a", "./b", "./fresh"]));
    assert_eq!(accepted, strings(&["./fresh"]));

    let results = vec![TaskResult::Hashed {
        hashline: format!("{}\n", make_db_line(&pat, D3, "./fresh").unwrap()),
        expected: String::new(),
    }];
    let appended = update_lines_to_append(&results);
    assert_eq!(appended.len(), 1);
    for line in appended {
        db_lines.push(line.trim_end().to_string());
    }
    assert_eq!(db_lines.len(), before.len() + 1);
    assert_eq!(&db_lines[..before.len()], &before[..]);
}
