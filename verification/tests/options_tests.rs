use arkhash::util::{check_args, prepare_args, LogLevel, Mode, Options};

fn args(v: &[&str]) -> Vec<String> {
    v.iter().map(|s| s.to_string()).collect()
}

#[test]
fn defaults() {
    let opts = Options::new(args(&["arkhash"]));
    assert_eq!(opts.help, false);
    assert_eq!(opts.program_name, "arkhash");
    assert_eq!(opts.algorithm, "sha1");
    assert_eq!(opts.subdir_mode, false);
    assert!(opts.mode == Mode::Filter);
    assert!(opts.log_level == LogLevel::Info);
    assert_eq!(opts.num_threads, 0);
    assert_eq!(opts.folder, ".");
}

#[test]
fn update_mode_with_folder() {
    let opts = Options::new(args(&["arkhash", "-u", "testenvironment"]));
    assert!(opts.mode == Mode::Update);
    assert_eq!(opts.folder, "testenvironment");
}

#[test]
fn clustered_short_options() {
    let opts = Options::new(args(&["arkhash", "-us", "testenvironment"]));
    assert!(opts.mode == Mode::Update);
    assert_eq!(opts.subdir_mode, true);
    assert_eq!(opts.folder, "testenvironment");
}

#[test]
fn verify_subdir_mode() {
    let opts = Options::new(args(&["arkhash", "-vs", "testenvironment"]));
    assert!(opts.mode == Mode::Verify);
    assert_eq!(opts.subdir_mode, true);
}

#[test]
fn algorithm_is_lowercased() {
    let opts = Options::new(args(&["arkhash", "--algo", "SHA256"]));
    assert_eq!(opts.algorithm, "sha256");
}

#[test]
fn equals_form_is_split() {
    let opts = Options::new(args(&["arkhash", "--algo=md5"]));
    assert_eq!(opts.algorithm, "md5");
}

#[test]
fn thread_cap_is_parsed_and_trimmed() {
    let opts = Options::new(args(&["arkhash", "-T", " 4 "]));
    assert_eq!(opts.num_threads, 4);
}

#[test]
fn loglevels() {
    let opts = Options::new(args(&["arkhash", "--loglevel", "progress"]));
    assert!(opts.log_level == LogLevel::Progress);
    assert!(opts.loglevel_progress());
    assert!(!opts.loglevel_info());
    assert!(!opts.loglevel_debug());

    let opts = Options::new(args(&["arkhash", "--loglevel", "debug"]));
    assert!(opts.loglevel_debug());
    assert!(opts.loglevel_info());

    let opts = Options::new(args(&["arkhash", "--quiet"]));
    assert!(opts.log_level == LogLevel::Quiet);
    assert!(!opts.loglevel_info());
}

#[test]
fn help_flag_and_unknown_option() {
    let opts = Options::new(args(&["arkhash", "-h"]));
    assert!(opts.help);
    let opts = Options::new(args(&["arkhash", "--bogus"]));
    assert!(opts.help);
}

#[test]
fn option_value_is_not_taken_as_folder() {
    let opts = Options::new(args(&["arkhash", "--algo", "md5", "somedir"]));
    assert_eq!(opts.algorithm, "md5");
    assert_eq!(opts.folder, "somedir");
    let opts = Options::new(args(&["arkhash", "--algo", "md5"]));
    assert_eq!(opts.folder, ".");
}

#[test]
fn prepare_args_splits_equals_and_clusters() {
    let prepared = prepare_args(&args(&["arkhash", "--algo=md5", "-us", "dir"]));
    assert_eq!(prepared, args(&["arkhash", "--algo", "md5", "-u", "-s", "dir"]));
}

#[test]
fn check_args_rejects_missing_values() {
    assert!(!check_args(&args(&[])));
    assert!(check_args(&args(&["arkhash"])));
    assert!(check_args(&args(&["arkhash", "-u", "dir"])));
    assert!(!check_args(&args(&["arkhash", "-a"])));
    assert!(!check_args(&args(&["arkhash", "--loglevel"])));
    assert!(!check_args(&args(&["arkhash", "-T"])));
    assert!(!check_args(&args(&["arkhash", "-T", "four"])));
    assert!(check_args(&args(&["arkhash", "-T", "8"])));
}
