use arkhash::pattern::{digest_len_of, make_db_line};
use arkhash::util::{regex_from_opts, Options};

const D1: &str = "da39a3ee5e6b4b0d3255bfef95601890afd80709";
const D2: &str = "0000000000000000000000000000000000000000";

fn opts_with(algo: &str) -> Options {
    Options::new(vec![
        "arkhash".to_string(),
        "--algo".to_string(),
        algo.to_string(),
    ])
}

#[test]
fn digest_lengths() {
    assert_eq!(digest_len_of("sha1"), Some(40));
    assert_eq!(digest_len_of("md5"), Some(32));
    assert_eq!(digest_len_of("sha224"), Some(56));
    assert_eq!(digest_len_of("sha256"), Some(64));
    assert_eq!(digest_len_of("sha384"), Some(96));
    assert_eq!(digest_len_of("sha512"), Some(128));
    assert_eq!(digest_len_of("crc32"), None);
}

#[test]
fn unrecognized_algorithm_is_an_error() {
    let opts = opts_with("whirlpool");
    match regex_from_opts(&opts) {
        Ok(_) => panic!("expected an error"),
        Err(e) => assert_eq!(e, "Could not recognize hashing algorithm"),
    }
}

#[test]
fn captures_digest_and_path() {
    let pat = regex_from_opts(&opts_with("sha1")).unwrap();
    let line = format!("{}  ./some dir/file.txt", D1);
    let (hash, path) = pat.captures(&line).unwrap();
    assert_eq!(hash, D1);
    assert_eq!(path, "./some dir/file.txt");
}

#[test]
fn separator_must_be_two_spaces() {
    let pat = regex_from_opts(&opts_with("sha1")).unwrap();
    assert!(pat.captures(&format!("{}\t\t./file", D1)).is_none());
    assert!(pat.captures(&format!("{} \t./file", D1)).is_none());
    assert!(pat.captures(&format!("{}\t ./file", D1)).is_none());
    assert!(pat.captures(&format!("{} ./file", D1)).is_none());
    assert!(pat.captures(&format!("{}  ./file", D1)).is_some());
}

#[test]
fn short_digest_does_not_match() {
    let pat = regex_from_opts(&opts_with("sha1")).unwrap();
    let line = format!("{}  ./file", &D1[..39]);
    assert!(pat.captures(&line).is_none());
}

#[test]
fn match_is_leftmost() {
    let pat = regex_from_opts(&opts_with("sha1")).unwrap();
    // 41 hex characters: the match starts one character in.
    let line = format!("a{}  tail", D1);
    let (hash, path) = pat.captures(&line).unwrap();
    assert_eq!(hash, D1);
    assert_eq!(path, "tail");
}

#[test]
fn empty_path_field_matches() {
    let pat = regex_from_opts(&opts_with("sha1")).unwrap();
    let line = format!("{}  ", D1);
    let (hash, path) = pat.captures(&line).unwrap();
    assert_eq!(hash, D1);
    assert_eq!(path, "");
}

#[test]
fn make_db_line_round_trips() {
    let pat = regex_from_opts(&opts_with("sha1")).unwrap();
    let line = make_db_line(&pat, D2, "./x").unwrap();
    assert_eq!(line, format!("{}  ./x", D2));
    let (hash, path) = pat.captures(&line).unwrap();
    assert_eq!(hash, D2);
    assert_eq!(path, "./x");
}

#[test]
fn make_db_line_rejects_bad_digests() {
    let pat = regex_from_opts(&opts_with("sha1")).unwrap();
    assert!(make_db_line(&pat, "zz", "./x").is_none());
    let not_hex = "g".repeat(40);
    assert!(make_db_line(&pat, &not_hex, "./x").is_none());
}

#[test]
fn md5_pattern_wants_32_hex() {
    let pat = regex_from_opts(&opts_with("md5")).unwrap();
    assert_eq!(pat.digest_len(), 32);
    let line = format!("{}  ./y", &D1[..32]);
    let (hash, path) = pat.captures(&line).unwrap();
    assert_eq!(hash, &D1[..32]);
    assert_eq!(path, "./y");
}
