use arkhash::util::{strip_subdir, DirWalker, ReadStep, WalkStep};

fn strings(v: &[&str]) -> Vec<String> {
    v.iter().map(|s| s.to_string()).collect()
}

#[test]
fn root_is_expanded_first() {
    let mut w = DirWalker::new("startdir", false);
    match w.next_step() {
        WalkStep::Expand(d) => assert_eq!(d, "startdir"),
        _ => panic!("expected an expansion request"),
    }
    match w.next_step() {
        WalkStep::Done => {},
        _ => panic!("expected the end"),
    }
}

#[test]
fn files_come_before_pending_directories_last_discovered_first() {
    let mut w = DirWalker::new("root", false);
    match w.next_step() {
        WalkStep::Expand(d) => assert_eq!(d, "root"),
        _ => panic!("expected an expansion request"),
    }
    w.populate_with_dir(strings(&["./root/a", "./root/b"]), strings(&["./root/sub"]));
    match w.next_step() {
        WalkStep::File(f) => assert_eq!(f, "./root/b"),
        _ => panic!("expected a file"),
    }
    match w.next_step() {
        WalkStep::File(f) => assert_eq!(f, "./root/a"),
        _ => panic!("expected a file"),
    }
    match w.next_step() {
        WalkStep::Expand(d) => assert_eq!(d, "./root/sub"),
        _ => panic!("expected an expansion request"),
    }
    w.populate_with_dir(strings(&[]), strings(&[]));
    match w.next_step() {
        WalkStep::Done => {},
        _ => panic!("expected the end"),
    }
}

#[test]
fn subdir_mode_strips_the_first_segment() {
    assert_eq!(strip_subdir("./sub/file.txt").unwrap(), "./file.txt");
    assert_eq!(strip_subdir("./sub/deep/file").unwrap(), "./deep/file");
    assert!(strip_subdir("./").is_none());
    assert!(strip_subdir("plain").is_none());

    let mut w = DirWalker::new(".", true);
    match w.next_step() {
        WalkStep::Expand(_) => {},
        _ => panic!("expected an expansion request"),
    }
    w.populate_with_dir(strings(&["./sub/x.txt"]), strings(&[]));
    match w.next_step() {
        WalkStep::File(f) => assert_eq!(f, "./x.txt"),
        _ => panic!("expected a file"),
    }
}

#[test]
fn byte_stream_reassembles_lines_from_small_reads() {
    let mut w = DirWalker::new("root", false);
    match w.read_step(8) {
        ReadStep::NeedDir(d) => assert_eq!(d, "root"),
        _ => panic!("expected a directory request"),
    }
    w.populate_with_dir(strings(&["ab"]), strings(&[]));
    let mut collected: Vec<u8> = Vec::new();
    loop {
        match w.read_step(2) {
            ReadStep::Bytes(b) => {
                assert!(b.len() <= 2);
                collected.extend_from_slice(&b);
            },
            ReadStep::Eof => break,
            ReadStep::NeedDir(_) => panic!("no directory was pending"),
        }
    }
    assert_eq!(collected, b"ab\n".to_vec());
}

#[test]
fn byte_stream_serializes_each_path_with_a_newline() {
    let mut w = DirWalker::new("root", false);
    match w.read_step(64) {
        ReadStep::NeedDir(d) => assert_eq!(d, "root"),
        _ => panic!("expected a directory request"),
    }
    w.populate_with_dir(strings(&["./root/a", "./root/b"]), strings(&[]));
    let mut collected: Vec<u8> = Vec::new();
    loop {
        match w.read_step(64) {
            ReadStep::Bytes(b) => collected.extend_from_slice(&b),
            ReadStep::Eof => break,
            ReadStep::NeedDir(_) => panic!("no directory was pending"),
        }
    }
    assert_eq!(String::from_utf8(collected).unwrap(), "./root/b\n./root/a\n");
}
