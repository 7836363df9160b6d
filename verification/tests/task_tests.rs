use arkhash::task::{
    effective_thread_count, worker_poll_action, HashTask, TaskQueue, TaskResult, WorkerAction,
};
use arkhash::update::{make_update_tasks, update_lines_to_append};

fn strings(v: &[&str]) -> Vec<String> {
    v.iter().map(|s| s.to_string()).collect()
}

fn task(path: &str) -> HashTask {
    HashTask {
        path: path.to_string(),
        workdir: ".".to_string(),
        algorithm: "sha1".to_string(),
        cmp: String::new(),
    }
}

#[test]
fn queue_is_first_in_first_out() {
    let mut q = TaskQueue::new();
    assert!(q.try_take().is_none());
    q.push_task(task("./a"));
    q.push_task(task("./b"));
    assert_eq!(q.try_take().unwrap().path, "./a");
    assert_eq!(q.try_take().unwrap().path, "./b");
    assert!(q.try_take().is_none());
}

#[test]
fn enqueue_batch_keeps_order() {
    let mut q = TaskQueue::new();
    let tasks = make_update_tasks(&strings(&["./x", "./y"]), "dir", "sha1");
    q.enqueue_tasks(&tasks);
    let first = q.try_take().unwrap();
    assert_eq!(first.path, "./x");
    assert_eq!(first.workdir, "dir");
    assert_eq!(first.algorithm, "sha1");
    assert_eq!(first.cmp, "");
    assert_eq!(q.try_take().unwrap().path, "./y");
}

/// A worker may exit only after the producers-finished flag is set; before
/// that an empty queue only means another poll.
#[test]
fn worker_exits_only_after_producers_finished() {
    let mut q = TaskQueue::new();
    match worker_poll_action(q.try_take(), false) {
        WorkerAction::Poll => {},
        _ => panic!("an empty queue with running producers means poll again"),
    }
    match worker_poll_action(q.try_take(), true) {
        WorkerAction::Exit => {},
        _ => panic!("an empty queue with finished producers means exit"),
    }
    q.push_task(task("./work"));
    match worker_poll_action(q.try_take(), true) {
        WorkerAction::Run(t) => assert_eq!(t.path, "./work"),
        _ => panic!("a queued task is run even after the flag is set"),
    }
}

#[test]
fn thread_cap_and_core_count() {
    assert_eq!(effective_thread_count(1), 1);
    assert_eq!(effective_thread_count(7), 7);
    assert!(effective_thread_count(0) >= 1);
}

/// Task scheduling order does not affect correctness: permuted results give
/// set-equal database lines.
#[test]
fn permuted_results_give_set_equal_lines() {
    let r = |line: &str| TaskResult::Hashed {
        hashline: format!("{}\n", line),
        expected: String::new(),
    };
    let one_worker = vec![r("la"), r("lb"), TaskResult::Failed { description: "e".into() }, r("lc")];
    let many_workers = vec![r("lc"), TaskResult::Failed { description: "e".into() }, r("la"), r("lb")];
    let mut lines1 = update_lines_to_append(&one_worker);
    let mut lines2 = update_lines_to_append(&many_workers);
    assert_eq!(lines1.len(), 3);
    lines1.sort();
    lines2.sort();
    assert_eq!(lines1, lines2);
}
