//! Hash tasks and the shared work queue. One task is one unit of work: hash
//! (and optionally compare) a single file. The queue is crossbeam_deque's
//! injector queue, a first-in-first-out multi-producer queue, held behind
//! trusted wrappers that state its behavior over an abstract view.

use vstd::prelude::*;

verus! {

/// One unit of work: compute the digest of `path` inside `workdir` with
/// `algorithm`, and compare it against `cmp` unless `cmp` is empty.
pub struct HashTask {
    /// Path of the file to hash, relative to `workdir`
    pub path: String,
    /// The owning directory of the task
    pub workdir: String,
    /// The hashing algorithm to use
    pub algorithm: String,
    /// The expected digest; the empty sentinel means compute only
    pub cmp: String,
}

/// The mathematical shadow of a task: path, directory, algorithm, expected
/// digest.
pub open spec fn task_view(t: HashTask) -> (Seq<char>, Seq<char>, Seq<char>, Seq<char>) {
    (t.path@, t.workdir@, t.algorithm@, t.cmp@)
}

/// A field-for-field copy of a task.
pub fn clone_task(t: &HashTask) -> (r: HashTask)
    ensures
        task_view(r) == task_view(*t),
{
    HashTask {
        path: t.path.clone(),
        workdir: t.workdir.clone(),
        algorithm: t.algorithm.clone(),
        cmp: t.cmp.clone(),
    }
}

/// What one worker step produced for its task: the formatted digest line
/// together with the digest it was asked to compare against, or a failure
/// description.
pub enum TaskResult {
    Hashed { hashline: String, expected: String },
    Failed { description: String },
}

#[verifier::external_type_specification]
#[verifier::external_body]
#[verifier::reject_recursive_types(T)]
pub struct ExInjector<T>(crossbeam_deque::Injector<T>);

/// What the shared queue holds, oldest task first.
pub uninterp spec fn queue_view(q: crossbeam_deque::Injector<HashTask>) -> Seq<
    (Seq<char>, Seq<char>, Seq<char>, Seq<char>),
>;

/// Relies on crossbeam_deque::Injector::new: creates an empty queue.
#[verifier::external_body]
fn injector_new() -> (q: crossbeam_deque::Injector<HashTask>)
    ensures
        queue_view(q) == Seq::<(Seq<char>, Seq<char>, Seq<char>, Seq<char>)>::empty(),
{
    crossbeam_deque::Injector::new()
}

/// Relies on crossbeam_deque::Injector::push: appends one task at the back
/// of the queue.
#[verifier::external_body]
fn injector_push(q: &mut crossbeam_deque::Injector<HashTask>, task: HashTask)
    ensures
        queue_view(*final(q)) == queue_view(*old(q)).push(task_view(task)),
{
    q.push(task);
}

/// Relies on crossbeam_deque::Injector::steal: takes the task at the front
/// of the queue; nothing comes back when the queue is empty or the attempt
/// would have to be retried.
#[verifier::external_body]
fn injector_steal(q: &mut crossbeam_deque::Injector<HashTask>) -> (r: Option<HashTask>)
    ensures
        match r {
            Some(t) => queue_view(*old(q)).len() > 0 && task_view(t) == queue_view(*old(q))[0]
                && queue_view(*final(q)) == queue_view(*old(q)).drop_first(),
            None => queue_view(*final(q)) == queue_view(*old(q)),
        },
{
    match q.steal() {
        crossbeam_deque::Steal::Success(t) => Some(t),
        crossbeam_deque::Steal::Empty => None,
        crossbeam_deque::Steal::Retry => None,
    }
}

/// The queue of hash tasks that producers fill and workers drain.
pub struct TaskQueue {
    q: crossbeam_deque::Injector<HashTask>,
}

impl TaskQueue {
    /// The tasks in the queue, oldest first, as view tuples.
    pub closed spec fn view(self) -> Seq<(Seq<char>, Seq<char>, Seq<char>, Seq<char>)> {
        queue_view(self.q)
    }

    pub fn new() -> (r: TaskQueue)
        ensures
            r.view() == Seq::<(Seq<char>, Seq<char>, Seq<char>, Seq<char>)>::empty(),
    {
        TaskQueue { q: injector_new() }
    }

    pub fn push_task(&mut self, task: HashTask)
        ensures
            final(self).view() == old(self).view().push(task_view(task)),
    {
        injector_push(&mut self.q, task);
    }

    /// Takes the oldest task, when one can be taken.
    pub fn try_take(&mut self) -> (r: Option<HashTask>)
        ensures
            match r {
                Some(t) => old(self).view().len() > 0 && task_view(t) == old(self).view()[0]
                    && final(self).view() == old(self).view().drop_first(),
                None => final(self).view() == old(self).view(),
            },
    {
        injector_steal(&mut self.q)
    }

    /// Appends a batch of tasks, keeping their order.
    pub fn enqueue_tasks(&mut self, tasks: &Vec<HashTask>)
        ensures
            final(self).view() == old(self).view() + tasks@.map_values(
                |t: HashTask| task_view(t),
            ),
    {
        let ghost f = |t: HashTask| task_view(t);
        let ghost base = self.view();
        let mut i: usize = 0;
        proof {
            assert(base + tasks@.take(0).map_values(f) =~= base);
        }
        while i < tasks.len()
            invariant
                i <= tasks@.len(),
                f == (|t: HashTask| task_view(t)),
                self.view() == base + tasks@.take(i as int).map_values(f),
            decreases tasks@.len() - i,
        {
            let task = clone_task(&tasks[i]);
            self.push_task(task);
            proof {
                assert(tasks@.take(i + 1 as int).map_values(f) =~= tasks@.take(
                    i as int,
                ).map_values(f).push(task_view(tasks@[i as int])));
                assert(self.view() =~= base + tasks@.take(i + 1 as int).map_values(f));
            }
            i = i + 1;
        }
        proof {
            assert(tasks@.take(tasks@.len() as int) =~= tasks@);
        }
    }
}

/// What a worker decides to do after one look at the queue.
pub enum WorkerAction {
    Run(HashTask),
    Exit,
    Poll,
}

/// One scheduling decision of a worker, from what its steal attempt
/// returned and the producers-finished flag: run the stolen task; with
/// nothing stolen, exit only when the flag was already set, else poll
/// again. A worker therefore never exits before the flag is set, and the
/// flag is set only after every producer has stopped pushing.
pub fn worker_poll_action(stolen: Option<HashTask>, producers_finished: bool) -> (a: WorkerAction)
    ensures
        match a {
            WorkerAction::Run(t) => stolen == Some(t),
            WorkerAction::Exit => stolen is None && producers_finished,
            WorkerAction::Poll => stolen is None && !producers_finished,
        },
{
    match stolen {
        Some(t) => WorkerAction::Run(t),
        None => {
            if producers_finished {
                WorkerAction::Exit
            } else {
                WorkerAction::Poll
            }
        },
    }
}

/// Relies on num_cpus::get: the number of logical cores of the current
/// system, which is always at least 1.
pub assume_specification[ num_cpus::get ]() -> (n: usize)
    ensures
        n >= 1,
;

/// The worker-pool size: the explicit cap, or one worker per logical core
/// when the cap is zero.
pub fn effective_thread_count(num_threads: usize) -> (r: usize)
    ensures
        r >= 1,
        num_threads != 0 ==> r == num_threads,
{
    match num_threads {
        0 => num_cpus::get(),
        _ => num_threads,
    }
}

} // verus!
