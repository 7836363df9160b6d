//! The verify pipeline's decisions: which directories still need checking,
//! which tasks to enqueue for a directory's database, how arrived results
//! are judged into failed paths and a Good/Bad verdict, the ledger file
//! names of the current month, and the process exit-code policy.

use vstd::prelude::*;
use vstd::string::StrSliceExecFns;
use vstd::string::StringExecFns;
use crate::pattern;
use crate::pattern::LinePattern;
use crate::task::HashTask;
use crate::task::TaskResult;
use crate::task::task_view;
use crate::text;
use crate::util::DirEntry;
use crate::util::contains_string;
use crate::util::lemma_str_views_push;
use crate::util::str_views;

verus! {

/// Relies on chrono::Local::now and chrono's Datelike::month and year: the
/// current local month and year. The month is documented to range from 1 to
/// 12; nothing more can be promised of the clock's value.
#[verifier::external_body]
fn current_month_year() -> (r: (u32, i32))
    ensures
        1 <= r.0 <= 12,
{
    let now = chrono::Local::now();
    (chrono::Datelike::month(&now), chrono::Datelike::year(&now))
}

/// The known-good ledger file name for one month.
pub open spec fn spec_known_good_name(month: nat, year: int) -> Seq<char> {
    "known_good_"@ + text::dec_str(month) + "_"@ + text::int_dec_str(year) + ".txt"@
}

/// The known-bad ledger file name for one month.
pub open spec fn spec_to_check_name(month: nat, year: int) -> Seq<char> {
    "to_check_"@ + text::dec_str(month) + "_"@ + text::int_dec_str(year) + ".txt"@
}

/// The two ledger file names for a given month and year.
pub fn ledger_file_names(month: u32, year: i32) -> (r: (String, String))
    ensures
        r.0@ == spec_known_good_name(month as nat, year as int),
        r.1@ == spec_to_check_name(month as nat, year as int),
{
    let m = text::u32_to_string(month);
    let y = text::i32_to_string(year);
    let mut good = String::from_str("known_good_");
    good.append(m.as_str());
    good.append("_");
    good.append(y.as_str());
    good.append(".txt");
    let mut bad = String::from_str("to_check_");
    bad.append(m.as_str());
    bad.append("_");
    bad.append(y.as_str());
    bad.append(".txt");
    (good, bad)
}

/// The ledger file names of the current month: ledgers are scoped to a
/// calendar month, so they roll over naturally.
pub fn current_ledger_file_names() -> (r: (String, String))
    ensures
        exists|m: nat, y: int|
            1 <= m <= 12 && r.0@ == spec_known_good_name(m, y) && r.1@ == spec_to_check_name(m, y),
{
    let (month, year) = current_month_year();
    let r = ledger_file_names(month, year);
    proof {
        assert(1 <= month as nat <= 12 && r.0@ == spec_known_good_name(month as nat, year as int)
            && r.1@ == spec_to_check_name(month as nat, year as int));
    }
    r
}

/// The (expected digest, path) pairs parsed out of a directory's database
/// lines; lines that do not match the pattern are skipped.
pub open spec fn spec_verify_plan(lines: Seq<Seq<char>>, n: nat) -> Seq<(Seq<char>, Seq<char>)>
    decreases lines.len(),
{
    if lines.len() == 0 {
        Seq::empty()
    } else {
        let front = spec_verify_plan(lines.drop_last(), n);
        match pattern::spec_captures(lines.last(), n) {
            Some(c) => front.push(c),
            None => front,
        }
    }
}

/// One comparison task per matching database line: the task carries the
/// recorded digest so the worker's result can be compared against it.
pub fn plan_verify_tasks(
    db_lines: &Vec<String>,
    pat: &LinePattern,
    workdir: &str,
    algorithm: &str,
) -> (r: Vec<HashTask>)
    requires
        pat.wf(),
    ensures
        r@.len() == spec_verify_plan(str_views(db_lines@), pat.spec_digest_len()).len(),
        forall|i: int|
            0 <= i < r@.len() ==> #[trigger] task_view(r@[i]) == (
                spec_verify_plan(str_views(db_lines@), pat.spec_digest_len())[i].1,
                workdir@,
                algorithm@,
                spec_verify_plan(str_views(db_lines@), pat.spec_digest_len())[i].0,
            ),
{
    let ghost gn = pat.spec_digest_len();
    let ghost glines = str_views(db_lines@);
    let ghost plan = spec_verify_plan(glines, gn);
    let mut out: Vec<HashTask> = Vec::new();
    let mut i: usize = 0;
    proof {
        assert(glines.take(0) =~= Seq::<Seq<char>>::empty());
    }
    while i < db_lines.len()
        invariant
            i <= db_lines@.len(),
            glines == str_views(db_lines@),
            glines.len() == db_lines@.len(),
            pat.wf(),
            gn == pat.spec_digest_len(),
            out@.len() == spec_verify_plan(glines.take(i as int), gn).len(),
            forall|j: int|
                0 <= j < out@.len() ==> #[trigger] task_view(out@[j]) == (
                    spec_verify_plan(glines.take(i as int), gn)[j].1,
                    workdir@,
                    algorithm@,
                    spec_verify_plan(glines.take(i as int), gn)[j].0,
                ),
        decreases db_lines@.len() - i,
    {
        let line: &String = &db_lines[i];
        proof {
            assert(glines[i as int] == line@);
            assert(glines.take(i + 1 as int).drop_last() =~= glines.take(i as int));
            assert(glines.take(i + 1 as int).last() == line@);
        }
        match pat.captures(line.as_str()) {
            Some(c) => {
                let (hash, path) = c;
                let task = HashTask {
                    path,
                    workdir: String::from_str(workdir),
                    algorithm: String::from_str(algorithm),
                    cmp: hash,
                };
                out.push(task);
            },
            None => {},
        }
        i = i + 1;
    }
    proof {
        assert(glines.take(glines.len() as int) =~= glines);
    }
    out
}

/// A worker's formatted line with its trailing character (the newline)
/// removed.
pub open spec fn spec_popped(l: Seq<char>) -> Seq<char> {
    if l.len() > 0 {
        l.drop_last()
    } else {
        l
    }
}

/// What one computed line contributes to the failed paths: the re-captured
/// path when the fresh digest differs from the recorded one; nothing when
/// they agree or the line does not parse.
pub open spec fn spec_judge_line(line: Seq<char>, expected: Seq<char>, n: nat) -> Option<
    Seq<char>,
> {
    match pattern::spec_captures(spec_popped(line), n) {
        Some(c) => if c.0 != expected {
            Some(c.1)
        } else {
            None
        },
        None => None,
    }
}

/// What one result contributes to the failed paths: for a computed line its
/// judgement, for a failed task its failure description.
pub open spec fn spec_judge_one(r: TaskResult, n: nat) -> Option<Seq<char>> {
    match r {
        TaskResult::Hashed { hashline, expected } => spec_judge_line(hashline@, expected@, n),
        TaskResult::Failed { description } => Some(description@),
    }
}

/// The failed paths of one directory's verify run, in arrival order.
pub open spec fn spec_failed_paths(rs: Seq<TaskResult>, n: nat) -> Seq<Seq<char>>
    decreases rs.len(),
{
    if rs.len() == 0 {
        Seq::empty()
    } else {
        let front = spec_failed_paths(rs.drop_last(), n);
        match spec_judge_one(rs.last(), n) {
            Some(p) => front.push(p),
            None => front,
        }
    }
}

/// Judges the arrived results of one directory: re-derives each fresh
/// digest from the returned line, compares it against the recorded digest,
/// and collects the paths that changed and the failure descriptions.
pub fn judge_results(results: &Vec<TaskResult>, pat: &LinePattern) -> (r: Vec<String>)
    requires
        pat.wf(),
    ensures
        str_views(r@) == spec_failed_paths(results@, pat.spec_digest_len()),
{
    let ghost gn = pat.spec_digest_len();
    let mut out: Vec<String> = Vec::new();
    let mut i: usize = 0;
    proof {
        assert(str_views(out@) =~= spec_failed_paths(results@.take(0), gn));
    }
    while i < results.len()
        invariant
            i <= results@.len(),
            pat.wf(),
            gn == pat.spec_digest_len(),
            str_views(out@) == spec_failed_paths(results@.take(i as int), gn),
        decreases results@.len() - i,
    {
        proof {
            assert(results@.take(i + 1 as int).drop_last() =~= results@.take(i as int));
            assert(results@.take(i + 1 as int).last() == results@[i as int]);
        }
        match &results[i] {
            TaskResult::Hashed { hashline, expected } => {
                let len = hashline.as_str().unicode_len();
                let popped = if len > 0 {
                    hashline.as_str().substring_char(0, len - 1)
                } else {
                    hashline.as_str()
                };
                match pat.captures(popped) {
                    Some(c) => {
                        let (new_hash, path) = c;
                        if !text::str_eq(new_hash.as_str(), expected.as_str()) {
                            let ghost v0 = out@;
                            let ghost g0 = path;
                            out.push(path);
                            proof {
                                lemma_str_views_push(v0, g0);
                            }
                        }
                    },
                    None => {},
                }
            },
            TaskResult::Failed { description } => {
                let ghost v0 = out@;
                let copy = description.clone();
                let ghost g0 = copy;
                out.push(copy);
                proof {
                    lemma_str_views_push(v0, g0);
                }
            },
        }
        i = i + 1;
    }
    proof {
        assert(results@.take(results@.len() as int) =~= results@);
    }
    out
}

/// A directory's terminal verification state.
#[derive(Debug, PartialEq, Eq, Structural, Clone, Copy)]
pub enum DirOutcome {
    Good,
    Bad,
}

pub open spec fn spec_outcome(failed: Seq<Seq<char>>) -> DirOutcome {
    if failed.len() == 0 {
        DirOutcome::Good
    } else {
        DirOutcome::Bad
    }
}

/// A directory is Good exactly when its failed-paths list is empty.
pub fn classify_directory(failed_paths: &Vec<String>) -> (o: DirOutcome)
    ensures
        o == spec_outcome(str_views(failed_paths@)),
{
    if failed_paths.len() == 0 {
        DirOutcome::Good
    } else {
        DirOutcome::Bad
    }
}

pub open spec fn spec_outcome_code(o: DirOutcome) -> i32 {
    match o {
        DirOutcome::Good => 0,
        DirOutcome::Bad => 1,
    }
}

/// The per-directory exit-code vote: 0 for Good, 1 for Bad.
pub fn outcome_exit_code(o: DirOutcome) -> (c: i32)
    ensures
        c == spec_outcome_code(o),
{
    match o {
        DirOutcome::Good => 0,
        DirOutcome::Bad => 1,
    }
}

pub open spec fn spec_initial_code(known_bad_empty: bool) -> i32 {
    if known_bad_empty {
        0
    } else {
        2
    }
}

/// The starting exit code of a batch verify run: 2 when the known-bad
/// ledger already holds unresolved failures, else 0.
pub fn initial_exit_code(known_bad_empty: bool) -> (c: i32)
    ensures
        c == spec_initial_code(known_bad_empty),
{
    if known_bad_empty {
        0
    } else {
        2
    }
}

/// The exit code after folding the per-directory votes over the starting
/// code: the last nonzero vote wins, else the starting code stands.
pub open spec fn spec_combined_code(initial: i32, codes: Seq<i32>) -> i32
    decreases codes.len(),
{
    if codes.len() == 0 {
        initial
    } else {
        let rest = spec_combined_code(initial, codes.drop_last());
        if codes.last() != 0 {
            codes.last()
        } else {
            rest
        }
    }
}

pub fn combine_exit_codes(initial: i32, codes: &Vec<i32>) -> (c: i32)
    ensures
        c == spec_combined_code(initial, codes@),
{
    let mut exit_code = initial;
    let mut i: usize = 0;
    proof {
        assert(codes@.take(0) =~= Seq::<i32>::empty());
    }
    while i < codes.len()
        invariant
            i <= codes@.len(),
            exit_code == spec_combined_code(initial, codes@.take(i as int)),
        decreases codes@.len() - i,
    {
        proof {
            assert(codes@.take(i + 1 as int).drop_last() =~= codes@.take(i as int));
            assert(codes@.take(i + 1 as int).last() == codes@[i as int]);
        }
        let code = codes[i];
        if code != 0 {
            exit_code = code;
        }
        i = i + 1;
    }
    proof {
        assert(codes@.take(codes@.len() as int) =~= codes@);
    }
    exit_code
}

/// The directories a batch verify run processes: the listed directories not
/// yet in either ledger that hold a database file; also the length of the
/// longest directory path (for aligned rendering) and whether the known-bad
/// ledger was empty.
pub open spec fn spec_verify_selection(
    entries: Seq<DirEntry>,
    good: Seq<Seq<char>>,
    bad: Seq<Seq<char>>,
) -> Seq<Seq<char>>
    decreases entries.len(),
{
    if entries.len() == 0 {
        Seq::empty()
    } else {
        let front = spec_verify_selection(entries.drop_last(), good, bad);
        let e = entries.last();
        if e.is_dir && !good.contains(e.path@) && !bad.contains(e.path@) && e.has_db {
            front.push(e.path@)
        } else {
            front
        }
    }
}

/// The length of the longest directory path in the listing.
pub open spec fn spec_longest_dir(entries: Seq<DirEntry>) -> nat
    decreases entries.len(),
{
    if entries.len() == 0 {
        0
    } else {
        let front = spec_longest_dir(entries.drop_last());
        let e = entries.last();
        if e.is_dir && e.path@.len() > front {
            e.path@.len()
        } else {
            front
        }
    }
}

pub fn select_dirs_to_verify(entries: &Vec<DirEntry>, good: &Vec<String>, bad: &Vec<String>) -> (r:
    (Vec<String>, usize, bool))
    ensures
        str_views(r.0@) == spec_verify_selection(entries@, str_views(good@), str_views(bad@)),
        r.1 == spec_longest_dir(entries@),
        r.2 == (bad@.len() == 0),
{
    let ghost ggood = str_views(good@);
    let ghost gbad = str_views(bad@);
    let mut out: Vec<String> = Vec::new();
    let mut longest_folder: usize = 0;
    let mut i: usize = 0;
    proof {
        assert(entries@.take(0) =~= Seq::<DirEntry>::empty());
    }
    while i < entries.len()
        invariant
            i <= entries@.len(),
            ggood == str_views(good@),
            gbad == str_views(bad@),
            str_views(out@) == spec_verify_selection(entries@.take(i as int), ggood, gbad),
            longest_folder == spec_longest_dir(entries@.take(i as int)),
        decreases entries@.len() - i,
    {
        let e: &DirEntry = &entries[i];
        proof {
            assert(entries@.take(i + 1 as int).drop_last() =~= entries@.take(i as int));
            assert(entries@.take(i + 1 as int).last() == entries@[i as int]);
        }
        if e.is_dir {
            if !contains_string(good, e.path.as_str()) && !contains_string(bad, e.path.as_str())
                && e.has_db {
                let ghost v0 = out@;
                let copy = e.path.clone();
                let ghost g0 = copy;
                out.push(copy);
                proof {
                    lemma_str_views_push(v0, g0);
                }
            }
            let len = e.path.as_str().unicode_len();
            if len > longest_folder {
                longest_folder = len;
            }
        }
        i = i + 1;
    }
    proof {
        assert(entries@.take(entries@.len() as int) =~= entries@);
    }
    let known_bad_empty = bad.len() == 0;
    (out, longest_folder, known_bad_empty)
}

/// The per-directory failure detail file: `to_check_<dir>.txt`, with the
/// directory's rooted prefix removed when it is longer than two characters.
pub open spec fn spec_bad_detail_name(workdir: Seq<char>) -> Seq<char> {
    let d = if workdir.len() > 2 {
        workdir.skip(2)
    } else {
        workdir
    };
    "to_check_"@ + d + ".txt"@
}

pub fn bad_detail_file_name(workdir: &str) -> (r: String)
    ensures
        r@ == spec_bad_detail_name(workdir@),
{
    let len = workdir.unicode_len();
    let mut s = String::from_str("to_check_");
    if len > 2 {
        s.append(workdir.substring_char(2, len));
    } else {
        s.append(workdir);
    }
    s.append(".txt");
    s
}

/// The saturating byte total of the listed files.
pub open spec fn spec_sat_sum(sizes: Seq<u64>) -> int
    decreases sizes.len(),
{
    if sizes.len() == 0 {
        0
    } else {
        let s = spec_sat_sum(sizes.drop_last()) + sizes.last();
        if s > u64::MAX {
            u64::MAX as int
        } else {
            s
        }
    }
}

/// Sums the file sizes of a directory's listed paths, saturating at the
/// largest representable total.
pub fn sum_sizes(sizes: &Vec<u64>) -> (r: u64)
    ensures
        r as int == spec_sat_sum(sizes@),
{
    let mut all_bytes: u64 = 0;
    let mut i: usize = 0;
    proof {
        assert(sizes@.take(0) =~= Seq::<u64>::empty());
    }
    while i < sizes.len()
        invariant
            i <= sizes@.len(),
            all_bytes as int == spec_sat_sum(sizes@.take(i as int)),
        decreases sizes@.len() - i,
    {
        proof {
            assert(sizes@.take(i + 1 as int).drop_last() =~= sizes@.take(i as int));
            assert(sizes@.take(i + 1 as int).last() == sizes@[i as int]);
        }
        all_bytes = all_bytes.saturating_add(sizes[i]);
        i = i + 1;
    }
    proof {
        assert(sizes@.take(sizes@.len() as int) =~= sizes@);
    }
    all_bytes
}

/// Round trip of verify: for a worker line rebuilt from the fresh digest,
/// the judgement is clean exactly when the fresh digest equals the recorded
/// one, and on a mismatch exactly the file's path joins the failed list.
pub proof fn lemma_verify_roundtrip(
    digest: Seq<char>,
    expected: Seq<char>,
    path: Seq<char>,
    n: nat,
)
    requires
        digest.len() == n,
        forall|j: int| 0 <= j < n ==> pattern::is_hex_digit(#[trigger] digest[j]),
    ensures
        spec_judge_line(pattern::spec_db_line(digest, path).push('\n'), expected, n) == (
        if digest == expected {
            None::<Seq<char>>
        } else {
            Some(path)
        }),
{
    let line = pattern::spec_db_line(digest, path).push('\n');
    assert(spec_popped(line) =~= pattern::spec_db_line(digest, path));
    pattern::lemma_db_line_roundtrip(digest, path, n);
}

/// One directory's clean round trip, over a whole run: when every worker
/// line has the digest tool's shape — the fresh digest, two spaces, the
/// file's path, a trailing newline — and every fresh digest equals the
/// recorded one, no path is reported and the directory is classified Good.
/// That the worker lines have this shape is a fact about the outside digest
/// tool, named here as a hypothesis.
pub proof fn lemma_verify_run_clean(
    results: Seq<TaskResult>,
    digests: Seq<Seq<char>>,
    paths: Seq<Seq<char>>,
    n: nat,
)
    requires
        results.len() == digests.len(),
        results.len() == paths.len(),
        forall|k: int|
            0 <= k < results.len() ==> (#[trigger] results[k] matches TaskResult::Hashed {
                hashline,
                expected,
            } && hashline@ == pattern::spec_db_line(digests[k], paths[k]).push('\n') && expected@
                == digests[k]),
        forall|k: int| 0 <= k < digests.len() ==> (#[trigger] digests[k]).len() == n,
        forall|k: int, j: int|
            0 <= k < digests.len() && 0 <= j < n ==> pattern::is_hex_digit(
                #[trigger] digests[k][j],
            ),
    ensures
        spec_failed_paths(results, n) == Seq::<Seq<char>>::empty(),
        spec_outcome(spec_failed_paths(results, n)) == DirOutcome::Good,
    decreases results.len(),
{
    if results.len() > 0 {
        let last = (results.len() - 1) as int;
        lemma_verify_run_clean(results.drop_last(), digests.drop_last(), paths.drop_last(), n);
        lemma_verify_roundtrip(digests[last], digests[last], paths[last], n);
        assert(spec_judge_one(results[last], n) is None);
    }
}

/// One directory's mismatch round trip, over a whole run: with worker lines
/// of the digest tool's shape, an entry whose fresh digest differs from the
/// recorded one puts exactly its file's path on the failed list, and the
/// directory is classified Bad.
pub proof fn lemma_verify_run_mismatch(
    results: Seq<TaskResult>,
    digests: Seq<Seq<char>>,
    expecteds: Seq<Seq<char>>,
    paths: Seq<Seq<char>>,
    n: nat,
    i: int,
)
    requires
        results.len() == digests.len(),
        results.len() == expecteds.len(),
        results.len() == paths.len(),
        forall|k: int|
            0 <= k < results.len() ==> (#[trigger] results[k] matches TaskResult::Hashed {
                hashline,
                expected,
            } && hashline@ == pattern::spec_db_line(digests[k], paths[k]).push('\n') && expected@
                == expecteds[k]),
        forall|k: int| 0 <= k < digests.len() ==> (#[trigger] digests[k]).len() == n,
        forall|k: int, j: int|
            0 <= k < digests.len() && 0 <= j < n ==> pattern::is_hex_digit(
                #[trigger] digests[k][j],
            ),
        0 <= i < results.len(),
        digests[i] != expecteds[i],
    ensures
        spec_failed_paths(results, n).contains(paths[i]),
        spec_outcome(spec_failed_paths(results, n)) == DirOutcome::Bad,
    decreases results.len(),
{
    let last = (results.len() - 1) as int;
    let front = spec_failed_paths(results.drop_last(), n);
    if i == last {
        lemma_verify_roundtrip(digests[last], expecteds[last], paths[last], n);
        assert(spec_judge_one(results[last], n) == Some(paths[i]));
        assert(spec_failed_paths(results, n) == front.push(paths[i]));
        assert(spec_failed_paths(results, n)[front.len() as int] == paths[i]);
    } else {
        lemma_verify_run_mismatch(
            results.drop_last(),
            digests.drop_last(),
            expecteds.drop_last(),
            paths.drop_last(),
            n,
            i,
        );
        let w = choose|w: int| 0 <= w < front.len() && front[w] == paths[i];
        match spec_judge_one(results[last], n) {
            Some(p) => {
                assert(spec_failed_paths(results, n) == front.push(p));
                assert(spec_failed_paths(results, n)[w] == paths[i]);
            },
            None => {
                assert(spec_failed_paths(results, n) == front);
            },
        }
    }
}

/// The verdicts of a batch, one per directory, each from that directory's
/// results alone.
pub open spec fn spec_batch_outcomes(batch: Seq<Seq<TaskResult>>, n: nat) -> Seq<DirOutcome> {
    batch.map_values(|rs: Seq<TaskResult>| spec_outcome(spec_failed_paths(rs, n)))
}

/// Batch isolation: a directory's verdict depends only on its own results,
/// so changing other directories' results cannot change it.
pub proof fn lemma_batch_isolation(
    b1: Seq<Seq<TaskResult>>,
    b2: Seq<Seq<TaskResult>>,
    n: nat,
    i: int,
)
    requires
        0 <= i < b1.len(),
        0 <= i < b2.len(),
        b1[i] == b2[i],
    ensures
        spec_batch_outcomes(b1, n)[i] == spec_batch_outcomes(b2, n)[i],
{
}

/// One mutated directory in a batch: the directory whose results hold a
/// failure is Bad, and every sibling whose results are all clean is Good —
/// the mutation does not reach the siblings' verdicts.
pub proof fn lemma_batch_one_bad(batch: Seq<Seq<TaskResult>>, n: nat, i: int)
    requires
        0 <= i < batch.len(),
        spec_failed_paths(batch[i], n).len() > 0,
        forall|j: int|
            0 <= j < batch.len() && j != i ==> spec_failed_paths(#[trigger] batch[j], n).len()
                == 0,
    ensures
        spec_batch_outcomes(batch, n)[i] == DirOutcome::Bad,
        forall|j: int|
            0 <= j < batch.len() && j != i ==> #[trigger] spec_batch_outcomes(batch, n)[j]
                == DirOutcome::Good,
{
    assert(spec_batch_outcomes(batch, n)[i] == spec_outcome(spec_failed_paths(batch[i], n)));
    assert forall|j: int|
        0 <= j < batch.len() && j != i implies #[trigger] spec_batch_outcomes(batch, n)[j]
        == DirOutcome::Good by {
        assert(spec_batch_outcomes(batch, n)[j] == spec_outcome(spec_failed_paths(batch[j], n)));
    }
}

proof fn lemma_combined_code_all_zero(initial: i32, codes: Seq<i32>)
    requires
        forall|i: int| 0 <= i < codes.len() ==> codes[i] == 0,
    ensures
        spec_combined_code(initial, codes) == initial,
    decreases codes.len(),
{
    if codes.len() > 0 {
        lemma_combined_code_all_zero(initial, codes.drop_last());
    }
}

proof fn lemma_combined_code_some_one(initial: i32, codes: Seq<i32>)
    requires
        forall|i: int| 0 <= i < codes.len() ==> codes[i] == 0 || codes[i] == 1,
        exists|i: int| 0 <= i < codes.len() && codes[i] == 1,
    ensures
        spec_combined_code(initial, codes) == 1,
    decreases codes.len(),
{
    let w = choose|i: int| 0 <= i < codes.len() && codes[i] == 1;
    if codes.last() == 1 {
    } else {
        assert(w < codes.len() - 1);
        assert(codes.drop_last()[w] == 1);
        lemma_combined_code_some_one(initial, codes.drop_last());
    }
}

/// The exit-code policy: a clean batch run over a clean ledger exits 0; any
/// directory judged Bad in this run forces exit 1; a run in which nothing
/// failed but the ledger already held bad directories exits 2.
pub proof fn lemma_exit_code_policy(known_bad_empty: bool, codes: Seq<i32>)
    requires
        forall|i: int| 0 <= i < codes.len() ==> codes[i] == 0 || codes[i] == 1,
    ensures
        (forall|i: int| 0 <= i < codes.len() ==> codes[i] == 0) ==> spec_combined_code(
            spec_initial_code(known_bad_empty),
            codes,
        ) == (if known_bad_empty {
            0int
        } else {
            2int
        }),
        (exists|i: int| 0 <= i < codes.len() && codes[i] == 1) ==> spec_combined_code(
            spec_initial_code(known_bad_empty),
            codes,
        ) == 1,
{
    if forall|i: int| 0 <= i < codes.len() ==> codes[i] == 0 {
        lemma_combined_code_all_zero(spec_initial_code(known_bad_empty), codes);
    }
    if exists|i: int| 0 <= i < codes.len() && codes[i] == 1 {
        lemma_combined_code_some_one(spec_initial_code(known_bad_empty), codes);
    }
}

} // verus!
