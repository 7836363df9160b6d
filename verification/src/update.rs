//! The update pipeline's decisions: which subdirectories to process, which
//! candidate paths still need hashing, what tasks to enqueue, and which
//! returned lines to append to the database — together with the laws that
//! make update idempotent, monotone and schedule-independent.

use vstd::prelude::*;
use vstd::string::StrSliceExecFns;
use vstd::string::StringExecFns;
use crate::filter::Filter;
use crate::filter::spec_db_file_name;
use crate::task::HashTask;
use crate::task::TaskResult;
use crate::task::task_view;
use crate::text;
use crate::util::DirEntry;
use crate::util::contains_string;
use crate::util::lemma_str_views_push;
use crate::util::str_views;

verus! {

/// Does the path already carry the rooted prefix?
pub open spec fn spec_rooted(p: Seq<char>) -> bool {
    p.len() >= 2 && p[0] == '.' && p[1] == '/'
}

/// An ignore entry, normalized to rooted form.
pub open spec fn spec_normalize(p: Seq<char>) -> Seq<char> {
    if spec_rooted(p) {
        p
    } else {
        seq!['.', '/'] + p
    }
}

pub open spec fn spec_normalize_all(ps: Seq<Seq<char>>) -> Seq<Seq<char>> {
    ps.map_values(|p: Seq<char>| spec_normalize(p))
}

/// Normalizes the names read from the ignore file: a name without a leading
/// `./` gets one, so that it compares against traversal-produced paths.
pub fn normalize_ignore_paths(paths: &Vec<String>) -> (r: Vec<String>)
    ensures
        str_views(r@) == spec_normalize_all(str_views(paths@)),
{
    let ghost gpaths = str_views(paths@);
    let mut out: Vec<String> = Vec::new();
    let mut i: usize = 0;
    proof {
        assert(str_views(out@) =~= spec_normalize_all(gpaths).take(0));
    }
    while i < paths.len()
        invariant
            i <= paths@.len(),
            gpaths == str_views(paths@),
            gpaths.len() == paths@.len(),
            str_views(out@) == spec_normalize_all(gpaths).take(i as int),
        decreases paths@.len() - i,
    {
        let p: &String = &paths[i];
        proof {
            assert(gpaths[i as int] == p@);
            assert(spec_normalize_all(gpaths)[i as int] == spec_normalize(p@));
        }
        let rooted = p.as_str().unicode_len() >= 2 && p.as_str().get_char(0) == '.'
            && p.as_str().get_char(1) == '/';
        let entry = if rooted {
            p.clone()
        } else {
            let mut s = String::new();
            text::push_char(&mut s, '.');
            text::push_char(&mut s, '/');
            s.append(p.as_str());
            proof {
                assert(s@ =~= seq!['.', '/'] + p@);
            }
            s
        };
        let ghost v0 = out@;
        let ghost g0 = entry;
        out.push(entry);
        proof {
            lemma_str_views_push(v0, g0);
            assert(str_views(out@) =~= spec_normalize_all(gpaths).take(i + 1 as int));
        }
        i = i + 1;
    }
    proof {
        assert(spec_normalize_all(gpaths).take(gpaths.len() as int) =~= spec_normalize_all(
            gpaths,
        ));
    }
    out
}

/// The directories an update run processes: the listed directories that are
/// not on the (normalized) ignore list, in listing order.
pub open spec fn spec_update_selection(entries: Seq<DirEntry>, ignore: Seq<Seq<char>>) -> Seq<
    Seq<char>,
>
    decreases entries.len(),
{
    if entries.len() == 0 {
        Seq::empty()
    } else {
        let front = spec_update_selection(entries.drop_last(), ignore);
        let e = entries.last();
        if e.is_dir && !ignore.contains(e.path@) {
            front.push(e.path@)
        } else {
            front
        }
    }
}

/// Selects the directories to update from a directory listing, honoring the
/// normalized ignore list.
pub fn select_dirs_to_update(entries: &Vec<DirEntry>, to_ignore: &Vec<String>) -> (r: Vec<String>)
    ensures
        str_views(r@) == spec_update_selection(entries@, str_views(to_ignore@)),
{
    let ghost gign = str_views(to_ignore@);
    let mut out: Vec<String> = Vec::new();
    let mut i: usize = 0;
    proof {
        assert(str_views(out@) =~= spec_update_selection(entries@.take(0), gign));
    }
    while i < entries.len()
        invariant
            i <= entries@.len(),
            gign == str_views(to_ignore@),
            str_views(out@) == spec_update_selection(entries@.take(i as int), gign),
        decreases entries@.len() - i,
    {
        let e: &DirEntry = &entries[i];
        proof {
            assert(entries@.take(i + 1 as int).drop_last() =~= entries@.take(i as int));
            assert(entries@.take(i + 1 as int).last() == entries@[i as int]);
        }
        if e.is_dir && !contains_string(to_ignore, e.path.as_str()) {
            let ghost v0 = out@;
            let copy = e.path.clone();
            let ghost g0 = copy;
            out.push(copy);
            proof {
                lemma_str_views_push(v0, g0);
            }
        }
        i = i + 1;
    }
    proof {
        assert(entries@.take(entries@.len() as int) =~= entries@);
    }
    out
}

/// One compute-only task per path that survived the filter.
pub fn make_update_tasks(paths: &Vec<String>, workdir: &str, algorithm: &str) -> (r: Vec<HashTask>)
    ensures
        r@.len() == paths@.len(),
        forall|i: int|
            0 <= i < r@.len() ==> #[trigger] task_view(r@[i]) == (
                str_views(paths@)[i],
                workdir@,
                algorithm@,
                Seq::<char>::empty(),
            ),
{
    let mut out: Vec<HashTask> = Vec::new();
    let mut i: usize = 0;
    while i < paths.len()
        invariant
            i <= paths@.len(),
            out@.len() == i,
            forall|j: int|
                0 <= j < i ==> #[trigger] task_view(out@[j]) == (
                    str_views(paths@)[j],
                    workdir@,
                    algorithm@,
                    Seq::<char>::empty(),
                ),
        decreases paths@.len() - i,
    {
        let task = HashTask {
            path: paths[i].clone(),
            workdir: String::from_str(workdir),
            algorithm: String::from_str(algorithm),
            cmp: String::new(),
        };
        out.push(task);
        proof {
            assert(str_views(paths@)[i as int] == paths@[i as int]@);
        }
        i = i + 1;
    }
    out
}

/// The database lines one update run appends: the formatted line of every
/// successful result, in arrival order; failed tasks contribute nothing.
pub open spec fn spec_ok_lines(rs: Seq<TaskResult>) -> Seq<Seq<char>>
    decreases rs.len(),
{
    if rs.len() == 0 {
        Seq::empty()
    } else {
        let front = spec_ok_lines(rs.drop_last());
        match rs.last() {
            TaskResult::Hashed { hashline, expected } => front.push(hashline@),
            TaskResult::Failed { description } => front,
        }
    }
}

/// Collects the lines to append from the arrived results.
pub fn update_lines_to_append(results: &Vec<TaskResult>) -> (r: Vec<String>)
    ensures
        str_views(r@) == spec_ok_lines(results@),
{
    let mut out: Vec<String> = Vec::new();
    let mut i: usize = 0;
    proof {
        assert(str_views(out@) =~= spec_ok_lines(results@.take(0)));
    }
    while i < results.len()
        invariant
            i <= results@.len(),
            str_views(out@) == spec_ok_lines(results@.take(i as int)),
        decreases results@.len() - i,
    {
        proof {
            assert(results@.take(i + 1 as int).drop_last() =~= results@.take(i as int));
            assert(results@.take(i + 1 as int).last() == results@[i as int]);
        }
        match &results[i] {
            TaskResult::Hashed { hashline, expected } => {
                let ghost v0 = out@;
                let copy = hashline.clone();
                let ghost g0 = copy;
                out.push(copy);
                proof {
                    lemma_str_views_push(v0, g0);
                }
            },
            TaskResult::Failed { description } => {},
        }
        i = i + 1;
    }
    proof {
        assert(results@.take(results@.len() as int) =~= results@);
    }
    out
}

proof fn lemma_filter_all_rejected<A>(s: Seq<A>, pred: spec_fn(A) -> bool)
    requires
        forall|i: int| 0 <= i < s.len() ==> !pred(#[trigger] s[i]),
    ensures
        s.filter(pred) == Seq::<A>::empty(),
    decreases s.len(),
{
    reveal(Seq::filter);
    if s.len() > 0 {
        lemma_filter_all_rejected(s.drop_last(), pred);
    }
}

proof fn lemma_filter_all_accepted<A>(s: Seq<A>, pred: spec_fn(A) -> bool)
    requires
        forall|i: int| 0 <= i < s.len() ==> pred(#[trigger] s[i]),
    ensures
        s.filter(pred) == s,
    decreases s.len(),
{
    reveal(Seq::filter);
    if s.len() > 0 {
        lemma_filter_all_accepted(s.drop_last(), pred);
        assert(s.drop_last().push(s.last()) =~= s);
    }
}

/// Idempotence of update: a second run over the same candidates appends
/// nothing. `f1` is the filter of the first run and `f2` the filter after
/// the first run's lines were appended; since the database only grows and
/// the first run recorded every path it accepted, the second filter accepts
/// no candidate at all.
pub proof fn lemma_update_idempotent(f1: Filter, f2: Filter, candidates: Seq<Seq<char>>)
    requires
        f1.spec_algorithm() == f2.spec_algorithm(),
        forall|p: Seq<char>|
            f1.recorded().contains(p) ==> #[trigger] f2.recorded().contains(p),
        forall|p: Seq<char>|
            candidates.contains(p) && f1.spec_accepts(p) ==> #[trigger] f2.recorded().contains(p),
    ensures
        candidates.filter(|l: Seq<char>| f2.spec_accepts(l)) == Seq::<Seq<char>>::empty(),
{
    assert forall|i: int| 0 <= i < candidates.len() implies !(|l: Seq<char>| f2.spec_accepts(l))(
        #[trigger] candidates[i],
    ) by {
        let c = candidates[i];
        assert(candidates.contains(c));
        if f1.spec_accepts(c) {
            assert(f2.recorded().contains(c));
        }
    }
    lemma_filter_all_rejected(candidates, |l: Seq<char>| f2.spec_accepts(l));
}

/// Monotonicity of update: when the database already covers every old
/// candidate and one fresh file is added, exactly that one path survives
/// the filter, so exactly one line is appended and the prior lines stand.
pub proof fn lemma_update_monotone(f: Filter, candidates: Seq<Seq<char>>, newfile: Seq<char>)
    requires
        forall|p: Seq<char>| candidates.contains(p) ==> !(#[trigger] f.spec_accepts(p)),
        f.spec_accepts(newfile),
    ensures
        candidates.push(newfile).filter(|l: Seq<char>| f.spec_accepts(l)) == seq![newfile],
{
    reveal(Seq::filter);
    let pred = |l: Seq<char>| f.spec_accepts(l);
    assert forall|i: int| 0 <= i < candidates.len() implies !pred(#[trigger] candidates[i]) by {
        assert(candidates.contains(candidates[i]));
    }
    lemma_filter_all_rejected(candidates, pred);
    assert(candidates.push(newfile).drop_last() =~= candidates);
    assert(candidates.push(newfile).filter(pred) =~= seq![newfile]);
}

/// Coverage of update: with no pre-existing database, every candidate that
/// is not the database's own name survives the filter, so a directory with
/// N files yields exactly N database lines.
pub proof fn lemma_update_coverage(f: Filter, candidates: Seq<Seq<char>>)
    requires
        f.recorded() == Seq::<Seq<char>>::empty(),
        forall|i: int|
            0 <= i < candidates.len() ==> #[trigger] candidates[i] != spec_db_file_name(
                f.spec_algorithm(),
            ),
    ensures
        candidates.filter(|l: Seq<char>| f.spec_accepts(l)) == candidates,
{
    let pred = |l: Seq<char>| f.spec_accepts(l);
    assert forall|i: int| 0 <= i < candidates.len() implies pred(#[trigger] candidates[i]) by {
        assert(!f.recorded().contains(candidates[i]));
    }
    lemma_filter_all_accepted(candidates, pred);
}

/// The ignore list is honored: a directory on the ignore list is never
/// selected for update, so no database file is created in it.
pub proof fn lemma_ignore_honored(entries: Seq<DirEntry>, ignore: Seq<Seq<char>>, d: Seq<char>)
    requires
        ignore.contains(d),
    ensures
        !spec_update_selection(entries, ignore).contains(d),
    decreases entries.len(),
{
    if entries.len() > 0 {
        lemma_ignore_honored(entries.drop_last(), ignore, d);
        let front = spec_update_selection(entries.drop_last(), ignore);
        let e = entries.last();
        if e.is_dir && !ignore.contains(e.path@) {
            assert forall|i: int|
                0 <= i < front.push(e.path@).len() implies front.push(e.path@)[i] != d by {
                if i < front.len() {
                    assert(!front.contains(d));
                }
            }
        }
    }
}

/// The contribution of one result to the appended lines, as a multiset
/// delta: removing the result at `j` removes exactly its line, if any.
proof fn lemma_ok_lines_remove(s: Seq<TaskResult>, j: int)
    requires
        0 <= j < s.len(),
    ensures
        match s[j] {
            TaskResult::Hashed { hashline, expected } => spec_ok_lines(s).to_multiset()
                == spec_ok_lines(s.remove(j)).to_multiset().insert(hashline@),
            TaskResult::Failed { description } => spec_ok_lines(s).to_multiset() == spec_ok_lines(
                s.remove(j),
            ).to_multiset(),
        },
    decreases s.len(),
{
    broadcast use vstd::seq_lib::to_multiset_build;

    if j == s.len() - 1 {
        assert(s.remove(j) =~= s.drop_last());
    } else {
        let front = s.drop_last();
        assert(s.remove(j).drop_last() =~= front.remove(j));
        assert(s.remove(j).last() == s.last());
        lemma_ok_lines_remove(front, j);
        match s.last() {
            TaskResult::Hashed { hashline: lastline, expected: laste } => {
                assert(spec_ok_lines(s) == spec_ok_lines(front).push(lastline@));
                assert(spec_ok_lines(s.remove(j)) == spec_ok_lines(front.remove(j)).push(
                    lastline@,
                ));
                match front[j] {
                    TaskResult::Hashed { hashline, expected } => {
                        assert(spec_ok_lines(s).to_multiset() =~= spec_ok_lines(
                            s.remove(j),
                        ).to_multiset().insert(hashline@));
                    },
                    TaskResult::Failed { description } => {
                        assert(spec_ok_lines(s).to_multiset() =~= spec_ok_lines(
                            s.remove(j),
                        ).to_multiset());
                    },
                }
            },
            TaskResult::Failed { description } => {
                assert(spec_ok_lines(s) == spec_ok_lines(front));
                assert(spec_ok_lines(s.remove(j)) == spec_ok_lines(front.remove(j)));
            },
        }
    }
}

/// Scheduling order does not affect the database contents: result sequences
/// that are permutations of each other yield permutations of the same
/// appended lines, so an update run with one worker and one with many
/// produce set-equal databases.
pub proof fn lemma_update_order_irrelevant(r1: Seq<TaskResult>, r2: Seq<TaskResult>)
    requires
        r1.to_multiset() == r2.to_multiset(),
    ensures
        spec_ok_lines(r1).to_multiset() == spec_ok_lines(r2).to_multiset(),
    decreases r1.len(),
{
    broadcast use vstd::seq_lib::to_multiset_build;
    broadcast use vstd::seq_lib::to_multiset_remove;
    broadcast use vstd::seq_lib::to_multiset_len;
    broadcast use vstd::seq_lib::to_multiset_contains;

    if r1.len() == 0 {
        assert(r1.to_multiset().len() == 0);
        assert(r2.to_multiset().len() == 0);
        assert(r2.len() == 0);
    } else {
        let x = r1.last();
        let front = r1.drop_last();
        assert(front.push(x) =~= r1);
        assert(r1.to_multiset() == front.to_multiset().insert(x));
        assert(r1.to_multiset().count(x) > 0);
        assert(r2.to_multiset().count(x) > 0);
        assert(r2.contains(x));
        let j = choose|j: int| 0 <= j < r2.len() && r2[j] == x;
        let r2p = r2.remove(j);
        assert(r2p.to_multiset() == r2.to_multiset().remove(x));
        assert(front.to_multiset() =~= r1.to_multiset().remove(x));
        assert(front.to_multiset() == r2p.to_multiset());
        lemma_update_order_irrelevant(front, r2p);
        lemma_ok_lines_remove(r2, j);
        match x {
            TaskResult::Hashed { hashline, expected } => {
                assert(spec_ok_lines(r1) == spec_ok_lines(front).push(hashline@));
                assert(spec_ok_lines(r1).to_multiset() =~= spec_ok_lines(r2).to_multiset());
            },
            TaskResult::Failed { description } => {
                assert(spec_ok_lines(r1) == spec_ok_lines(front));
                assert(spec_ok_lines(r1).to_multiset() =~= spec_ok_lines(r2).to_multiset());
            },
        }
    }
}

} // verus!
