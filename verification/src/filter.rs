//! A filter over candidate file paths: paths that are already recorded in a
//! directory's database file are suppressed, as is the database file's own
//! name, so that only paths still needing work survive.

use vstd::prelude::*;
use vstd::string::StringExecFns;
use crate::pattern;
use crate::text;
use crate::util;
use crate::util::Options;
use crate::util::str_views;

verus! {

/// The paths recorded in existing database lines: the captured path field
/// of every line that matches the pattern, in database order.
pub open spec fn spec_recorded_paths(lines: Seq<Seq<char>>, n: nat) -> Seq<Seq<char>>
    decreases lines.len(),
{
    if lines.len() == 0 {
        Seq::empty()
    } else {
        let front = spec_recorded_paths(lines.drop_last(), n);
        match pattern::captured_path(lines.last(), n) {
            Some(p) => front.push(p),
            None => front,
        }
    }
}

/// Appending lines to a database appends their recorded paths: the database
/// only grows, and a run that appends well-formed digest lines records
/// exactly the paths it hashed.
pub proof fn lemma_recorded_paths_append(lines1: Seq<Seq<char>>, lines2: Seq<Seq<char>>, n: nat)
    ensures
        spec_recorded_paths(lines1 + lines2, n) == spec_recorded_paths(lines1, n)
            + spec_recorded_paths(lines2, n),
    decreases lines2.len(),
{
    if lines2.len() == 0 {
        assert(lines1 + lines2 =~= lines1);
        assert(spec_recorded_paths(lines1, n) + spec_recorded_paths(lines2, n)
            =~= spec_recorded_paths(lines1, n));
    } else {
        lemma_recorded_paths_append(lines1, lines2.drop_last(), n);
        assert((lines1 + lines2).drop_last() =~= lines1 + lines2.drop_last());
        assert((lines1 + lines2).last() == lines2.last());
        match pattern::captured_path(lines2.last(), n) {
            Some(p) => {
                assert(spec_recorded_paths(lines1, n) + spec_recorded_paths(lines2, n) =~= (
                spec_recorded_paths(lines1, n) + spec_recorded_paths(
                    lines2.drop_last(),
                    n,
                )).push(p));
            },
            None => {},
        }
    }
}

/// An update run's appended lines record exactly the paths it hashed: each
/// appended line is a well-formed digest line, and such a line's captured
/// path is the path it was built from.
pub proof fn lemma_appended_lines_record_paths(
    lines: Seq<Seq<char>>,
    digests: Seq<Seq<char>>,
    paths: Seq<Seq<char>>,
    n: nat,
)
    requires
        lines.len() == paths.len(),
        lines.len() == digests.len(),
        forall|i: int|
            0 <= i < lines.len() ==> #[trigger] lines[i] == pattern::spec_db_line(
                digests[i],
                paths[i],
            ),
        forall|i: int| 0 <= i < digests.len() ==> (#[trigger] digests[i]).len() == n,
        forall|i: int, j: int|
            0 <= i < digests.len() && 0 <= j < n ==> pattern::is_hex_digit(
                #[trigger] digests[i][j],
            ),
    ensures
        spec_recorded_paths(lines, n) == paths,
    decreases lines.len(),
{
    if lines.len() > 0 {
        let last = (lines.len() - 1) as int;
        lemma_appended_lines_record_paths(
            lines.drop_last(),
            digests.drop_last(),
            paths.drop_last(),
            n,
        );
        pattern::lemma_db_line_roundtrip(digests[last], paths[last], n);
        assert(spec_recorded_paths(lines, n) =~= paths);
    } else {
        assert(spec_recorded_paths(lines, n) =~= paths);
    }
}

/// The database file's own name, as the walker emits it.
pub open spec fn spec_db_file_name(algo: Seq<char>) -> Seq<char> {
    "./"@ + algo + "sum.txt"@
}

/// The structure that gets wrapped around a stream of candidate paths to
/// filter it.
pub struct Filter {
    /// The filenames that were already hashed in the past, gathered from the existing database lines
    already_calculated_files: Vec<String>,
    /// The algorithm that was used to hash the files, e.g. "sha1"
    algorithm: String,
    /// The rooted name of the database file itself
    db_file_name: String,
}

impl Filter {
    pub closed spec fn recorded(self) -> Seq<Seq<char>> {
        str_views(self.already_calculated_files@)
    }

    pub closed spec fn spec_algorithm(self) -> Seq<char> {
        self.algorithm@
    }

    pub closed spec fn wf(self) -> bool {
        self.db_file_name@ == spec_db_file_name(self.algorithm@)
    }

    /// A candidate line survives the filter when it is not recorded in the
    /// database and is not the database file's own name.
    pub open spec fn spec_accepts(self, line: Seq<char>) -> bool {
        !self.recorded().contains(line) && line != spec_db_file_name(self.spec_algorithm())
    }

    /// Creates a new instance of Filter from the existing database lines.
    /// Fails exactly when the configured algorithm is not recognized.
    pub fn new(db_lines: &Vec<String>, opts: &Options) -> (r: Result<Filter, &'static str>)
        ensures
            match r {
                Ok(f) => {
                    &&& pattern::spec_digest_len(opts.algorithm@) is Some
                    &&& f.wf()
                    &&& f.spec_algorithm() == opts.algorithm@
                    &&& f.recorded() == spec_recorded_paths(
                        str_views(db_lines@),
                        pattern::spec_digest_len(opts.algorithm@).unwrap() as nat,
                    )
                },
                Err(e) => {
                    &&& pattern::spec_digest_len(opts.algorithm@) is None
                    &&& e@ == "Could not recognize hashing algorithm"@
                },
            },
    {
        let file_path_re = match util::regex_from_opts(opts) {
            Ok(re) => re,
            Err(e) => {
                return Err(e);
            },
        };
        let ghost gn = file_path_re.spec_digest_len();
        let ghost glines = str_views(db_lines@);
        let mut already_calculated_files: Vec<String> = Vec::new();
        let mut i: usize = 0;
        proof {
            assert(str_views(already_calculated_files@) =~= spec_recorded_paths(
                glines.take(0),
                gn,
            ));
        }
        while i < db_lines.len()
            invariant
                i <= db_lines.len(),
                glines == str_views(db_lines@),
                glines.len() == db_lines@.len(),
                file_path_re.wf(),
                gn == file_path_re.spec_digest_len(),
                pattern::spec_digest_len(opts.algorithm@) == Some(
                    file_path_re.spec_digest_len() as usize,
                ),
                str_views(already_calculated_files@) == spec_recorded_paths(
                    glines.take(i as int),
                    gn,
                ),
            decreases db_lines.len() - i,
        {
            let line: &String = &db_lines[i];
            proof {
                assert(glines[i as int] == line@);
                assert(glines.take(i + 1 as int).drop_last() =~= glines.take(i as int));
                assert(glines.take(i + 1 as int).last() == line@);
            }
            match file_path_re.captures(line.as_str()) {
                Some(c) => {
                    let (_hash, path) = c;
                    let ghost v0 = already_calculated_files@;
                    let ghost g0 = path;
                    already_calculated_files.push(path);
                    proof {
                        util::lemma_str_views_push(v0, g0);
                    }
                },
                None => {},
            }
            i = i + 1;
        }
        proof {
            assert(glines.take(glines.len() as int) =~= glines);
            file_path_re.lemma_digest_len_bound();
            assert(pattern::spec_digest_len(opts.algorithm@).unwrap() as nat == gn);
        }
        let mut db_file_name = String::from_str("./");
        db_file_name.append(opts.algorithm.as_str());
        db_file_name.append("sum.txt");
        let algorithm = opts.algorithm.clone();
        Ok(Filter { already_calculated_files, algorithm, db_file_name })
    }

    /// Does this candidate line survive the filter?
    pub fn accepts(&self, line: &str) -> (b: bool)
        requires
            self.wf(),
        ensures
            b == self.spec_accepts(line@),
    {
        let mut i: usize = 0;
        while i < self.already_calculated_files.len()
            invariant
                i <= self.already_calculated_files.len(),
                forall|j: int| 0 <= j < i ==> self.recorded()[j] != line@,
            decreases self.already_calculated_files.len() - i,
        {
            if text::str_eq(self.already_calculated_files[i].as_str(), line) {
                proof {
                    assert(self.recorded()[i as int] == line@);
                }
                return false;
            }
            i = i + 1;
        }
        if text::str_eq(line, self.db_file_name.as_str()) {
            return false;
        }
        proof {
            assert(forall|j: int|
                0 <= j < self.recorded().len() ==> self.recorded()[j] != line@);
        }
        true
    }

    /// Filters a batch of candidate lines, keeping their order.
    pub fn apply(&self, lines: &Vec<String>) -> (r: Vec<String>)
        requires
            self.wf(),
        ensures
            str_views(r@) == str_views(lines@).filter(|l: Seq<char>| self.spec_accepts(l)),
    {
        let ghost pred = |l: Seq<char>| self.spec_accepts(l);
        let ghost glines = str_views(lines@);
        let mut out: Vec<String> = Vec::new();
        let mut i: usize = 0;
        proof {
            reveal(Seq::filter);
            assert(str_views(out@) =~= glines.take(0).filter(pred));
        }
        while i < lines.len()
            invariant
                i <= lines.len(),
                glines == str_views(lines@),
                glines.len() == lines@.len(),
                self.wf(),
                pred == (|l: Seq<char>| self.spec_accepts(l)),
                str_views(out@) == glines.take(i as int).filter(pred),
            decreases lines.len() - i,
        {
            let line: &String = &lines[i];
            proof {
                reveal(Seq::filter);
                assert(glines[i as int] == line@);
                assert(glines.take(i + 1 as int).drop_last() =~= glines.take(i as int));
                assert(glines.take(i + 1 as int).last() == line@);
            }
            if self.accepts(line.as_str()) {
                let ghost v0 = out@;
                let copy = line.clone();
                let ghost g0 = copy;
                out.push(copy);
                proof {
                    util::lemma_str_views_push(v0, g0);
                }
            }
            i = i + 1;
        }
        proof {
            assert(glines.take(glines.len() as int) =~= glines);
        }
        out
    }
}

} // verus!
