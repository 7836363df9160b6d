//! Program configuration: the operating mode, the log level, and the
//! `Options` object built from command-line words, together with the
//! algorithm-to-pattern lookup.

use vstd::prelude::*;
use vstd::string::StrSliceExecFns;
use vstd::string::StringExecFns;
use vstd::string::StringSliceAdditionalSpecFns;
use crate::pattern;
use crate::pattern::LinePattern;
use crate::text;

verus! {

/// The mode the program will operate in.
#[derive(Debug, PartialEq, Eq, Structural, Clone, Copy)]
pub enum Mode {
    Filter,
    Update,
    Verify,
}

/// The level of detail the program will be logging.
#[derive(Debug, PartialEq, Eq, Structural, Clone, Copy)]
pub enum LogLevel {
    Quiet,
    Info,
    Progress,
    Debug,
}

/// The views of a sequence of strings.
pub open spec fn str_views(v: Seq<String>) -> Seq<Seq<char>> {
    v.map_values(|s: String| s@)
}

pub proof fn lemma_str_views_push(v: Seq<String>, s: String)
    ensures
        str_views(v.push(s)) == str_views(v).push(s@),
{
    let l = str_views(v.push(s));
    let r = str_views(v).push(s@);
    assert forall|i: int| 0 <= i < l.len() implies l[i] == r[i] by {
        if i < v.len() {
            assert(v.push(s)[i] == v[i]);
        } else {
            assert(v.push(s)[i] == s);
        }
    }
    assert(l =~= r);
}

/// A single structure built from the command-line words that describes the
/// behavior of the program.
#[derive(Debug, Clone)]
pub struct Options {
    /// Whether or not the help message will be displayed
    pub help: bool,
    /// The name the program was invoked under
    pub program_name: String,
    /// The hashing algorithm to use
    pub algorithm: String,
    /// Whether or not it will be operated on a single folder or every subfolder
    pub subdir_mode: bool,
    /// The mode the program will operate in
    pub mode: Mode,
    /// The level of detail the program will be logging
    pub log_level: LogLevel,
    /// Maximum number of threads to spawn (0 means one per logical core)
    pub num_threads: usize,
    /// The folder to operate on
    pub folder: String,
}

/// The mathematical shadow of `Options`.
#[verifier::ext_equal]
pub ghost struct OptionsV {
    pub help: bool,
    pub program_name: Seq<char>,
    pub algorithm: Seq<char>,
    pub subdir_mode: bool,
    pub mode: Mode,
    pub log_level: LogLevel,
    pub num_threads: nat,
    pub folder: Seq<char>,
}

impl View for Options {
    type V = OptionsV;

    open spec fn view(&self) -> OptionsV {
        OptionsV {
            help: self.help,
            program_name: self.program_name@,
            algorithm: self.algorithm@,
            subdir_mode: self.subdir_mode,
            mode: self.mode,
            log_level: self.log_level,
            num_threads: self.num_threads as nat,
            folder: self.folder@,
        }
    }
}

pub open spec fn contains_double_dash(a: Seq<char>) -> bool {
    exists|i: int| 0 <= i && i + 1 < a.len() && a[i] == '-' && #[trigger] a[i + 1] == '-'
}

fn has_double_dash(s: &str) -> (r: bool)
    ensures
        r == contains_double_dash(s@),
{
    let n = s.unicode_len();
    if n < 2 {
        return false;
    }
    let mut i: usize = 0;
    while i + 1 < n
        invariant
            i + 1 <= n,
            n == s@.len(),
            forall|j: int| 0 <= j && j + 1 < i + 1 ==> !(s@[j] == '-' && #[trigger] s@[j + 1]
                == '-'),
        decreases n - i,
    {
        if s.get_char(i) == '-' && s.get_char(i + 1) == '-' {
            return true;
        }
        i = i + 1;
    }
    false
}

/// What one command-line word becomes in the prepared list: split at the
/// first `=`; or, for a short option cluster (has a dash, no double dash,
/// more than two characters), one `-c` word per character after the first;
/// or the word itself.
pub open spec fn prep_one(a: Seq<char>) -> Seq<Seq<char>> {
    if a.contains('=') {
        match text::spec_find_char(a, '=') {
            Some(p) => seq![a.subrange(0, p), a.subrange(p + 1, a.len() as int)],
            None => seq![a],
        }
    } else if a.contains('-') && !contains_double_dash(a) && a.len() > 2 {
        Seq::new((a.len() - 1) as nat, |k: int| seq!['-', a[k + 1]])
    } else {
        seq![a]
    }
}

pub open spec fn spec_prepare(args: Seq<Seq<char>>) -> Seq<Seq<char>>
    decreases args.len(),
{
    if args.len() == 0 {
        Seq::empty()
    } else {
        spec_prepare(args.drop_last()) + prep_one(args.last())
    }
}

/// Each word contributes at least one prepared word.
pub proof fn lemma_prepare_len(args: Seq<Seq<char>>)
    ensures
        spec_prepare(args).len() >= args.len(),
    decreases args.len(),
{
    if args.len() > 0 {
        lemma_prepare_len(args.drop_last());
    }
}

/// One `-c` word for a single character.
fn dash_arg(c: char) -> (r: String)
    ensures
        r@ =~= seq!['-', c],
{
    let mut s = String::new();
    push_char_local(&mut s, '-');
    push_char_local(&mut s, c);
    s
}

fn push_char_local(s: &mut String, c: char)
    ensures
        final(s)@ == old(s)@.push(c),
{
    text::push_char(s, c)
}

/// Prepares the command-line words for option parsing: `--x=y` becomes two
/// words, and a short option cluster such as `-ab` becomes `-a` `-b`.
pub fn prepare_args(args: &Vec<String>) -> (r: Vec<String>)
    ensures
        str_views(r@) == spec_prepare(str_views(args@)),
{
    let mut prepared_args: Vec<String> = Vec::new();
    let ghost gargs = str_views(args@);
    let mut i: usize = 0;
    proof {
        assert(str_views(prepared_args@) =~= spec_prepare(gargs.take(0)));
    }
    while i < args.len()
        invariant
            i <= args.len(),
            gargs == str_views(args@),
            gargs.len() == args@.len(),
            str_views(prepared_args@) == spec_prepare(gargs.take(i as int)),
        decreases args.len() - i,
    {
        let arg: &String = &args[i];
        proof {
            assert(gargs[i as int] == arg@);
            assert(gargs.take(i + 1 as int).drop_last() =~= gargs.take(i as int));
            assert(gargs.take(i + 1 as int).last() == arg@);
        }
        let ghost pre = str_views(prepared_args@);
        match text::find_char(arg.as_str(), '=') {
            Some(p) => {
                let n = arg.as_str().unicode_len();
                let prefix = arg.as_str().substring_char(0, p);
                let suffix = arg.as_str().substring_char(p + 1, n);
                let ghost v0 = prepared_args@;
                let pre_string = String::from_str(prefix);
                let ghost g0 = pre_string;
                prepared_args.push(pre_string);
                let ghost v1 = prepared_args@;
                let suf_string = String::from_str(suffix);
                let ghost g1 = suf_string;
                prepared_args.push(suf_string);
                proof {
                    lemma_str_views_push(v0, g0);
                    lemma_str_views_push(v1, g1);
                    assert(arg@.contains(arg@[p as int]));
                    assert(str_views(prepared_args@) =~= pre + prep_one(arg@));
                }
            },
            None => {
                let is_cluster = text::contains_char(arg.as_str(), '-') && !has_double_dash(
                    arg.as_str(),
                ) && arg.as_str().unicode_len() > 2;
                if is_cluster {
                    let n = arg.as_str().unicode_len();
                    let ghost cluster = Seq::new(
                        (arg@.len() - 1) as nat,
                        |k: int| seq!['-', arg@[k + 1]],
                    );
                    let mut k: usize = 1;
                    proof {
                        assert(pre + cluster.take(0) =~= pre);
                    }
                    while k < n
                        invariant
                            1 <= k <= n,
                            n == arg@.len(),
                            n > 2,
                            cluster == Seq::new(
                                (arg@.len() - 1) as nat,
                                |k2: int| seq!['-', arg@[k2 + 1]],
                            ),
                            str_views(prepared_args@) == pre + cluster.take(k - 1),
                        decreases n - k,
                    {
                        let single_arg = dash_arg(arg.as_str().get_char(k));
                        let ghost v0 = prepared_args@;
                        let ghost g0 = single_arg;
                        prepared_args.push(single_arg);
                        proof {
                            lemma_str_views_push(v0, g0);
                            assert(g0@ =~= cluster[k - 1]);
                            assert(str_views(prepared_args@) =~= pre + cluster.take(k as int));
                        }
                        k = k + 1;
                    }
                    proof {
                        assert(cluster.take(n - 1) =~= cluster);
                        assert(str_views(prepared_args@) =~= pre + prep_one(arg@));
                    }
                } else {
                    let copy = arg.clone();
                    let ghost v0 = prepared_args@;
                    let ghost g0 = copy;
                    prepared_args.push(copy);
                    proof {
                        lemma_str_views_push(v0, g0);
                        assert(str_views(prepared_args@) =~= pre + prep_one(arg@));
                    }
                }
            },
        }
        i = i + 1;
    }
    proof {
        assert(gargs.take(gargs.len() as int) =~= gargs);
    }
    prepared_args
}

/// The prepared words whose following word is an option value, not a folder.
pub open spec fn takes_value(a: Seq<char>) -> bool {
    a == "--loglevel"@ || a == "--log_level"@ || a == "--log-level"@ || a == "-a"@ || a
        == "--algo"@ || a == "--algorithm"@ || a == "-T"@ || a == "--threads"@
}

fn takes_value_exec(a: &str) -> (r: bool)
    ensures
        r == takes_value(a@),
{
    text::str_eq(a, "--loglevel") || text::str_eq(a, "--log_level") || text::str_eq(
        a,
        "--log-level",
    ) || text::str_eq(a, "-a") || text::str_eq(a, "--algo") || text::str_eq(a, "--algorithm")
        || text::str_eq(a, "-T") || text::str_eq(a, "--threads")
}

pub open spec fn spec_loglevel_of(v: Seq<char>) -> LogLevel {
    if v == "none"@ || v == "quiet"@ || v == "0"@ {
        LogLevel::Quiet
    } else if v == "info"@ || v == "1"@ {
        LogLevel::Info
    } else if v == "progress"@ {
        LogLevel::Progress
    } else if v == "debug"@ || v == "2"@ {
        LogLevel::Debug
    } else {
        LogLevel::Info
    }
}

fn loglevel_of(v: &str) -> (r: LogLevel)
    ensures
        r == spec_loglevel_of(v@),
{
    if text::str_eq(v, "none") || text::str_eq(v, "quiet") || text::str_eq(v, "0") {
        LogLevel::Quiet
    } else if text::str_eq(v, "info") || text::str_eq(v, "1") {
        LogLevel::Info
    } else if text::str_eq(v, "progress") {
        LogLevel::Progress
    } else if text::str_eq(v, "debug") || text::str_eq(v, "2") {
        LogLevel::Debug
    } else {
        LogLevel::Info
    }
}

/// Is the prepared word at `i` usable without running past the end of the
/// list or failing the thread-count parse? These are the conditions under
/// which option parsing is defined.
pub open spec fn arg_ok_at(p: Seq<Seq<char>>, i: int) -> bool {
    let arg = p[i];
    if arg == "-a"@ || arg == "--algo"@ || arg == "--algorithm"@ || arg == "--loglevel"@ || arg
        == "--log_level"@ || arg == "--log-level"@ {
        i + 1 < p.len()
    } else if arg == "-T"@ || arg == "--threads"@ {
        i + 1 < p.len() && text::spec_parse_usize(text::spec_trim(p[i + 1])) is Some
    } else {
        true
    }
}

/// The command-line words on which option parsing is defined.
pub open spec fn args_ok(args: Seq<Seq<char>>) -> bool {
    let p = spec_prepare(args);
    args.len() >= 1 && forall|i: int| 1 <= i < p.len() ==> #[trigger] arg_ok_at(p, i)
}

/// Checks `args_ok` so that a caller can test before calling `Options::new`.
pub fn check_args(args: &Vec<String>) -> (r: bool)
    ensures
        r == args_ok(str_views(args@)),
{
    let ghost gargs = str_views(args@);
    if args.len() == 0 {
        return false;
    }
    let prepared = prepare_args(args);
    let ghost p = spec_prepare(gargs);
    proof {
        lemma_prepare_len(gargs);
        assert(str_views(prepared@).len() == prepared@.len());
    }
    let mut i: usize = 1;
    while i < prepared.len()
        invariant
            1 <= i <= prepared.len(),
            gargs == str_views(args@),
            gargs.len() >= 1,
            p == spec_prepare(gargs),
            str_views(prepared@) == p,
            prepared@.len() == p.len(),
            forall|j: int| 1 <= j < i ==> #[trigger] arg_ok_at(p, j),
        decreases prepared.len() - i,
    {
        let arg: &String = &prepared[i];
        proof {
            assert(p[i as int] == arg@);
        }
        let needs_next = text::str_eq(arg.as_str(), "-a") || text::str_eq(arg.as_str(), "--algo")
            || text::str_eq(arg.as_str(), "--algorithm") || text::str_eq(arg.as_str(), "--loglevel")
            || text::str_eq(arg.as_str(), "--log_level") || text::str_eq(
            arg.as_str(),
            "--log-level",
        );
        let needs_threads = text::str_eq(arg.as_str(), "-T") || text::str_eq(
            arg.as_str(),
            "--threads",
        );
        if needs_next {
            if i + 1 >= prepared.len() {
                proof {
                    assert(!arg_ok_at(p, i as int));
                }
                return false;
            }
        } else if needs_threads {
            if i + 1 >= prepared.len() {
                proof {
                    assert(!arg_ok_at(p, i as int));
                }
                return false;
            }
            let t = text::trim_str(prepared[i + 1].as_str());
            proof {
                assert(p[i + 1 as int] == prepared@[i + 1 as int]@);
            }
            if text::parse_usize(t).is_none() {
                proof {
                    assert(!arg_ok_at(p, i as int));
                }
                return false;
            }
        }
        proof {
            assert(arg_ok_at(p, i as int));
        }
        i = i + 1;
    }
    true
}

pub open spec fn initial_options(program_name: Seq<char>) -> OptionsV {
    OptionsV {
        help: false,
        program_name: program_name,
        algorithm: "sha1"@,
        subdir_mode: false,
        mode: Mode::Filter,
        log_level: LogLevel::Info,
        num_threads: 0,
        folder: "."@,
    }
}

/// What the prepared word at `i` does to the options being built.
pub open spec fn opts_step(cur: OptionsV, p: Seq<Seq<char>>, i: int) -> OptionsV {
    let arg = p[i];
    if arg.len() > 0 && arg[0] == '-' {
        if arg == "-a"@ || arg == "--algo"@ || arg == "--algorithm"@ {
            OptionsV { algorithm: text::spec_to_lower(p[i + 1]), ..cur }
        } else if arg == "-s"@ || arg == "--subdir"@ || arg == "--subdirs"@ || arg
            == "--subdirectories"@ {
            OptionsV { subdir_mode: true, ..cur }
        } else if arg == "-u"@ || arg == "--update"@ {
            OptionsV { mode: Mode::Update, ..cur }
        } else if arg == "-v"@ || arg == "--verify"@ {
            OptionsV { mode: Mode::Verify, ..cur }
        } else if arg == "--loglevel"@ || arg == "--log_level"@ || arg == "--log-level"@ {
            OptionsV { log_level: spec_loglevel_of(p[i + 1]), ..cur }
        } else if arg == "--quiet"@ {
            OptionsV { log_level: LogLevel::Quiet, ..cur }
        } else if arg == "-T"@ || arg == "--threads"@ {
            match text::spec_parse_usize(text::spec_trim(p[i + 1])) {
                Some(v) => OptionsV { num_threads: v as nat, ..cur },
                None => cur,
            }
        } else if arg == "-h"@ || arg == "--help"@ {
            OptionsV { help: true, ..cur }
        } else {
            OptionsV { help: true, ..cur }
        }
    } else {
        if i >= 1 && takes_value(p[i - 1]) {
            cur
        } else {
            OptionsV { folder: arg, ..cur }
        }
    }
}

pub open spec fn opts_fold(p: Seq<Seq<char>>, i: int, cur: OptionsV) -> OptionsV
    decreases p.len() - i,
{
    if i < 1 || i >= p.len() {
        cur
    } else {
        opts_fold(p, i + 1, opts_step(cur, p, i))
    }
}

/// The options described by the command-line words: the prepared words are
/// folded over the defaults, with the first word as the program name.
pub open spec fn spec_options_new(args: Seq<Seq<char>>) -> OptionsV {
    let p = spec_prepare(args);
    opts_fold(p, 1, initial_options(p[0]))
}

impl Options {
    /// Creates a new instance of Options containing all settings given
    /// through the command-line words.
    pub fn new(args: Vec<String>) -> (r: Options)
        requires
            args_ok(str_views(args@)),
        ensures
            r@ == spec_options_new(str_views(args@)),
    {
        let ghost gargs = str_views(args@);
        let prepared = prepare_args(&args);
        let ghost p = spec_prepare(gargs);
        proof {
            lemma_prepare_len(gargs);
            assert(str_views(prepared@).len() == prepared@.len());
        }
        let mut opts = Options {
            help: false,
            program_name: String::from_str("hashfilter"),
            algorithm: String::from_str("sha1"),
            subdir_mode: false,
            mode: Mode::Filter,
            log_level: LogLevel::Info,
            num_threads: 0,
            folder: String::from_str("."),
        };
        opts.program_name = prepared[0].clone();
        proof {
            assert(p[0] == prepared@[0]@);
            assert(opts@ =~= initial_options(p[0]));
        }
        let mut i: usize = 1;
        while i < prepared.len()
            invariant
                1 <= i <= prepared.len(),
                str_views(prepared@) == p,
                prepared@.len() == p.len(),
                args_ok(gargs),
                p == spec_prepare(gargs),
                opts_fold(p, i as int, opts@) == spec_options_new(gargs),
            decreases prepared.len() - i,
        {
            let ghost pre = opts@;
            let arg: &String = &prepared[i];
            proof {
                assert(p[i as int] == arg@);
                assert(arg_ok_at(p, i as int));
            }
            if arg.as_str().unicode_len() > 0 && arg.as_str().get_char(0) == '-' {
                if text::str_eq(arg.as_str(), "-a") || text::str_eq(arg.as_str(), "--algo")
                    || text::str_eq(arg.as_str(), "--algorithm") {
                    proof {
                        assert(p[i + 1 as int] == prepared@[i + 1 as int]@);
                    }
                    opts.algorithm = text::to_lowercase(prepared[i + 1].as_str());
                } else if text::str_eq(arg.as_str(), "-s") || text::str_eq(arg.as_str(), "--subdir")
                    || text::str_eq(arg.as_str(), "--subdirs") || text::str_eq(
                    arg.as_str(),
                    "--subdirectories",
                ) {
                    opts.subdir_mode = true;
                } else if text::str_eq(arg.as_str(), "-u") || text::str_eq(
                    arg.as_str(),
                    "--update",
                ) {
                    opts.mode = Mode::Update;
                } else if text::str_eq(arg.as_str(), "-v") || text::str_eq(
                    arg.as_str(),
                    "--verify",
                ) {
                    opts.mode = Mode::Verify;
                } else if text::str_eq(arg.as_str(), "--loglevel") || text::str_eq(
                    arg.as_str(),
                    "--log_level",
                ) || text::str_eq(arg.as_str(), "--log-level") {
                    proof {
                        assert(p[i + 1 as int] == prepared@[i + 1 as int]@);
                    }
                    opts.log_level = loglevel_of(prepared[i + 1].as_str());
                } else if text::str_eq(arg.as_str(), "--quiet") {
                    opts.log_level = LogLevel::Quiet;
                } else if text::str_eq(arg.as_str(), "-T") || text::str_eq(
                    arg.as_str(),
                    "--threads",
                ) {
                    proof {
                        assert(p[i + 1 as int] == prepared@[i + 1 as int]@);
                    }
                    let t = text::trim_str(prepared[i + 1].as_str());
                    match text::parse_usize(t) {
                        Some(v) => {
                            opts.num_threads = v;
                        },
                        None => {
                            proof {
                                assert(false);
                            }
                        },
                    }
                } else if text::str_eq(arg.as_str(), "-h") || text::str_eq(arg.as_str(), "--help") {
                    opts.help = true;
                } else {
                    opts.help = true;
                }
            } else {
                proof {
                    assert(p[i - 1 as int] == prepared@[i - 1 as int]@);
                }
                if takes_value_exec(prepared[i - 1].as_str()) {
                } else {
                    opts.folder = arg.clone();
                }
            }
            proof {
                assert(opts@ =~= opts_step(pre, p, i as int));
            }
            i = i + 1;
        }
        opts
    }

    /// Indicates that the program is in the debug loglevel.
    pub fn loglevel_debug(&self) -> (r: bool)
        ensures
            r == (self@.log_level == LogLevel::Debug),
    {
        self.log_level == LogLevel::Debug
    }

    /// Indicates that the program is at least in the info loglevel.
    pub fn loglevel_info(&self) -> (r: bool)
        ensures
            r == (self@.log_level == LogLevel::Debug || self@.log_level == LogLevel::Info),
    {
        self.log_level == LogLevel::Debug || self.log_level == LogLevel::Info
    }

    pub fn loglevel_progress(&self) -> (r: bool)
        ensures
            r == (self@.log_level == LogLevel::Progress),
    {
        self.log_level == LogLevel::Progress
    }
}

/// What the pipelines need to know of one entry of a directory listing:
/// its path as the traversal emits it, whether it is a directory, and
/// whether it holds a database file for the configured algorithm.
pub struct DirEntry {
    pub path: String,
    pub is_dir: bool,
    pub has_db: bool,
}

/// Is one of the strings equal to `s`?
pub fn contains_string(v: &Vec<String>, s: &str) -> (r: bool)
    ensures
        r == str_views(v@).contains(s@),
{
    let mut i: usize = 0;
    while i < v.len()
        invariant
            i <= v@.len(),
            forall|j: int| 0 <= j < i ==> str_views(v@)[j] != s@,
        decreases v@.len() - i,
    {
        if crate::text::str_eq(v[i].as_str(), s) {
            proof {
                assert(str_views(v@)[i as int] == s@);
            }
            return true;
        }
        i = i + 1;
    }
    proof {
        assert(forall|j: int| 0 <= j < str_views(v@).len() ==> str_views(v@)[j] != s@);
    }
    false
}

pub proof fn lemma_str_views_concat(a: Seq<String>, b: Seq<String>)
    ensures
        str_views(a + b) == str_views(a) + str_views(b),
{
    let l = str_views(a + b);
    let r = str_views(a) + str_views(b);
    assert forall|i: int| 0 <= i < l.len() implies l[i] == r[i] by {
        if i < a.len() {
            assert((a + b)[i] == a[i]);
        } else {
            assert((a + b)[i] == b[i - a.len()]);
        }
    }
    assert(l =~= r);
}

pub proof fn lemma_str_views_drop_last(v: Seq<String>)
    requires
        v.len() > 0,
    ensures
        str_views(v.subrange(0, v.len() - 1)) == str_views(v).drop_last(),
{
    let l = str_views(v.subrange(0, v.len() - 1));
    let r = str_views(v).drop_last();
    assert forall|i: int| 0 <= i < l.len() implies l[i] == r[i] by {
        assert(v.subrange(0, v.len() - 1)[i] == v[i]);
    }
    assert(l =~= r);
}

/// Does the path have a separator after its leading two characters, so that
/// its first segment can be replaced by a rooted prefix?
pub open spec fn strippable(p: Seq<char>) -> bool {
    text::first_pos(p, '/', 2) is Some
}

/// The path with its first segment replaced by `.`: everything from the
/// first `/` after the leading two characters, with a `.` prepended.
pub open spec fn stripped(p: Seq<char>) -> Seq<char>
    recommends
        strippable(p),
{
    match text::first_pos(p, '/', 2) {
        Some(k) => seq!['.'] + p.subrange(k, p.len() as int),
        None => p,
    }
}

/// Applies the first-segment strip, or reports that the path has no
/// separator to strip at.
pub fn strip_subdir(path: &str) -> (r: Option<String>)
    ensures
        match r {
            Some(s) => strippable(path@) && s@ == stripped(path@),
            None => !strippable(path@),
        },
{
    let n = path.unicode_len();
    let mut k: usize = 2;
    while k < n
        invariant
            2 <= k,
            n == path@.len(),
            forall|j: int| 2 <= j < k ==> path@[j] != '/',
        decreases n - k,
    {
        if path.get_char(k) == '/' {
            proof {
                text::lemma_first_pos_found(path@, '/', 2, k as int);
            }
            let mut s = String::new();
            text::push_char(&mut s, '.');
            s.append(path.substring_char(k, n));
            proof {
                assert(s@ =~= stripped(path@));
            }
            return Some(s);
        }
        k = k + 1;
    }
    proof {
        text::lemma_first_pos_missing(path@, '/', 2);
    }
    None
}

/// One observation of the walker: a file path to emit, a directory that has
/// to be listed before more files can come, or the end of the traversal.
pub enum WalkStep {
    File(String),
    Expand(String),
    Done,
}

/// One chunk of the walker's byte stream: bytes of the serialized paths, a
/// directory that has to be listed first, or the end of the stream.
pub enum ReadStep {
    Bytes(Vec<u8>),
    NeedDir(String),
    Eof,
}

/// An object that hands out the paths of all files under a root directory,
/// depth first. It holds two frontiers: files ready to emit and directories
/// not yet expanded. Listing a directory is the caller's job: when `Expand`
/// or `NeedDir` comes back, the caller lists that directory and hands the
/// entries to `populate_with_dir`.
pub struct DirWalker {
    /// A buffer for the currently known files
    current_files: Vec<String>,
    /// A buffer for the directories that have to be scanned recursively
    current_directories: Vec<String>,
    /// A buffer for the filepath that was only partially read
    unfinished_read: Vec<u8>,
    /// Whether or not the first directory should be stripped from the filepath
    subdir_mode: bool,
}

impl DirWalker {
    pub closed spec fn files(self) -> Seq<Seq<char>> {
        str_views(self.current_files@)
    }

    pub closed spec fn dirs(self) -> Seq<Seq<char>> {
        str_views(self.current_directories@)
    }

    pub closed spec fn pending(self) -> Seq<u8> {
        self.unfinished_read@
    }

    pub closed spec fn subdir(self) -> bool {
        self.subdir_mode
    }

    /// In subdirectory mode every buffered file path can be stripped.
    pub open spec fn wf(self) -> bool {
        self.subdir() ==> forall|i: int|
            0 <= i < self.files().len() ==> strippable(#[trigger] self.files()[i])
    }

    /// A fresh walker over `start_directory`: nothing emitted yet, the root
    /// is the one directory waiting to be expanded.
    pub fn new(start_directory: &str, subdir_mode: bool) -> (w: DirWalker)
        ensures
            w.files() == Seq::<Seq<char>>::empty(),
            w.dirs() == seq![start_directory@],
            w.pending() == Seq::<u8>::empty(),
            w.subdir() == subdir_mode,
            w.wf(),
    {
        let mut dirs: Vec<String> = Vec::new();
        dirs.push(String::from_str(start_directory));
        let w = DirWalker {
            current_files: Vec::new(),
            current_directories: dirs,
            unfinished_read: Vec::new(),
            subdir_mode,
        };
        proof {
            assert(w.files() =~= Seq::<Seq<char>>::empty());
            assert(w.dirs() =~= seq![start_directory@]);
        }
        w
    }

    /// Adds one directory's listing to the frontiers: its files and its
    /// subdirectories, in the order the caller hands them over.
    pub fn populate_with_dir(&mut self, files: Vec<String>, dirs: Vec<String>)
        requires
            old(self).wf(),
            old(self).subdir() ==> forall|i: int|
                0 <= i < files@.len() ==> strippable(#[trigger] files@[i]@),
        ensures
            final(self).files() == old(self).files() + str_views(files@),
            final(self).dirs() == old(self).dirs() + str_views(dirs@),
            final(self).pending() == old(self).pending(),
            final(self).subdir() == old(self).subdir(),
            final(self).wf(),
    {
        let ghost gfiles = files@;
        let ghost gdirs = dirs@;
        let mut files = files;
        let mut dirs = dirs;
        self.current_directories.append(&mut dirs);
        self.current_files.append(&mut files);
        proof {
            lemma_str_views_concat(old(self).current_files@, gfiles);
            lemma_str_views_concat(old(self).current_directories@, gdirs);
            if self.subdir() {
                assert forall|i: int| 0 <= i < self.files().len() implies strippable(
                    #[trigger] self.files()[i],
                ) by {
                    let base = old(self).files().len() as int;
                    if i < base {
                        assert(self.files()[i] == old(self).files()[i]);
                    } else {
                        assert(self.files()[i] == str_views(gfiles)[i - base]);
                        assert(str_views(gfiles)[i - base] == gfiles[i - base]@);
                    }
                }
            }
        }
    }

    /// Takes the next step of the traversal: emit the most recently
    /// discovered file (stripped in subdirectory mode), ask for the most
    /// recently discovered directory to be expanded, or report the end.
    pub fn next_step(&mut self) -> (s: WalkStep)
        requires
            old(self).wf(),
        ensures
            final(self).subdir() == old(self).subdir(),
            final(self).pending() == old(self).pending(),
            final(self).wf(),
            match s {
                WalkStep::File(f) => {
                    &&& old(self).files().len() > 0
                    &&& final(self).files() == old(self).files().drop_last()
                    &&& final(self).dirs() == old(self).dirs()
                    &&& f@ == if old(self).subdir() {
                        stripped(old(self).files().last())
                    } else {
                        old(self).files().last()
                    }
                },
                WalkStep::Expand(d) => {
                    &&& old(self).files().len() == 0
                    &&& old(self).dirs().len() > 0
                    &&& d@ == old(self).dirs().last()
                    &&& final(self).dirs() == old(self).dirs().drop_last()
                    &&& final(self).files() == old(self).files()
                },
                WalkStep::Done => {
                    &&& old(self).files().len() == 0
                    &&& old(self).dirs().len() == 0
                    &&& final(self).files() == old(self).files()
                    &&& final(self).dirs() == old(self).dirs()
                },
            },
    {
        if self.current_files.len() > 0 {
            proof {
                lemma_str_views_drop_last(self.current_files@);
            }
            let filepath = match self.current_files.pop() {
                Some(f) => f,
                None => {
                    proof {
                        assert(false);
                    }
                    String::new()
                },
            };
            if self.subdir_mode {
                match strip_subdir(filepath.as_str()) {
                    Some(s) => WalkStep::File(s),
                    None => {
                        proof {
                            assert(strippable(old(self).files().last()));
                            assert(false);
                        }
                        WalkStep::Done
                    },
                }
            } else {
                WalkStep::File(filepath)
            }
        } else if self.current_directories.len() > 0 {
            proof {
                lemma_str_views_drop_last(self.current_directories@);
            }
            let dirpath = match self.current_directories.pop() {
                Some(d) => d,
                None => {
                    proof {
                        assert(false);
                    }
                    String::new()
                },
            };
            WalkStep::Expand(dirpath)
        } else {
            WalkStep::Done
        }
    }

    /// Reads the walker as a byte stream: each file path is serialized as
    /// UTF-8 plus a trailing newline, and whatever does not fit the caller's
    /// budget is buffered for the next call, so repeated calls reassemble
    /// the full line.
    pub fn read_step(&mut self, max: usize) -> (r: ReadStep)
        requires
            old(self).wf(),
        ensures
            final(self).subdir() == old(self).subdir(),
            final(self).wf(),
            match r {
                ReadStep::Bytes(b) => {
                    if old(self).pending().len() > 0 {
                        &&& b@ == old(self).pending().take(
                            spec_min(max as int, old(self).pending().len() as int),
                        )
                        &&& final(self).pending() == old(self).pending().skip(b@.len() as int)
                        &&& final(self).files() == old(self).files()
                        &&& final(self).dirs() == old(self).dirs()
                    } else {
                        let line = line_bytes(emitted_path(*old(self)));
                        &&& old(self).files().len() > 0
                        &&& final(self).files() == old(self).files().drop_last()
                        &&& final(self).dirs() == old(self).dirs()
                        &&& b@ == line.take(spec_min(max as int, line.len() as int))
                        &&& final(self).pending() == line.skip(b@.len() as int)
                    }
                },
                ReadStep::NeedDir(d) => {
                    &&& old(self).pending().len() == 0
                    &&& old(self).files().len() == 0
                    &&& old(self).dirs().len() > 0
                    &&& d@ == old(self).dirs().last()
                    &&& final(self).dirs() == old(self).dirs().drop_last()
                    &&& final(self).files() == old(self).files()
                    &&& final(self).pending() == old(self).pending()
                },
                ReadStep::Eof => {
                    &&& old(self).pending().len() == 0
                    &&& old(self).files().len() == 0
                    &&& old(self).dirs().len() == 0
                    &&& final(self).files() == old(self).files()
                    &&& final(self).dirs() == old(self).dirs()
                    &&& final(self).pending() == old(self).pending()
                },
            },
    {
        if self.unfinished_read.len() > 0 {
            let (out, rest) = split_bytes(&self.unfinished_read, max);
            self.unfinished_read = rest;
            ReadStep::Bytes(out)
        } else {
            match self.next_step() {
                WalkStep::File(path_string) => {
                    let mut bytes = path_string.as_str().as_bytes_vec();
                    bytes.push(10u8);
                    proof {
                        assert(bytes@ =~= line_bytes(path_string@));
                    }
                    let (out, rest) = split_bytes(&bytes, max);
                    self.unfinished_read = rest;
                    ReadStep::Bytes(out)
                },
                WalkStep::Expand(d) => ReadStep::NeedDir(d),
                WalkStep::Done => ReadStep::Eof,
            }
        }
    }
}

pub open spec fn spec_min(a: int, b: int) -> int {
    if a <= b {
        a
    } else {
        b
    }
}

/// The path that the next `File` step of the walker would hand out.
pub open spec fn emitted_path(w: DirWalker) -> Seq<char>
    recommends
        w.files().len() > 0,
{
    if w.subdir() {
        stripped(w.files().last())
    } else {
        w.files().last()
    }
}

/// A file path as it appears on the byte stream: UTF-8 plus a newline.
pub open spec fn line_bytes(p: Seq<char>) -> Seq<u8> {
    vstd::utf8::encode_utf8(p) + seq![10u8]
}

/// Splits a byte buffer at `max`: the first piece has at most `max` bytes.
fn split_bytes(bytes: &Vec<u8>, max: usize) -> (r: (Vec<u8>, Vec<u8>))
    ensures
        r.0@ == bytes@.take(spec_min(max as int, bytes@.len() as int)),
        r.1@ == bytes@.skip(r.0@.len() as int),
{
    let len = bytes.len();
    let m = if max < len {
        max
    } else {
        len
    };
    let mut out: Vec<u8> = Vec::new();
    let mut j: usize = 0;
    while j < m
        invariant
            j <= m <= len,
            len == bytes@.len(),
            out@ == bytes@.take(j as int),
        decreases m - j,
    {
        out.push(bytes[j]);
        proof {
            assert(out@ =~= bytes@.take(j + 1 as int));
        }
        j = j + 1;
    }
    let mut rest: Vec<u8> = Vec::new();
    let mut k: usize = m;
    while k < len
        invariant
            m <= k <= len,
            len == bytes@.len(),
            rest@ == bytes@.subrange(m as int, k as int),
        decreases len - k,
    {
        rest.push(bytes[k]);
        proof {
            assert(rest@ =~= bytes@.subrange(m as int, k + 1 as int));
        }
        k = k + 1;
    }
    proof {
        assert(rest@ =~= bytes@.skip(out@.len() as int));
    }
    (out, rest)
}

/// The line pattern for the configured algorithm, or the recognition error.
pub fn regex_from_opts(opts: &Options) -> (r: Result<LinePattern, &'static str>)
    ensures
        match r {
            Ok(pat) => {
                &&& pat.wf()
                &&& pattern::spec_digest_len(opts.algorithm@) == Some(pat.spec_digest_len() as usize)
            },
            Err(e) => {
                &&& pattern::spec_digest_len(opts.algorithm@) is None
                &&& e@ == "Could not recognize hashing algorithm"@
            },
        },
{
    match pattern::digest_len_of(opts.algorithm.as_str()) {
        Some(n) => Ok(LinePattern::new(n)),
        None => Err("Could not recognize hashing algorithm"),
    }
}

} // verus!
