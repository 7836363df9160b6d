//! The database-line grammar. A database line is `<hex digest><two ASCII
//! spaces><path>`, where the digest length is fixed by the configured
//! algorithm. Matching is leftmost: the earliest position at which a
//! digest-length hex run followed by the two-space separator starts decides
//! the captured digest and path.

use vstd::prelude::*;
use vstd::string::StrSliceExecFns;
use vstd::string::StringExecFns;
use crate::text;

verus! {

pub open spec fn is_hex_digit(c: char) -> bool {
    ('0' <= c && c <= '9') || ('a' <= c && c <= 'f') || ('A' <= c && c <= 'F')
}

pub fn is_hex_digit_char(c: char) -> (r: bool)
    ensures
        r == is_hex_digit(c),
{
    ('0' <= c && c <= '9') || ('a' <= c && c <= 'f') || ('A' <= c && c <= 'F')
}

/// Digest length, in hex characters, of a recognized algorithm name.
pub open spec fn spec_digest_len(algo: Seq<char>) -> Option<usize> {
    if algo == "sha1"@ {
        Some(40usize)
    } else if algo == "md5"@ {
        Some(32usize)
    } else if algo == "sha224"@ {
        Some(56usize)
    } else if algo == "sha256"@ {
        Some(64usize)
    } else if algo == "sha384"@ {
        Some(96usize)
    } else if algo == "sha512"@ {
        Some(128usize)
    } else {
        None
    }
}

pub fn digest_len_of(algo: &str) -> (r: Option<usize>)
    ensures
        r == spec_digest_len(algo@),
{
    if text::str_eq(algo, "sha1") {
        Some(40)
    } else if text::str_eq(algo, "md5") {
        Some(32)
    } else if text::str_eq(algo, "sha224") {
        Some(56)
    } else if text::str_eq(algo, "sha256") {
        Some(64)
    } else if text::str_eq(algo, "sha384") {
        Some(96)
    } else if text::str_eq(algo, "sha512") {
        Some(128)
    } else {
        None
    }
}

/// The line pattern matches at position `i`: `n` hex digits starting at `i`,
/// then exactly two ASCII spaces, then the (possibly empty) rest.
pub open spec fn match_at(s: Seq<char>, n: nat, i: int) -> bool {
    &&& 0 <= i
    &&& i + n + 2 <= s.len()
    &&& forall|j: int| i <= j < i + n ==> is_hex_digit(#[trigger] s[j])
    &&& s[i + n] == ' '
    &&& s[i + n + 1] == ' '
}

/// Position of the leftmost match at or after `i`.
pub open spec fn match_from(s: Seq<char>, n: nat, i: nat) -> Option<int>
    decreases s.len() - i,
{
    if i + n + 2 > s.len() {
        None
    } else if match_at(s, n, i as int) {
        Some(i as int)
    } else {
        match_from(s, n, i + 1)
    }
}

pub open spec fn find_match(s: Seq<char>, n: nat) -> Option<int> {
    match_from(s, n, 0)
}

/// The digest and path captured by the leftmost match, if the line matches.
pub open spec fn spec_captures(s: Seq<char>, n: nat) -> Option<(Seq<char>, Seq<char>)> {
    match find_match(s, n) {
        Some(i) => Some((s.subrange(i, i + n), s.subrange(i + n + 2, s.len() as int))),
        None => None,
    }
}

pub open spec fn captured_path(s: Seq<char>, n: nat) -> Option<Seq<char>> {
    match spec_captures(s, n) {
        Some(c) => Some(c.1),
        None => None,
    }
}

pub open spec fn captured_hash(s: Seq<char>, n: nat) -> Option<Seq<char>> {
    match spec_captures(s, n) {
        Some(c) => Some(c.0),
        None => None,
    }
}

proof fn lemma_match_from_found(s: Seq<char>, n: nat, i: nat, k: int)
    requires
        i <= k,
        match_at(s, n, k),
        forall|j: int| i <= j < k ==> !match_at(s, n, j),
    ensures
        match_from(s, n, i) == Some(k),
    decreases s.len() - i,
{
    if i < k {
        lemma_match_from_found(s, n, i + 1, k);
    }
}

proof fn lemma_match_from_missing(s: Seq<char>, n: nat, i: nat)
    requires
        forall|j: int| i <= j ==> !match_at(s, n, j),
    ensures
        match_from(s, n, i) is None,
    decreases s.len() - i,
{
    if i + n + 2 <= s.len() {
        lemma_match_from_missing(s, n, i + 1);
    }
}

/// The shape of a database line for one algorithm: `digest_len` hex
/// characters, two ASCII spaces, then the path field.
pub struct LinePattern {
    digest_len: usize,
}

impl LinePattern {
    pub closed spec fn spec_digest_len(self) -> nat {
        self.digest_len as nat
    }

    /// Patterns only arise from recognized algorithms, so the digest length
    /// is one of the known digest sizes.
    pub closed spec fn wf(self) -> bool {
        self.digest_len == 32 || self.digest_len == 40 || self.digest_len == 56
            || self.digest_len == 64 || self.digest_len == 96 || self.digest_len == 128
    }

    pub fn new(digest_len: usize) -> (r: LinePattern)
        requires
            digest_len == 32 || digest_len == 40 || digest_len == 56 || digest_len == 64
                || digest_len == 96 || digest_len == 128,
        ensures
            r.wf(),
            r.spec_digest_len() == digest_len,
    {
        LinePattern { digest_len }
    }

    pub fn digest_len(&self) -> (r: usize)
        ensures
            r == self.spec_digest_len(),
    {
        self.digest_len
    }

    /// Every well-formed pattern's digest length is one of the known sizes.
    pub proof fn lemma_digest_len_bound(self)
        requires
            self.wf(),
        ensures
            0 < self.spec_digest_len() <= 128,
    {
    }

    /// Leftmost match of a line against the pattern, returning the captured
    /// digest and path.
    pub fn captures(&self, line: &str) -> (r: Option<(String, String)>)
        requires
            self.wf(),
        ensures
            match r {
                Some(c) => spec_captures(line@, self.spec_digest_len()) == Some((c.0@, c.1@)),
                None => spec_captures(line@, self.spec_digest_len()) is None,
            },
    {
        let len = line.unicode_len();
        let n = self.digest_len;
        let ghost gn = self.spec_digest_len();
        if len < n + 2 {
            proof {
                lemma_match_from_missing(line@, gn, 0);
            }
            return None;
        }
        let last = len - n - 2;
        let mut i: usize = 0;
        while i <= last
            invariant
                i <= last + 1,
                last == len - n - 2,
                len == line@.len(),
                n + 2 <= len,
                gn == n as nat,
                gn == self.spec_digest_len(),
                self.wf(),
                forall|j: int| 0 <= j < i ==> !match_at(line@, gn, j),
            decreases last + 1 - i,
        {
            let hit = self.match_here(line, i, len);
            if hit {
                proof {
                    lemma_match_from_found(line@, gn, 0, i as int);
                }
                let hash = line.substring_char(i, i + n);
                let path = line.substring_char(i + n + 2, len);
                return Some((String::from_str(hash), String::from_str(path)));
            }
            i = i + 1;
        }
        proof {
            assert(forall|j: int| 0 <= j ==> !match_at(line@, gn, j));
            lemma_match_from_missing(line@, gn, 0);
        }
        None
    }

    /// Does the pattern match at position `i`?
    fn match_here(&self, line: &str, i: usize, len: usize) -> (r: bool)
        requires
            len == line@.len(),
            i + self.spec_digest_len() + 2 <= len,
        ensures
            r == match_at(line@, self.spec_digest_len(), i as int),
    {
        let n = self.digest_len;
        let mut j: usize = i;
        while j < i + n
            invariant
                i <= j <= i + n,
                len == line@.len(),
                i + n + 2 <= len,
                n == self.spec_digest_len(),
                forall|k: int| i <= k < j ==> is_hex_digit(#[trigger] line@[k]),
            decreases i + n - j,
        {
            if !is_hex_digit_char(line.get_char(j)) {
                return false;
            }
            j = j + 1;
        }
        if line.get_char(i + n) != ' ' {
            return false;
        }
        if line.get_char(i + n + 1) != ' ' {
            return false;
        }
        true
    }
}

/// A well-formed database line: digest, two spaces, path.
pub open spec fn spec_db_line(digest: Seq<char>, path: Seq<char>) -> Seq<char> {
    digest + seq![' ', ' '] + path
}

/// A line built from an `n`-character hex digest captures back to exactly
/// that digest and path, whatever the path holds.
pub proof fn lemma_db_line_roundtrip(digest: Seq<char>, path: Seq<char>, n: nat)
    requires
        digest.len() == n,
        forall|j: int| 0 <= j < n ==> is_hex_digit(#[trigger] digest[j]),
    ensures
        spec_captures(spec_db_line(digest, path), n) == Some((digest, path)),
{
    let line = spec_db_line(digest, path);
    assert(line.len() == n + 2 + path.len());
    assert(line[n as int] == ' ');
    assert(line[n as int + 1] == ' ');
    assert(forall|j: int| 0 <= j < n ==> line[j] == digest[j]);
    assert(match_at(line, n, 0));
    lemma_match_from_found(line, n, 0, 0);
    assert(line.subrange(0, n as int) =~= digest);
    assert(line.subrange(n as int + 2, line.len() as int) =~= path);
}

/// Builds the database line `digest ++ "  " ++ path` when the digest fits
/// the pattern; returns nothing when it does not.
pub fn make_db_line(pattern: &LinePattern, digest: &str, path: &str) -> (r: Option<String>)
    requires
        pattern.wf(),
    ensures
        match r {
            Some(l) => {
                &&& l@ == spec_db_line(digest@, path@)
                &&& spec_captures(l@, pattern.spec_digest_len()) == Some((digest@, path@))
            },
            None => !(digest@.len() == pattern.spec_digest_len() && forall|j: int|
                0 <= j < digest@.len() ==> is_hex_digit(#[trigger] digest@[j])),
        },
{
    let n = pattern.digest_len();
    let dlen = digest.unicode_len();
    if dlen != n {
        return None;
    }
    let mut j: usize = 0;
    while j < dlen
        invariant
            j <= dlen,
            dlen == digest@.len(),
            forall|k: int| 0 <= k < j ==> is_hex_digit(#[trigger] digest@[k]),
        decreases dlen - j,
    {
        if !is_hex_digit_char(digest.get_char(j)) {
            return None;
        }
        j = j + 1;
    }
    let mut line = String::from_str(digest);
    line.append("  ");
    line.append(path);
    proof {
        reveal_strlit("  ");
        assert("  "@ =~= seq![' ', ' ']);
        assert(line@ =~= spec_db_line(digest@, path@));
        lemma_db_line_roundtrip(digest@, path@, pattern.spec_digest_len());
    }
    Some(line)
}

} // verus!
