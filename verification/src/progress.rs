//! Rendering of the live progress display: a percentage with two decimals,
//! a fixed-width bar, and the terminal control sequences that paint one
//! directory's line in place. Only strings are built here; writing them to
//! the terminal is the caller's job.

use vstd::prelude::*;
use vstd::string::StrSliceExecFns;
use vstd::string::StringExecFns;
use crate::text;

verus! {

/// The processed share in hundredths of a percent, clamped to what fits;
/// an empty directory counts as nothing processed.
pub open spec fn spec_percent_hundredths(all_bytes: u64, processed_bytes: u64) -> int {
    if all_bytes == 0 {
        0
    } else {
        let q = (processed_bytes * 10000) / (all_bytes as int);
        if q > u64::MAX {
            u64::MAX as int
        } else {
            q
        }
    }
}

/// A number padded with a leading zero to at least two digits.
pub open spec fn spec_pad2(v: nat) -> Seq<char> {
    if v < 10 {
        seq!['0'] + text::dec_str(v)
    } else {
        text::dec_str(v)
    }
}

/// The sixty-character bar: position `i` is filled while `i` is below the
/// processed share of sixty.
pub open spec fn spec_progress_bar(all_bytes: u64, processed_bytes: u64) -> Seq<char> {
    Seq::new(
        60,
        |i: int|
            if all_bytes > 0 && i * all_bytes < 60 * processed_bytes {
                '#'
            } else {
                '_'
            },
    )
}

/// The one-line progress text: `WW.FF% ` and the bar.
pub open spec fn spec_progress_message(all_bytes: u64, processed_bytes: u64) -> Seq<char> {
    let h = spec_percent_hundredths(all_bytes, processed_bytes);
    spec_pad2((h / 100) as nat) + seq!['.'] + spec_pad2((h % 100) as nat) + seq!['%', ' ']
        + spec_progress_bar(all_bytes, processed_bytes)
}

/// `k` spaces (none for a non-positive `k`).
pub open spec fn spec_spaces(k: int) -> Seq<char> {
    Seq::new(
        if k > 0 {
            k as nat
        } else {
            0
        },
        |i: int| ' ',
    )
}

/// The message padded so that messages of directories with shorter names
/// line up: padding spaces, one separator space, then the message.
pub open spec fn spec_aligned_text(workdir: Seq<char>, longest: int, message: Seq<char>) -> Seq<
    char,
> {
    spec_spaces(longest - workdir.len()) + seq![' '] + message
}

/// The full terminal paint for one line: save the cursor, move `line` lines
/// up and clear that line, write `workdir: message`, restore the cursor.
pub open spec fn spec_terminal_message(line: nat, workdir: Seq<char>, message: Seq<char>) -> Seq<
    char,
> {
    "\x1b[s\x1b["@ + text::dec_str(line) + "A\x1b[2K"@ + workdir + ": "@ + message + "\x1b[u"@
}

fn pad2(v: u64) -> (r: String)
    ensures
        r@ == spec_pad2(v as nat),
{
    if v < 10 {
        let mut s = String::from_str("0");
        s.append(text::u64_to_string(v).as_str());
        proof {
            reveal_strlit("0");
            assert(s@ =~= spec_pad2(v as nat));
        }
        s
    } else {
        text::u64_to_string(v)
    }
}

/// Renders the message that paints `message` on the line `line` lines above
/// the cursor, prefixed by the directory name.
pub fn render_message(line: u32, message: &str, workdir: &str) -> (r: String)
    ensures
        r@ == spec_terminal_message(line as nat, workdir@, message@),
{
    let mut s = String::from_str("\x1b[s\x1b[");
    s.append(text::u32_to_string(line).as_str());
    s.append("A\x1b[2K");
    s.append(workdir);
    s.append(": ");
    s.append(message);
    s.append("\x1b[u");
    s
}

/// Renders the aligned form: the message is padded to the left so that it
/// lines up with the other directories' messages.
pub fn render_message_aligned(line: u32, message: &str, workdir: &str, longest_folder: usize) -> (r:
    String)
    ensures
        r@ == spec_terminal_message(
            line as nat,
            workdir@,
            spec_aligned_text(workdir@, longest_folder as int, message@),
        ),
{
    let wlen = workdir.unicode_len();
    let mut padding = String::new();
    let mut i: usize = wlen;
    while i < longest_folder
        invariant
            wlen <= i,
            i <= longest_folder || i == wlen,
            wlen == workdir@.len(),
            padding@ == spec_spaces(i - wlen),
        decreases longest_folder - i,
    {
        text::push_char(&mut padding, ' ');
        proof {
            assert(padding@ =~= spec_spaces(i + 1 - wlen));
        }
        i = i + 1;
    }
    let mut to_print = padding;
    text::push_char(&mut to_print, ' ');
    to_print.append(message);
    proof {
        assert(to_print@ =~= spec_aligned_text(workdir@, longest_folder as int, message@));
    }
    render_message(line, to_print.as_str(), workdir)
}

/// Renders one directory's progress line: percentage, bar, and the aligned
/// terminal paint.
pub fn render_progress(
    all_bytes: u64,
    processed_bytes: u64,
    line: u32,
    workdir: &str,
    longest_folder: usize,
) -> (r: String)
    ensures
        r@ == spec_terminal_message(
            line as nat,
            workdir@,
            spec_aligned_text(
                workdir@,
                longest_folder as int,
                spec_progress_message(all_bytes, processed_bytes),
            ),
        ),
{
    let h: u64 = if all_bytes == 0 {
        0
    } else {
        let q: u128 = (processed_bytes as u128) * 10000 / (all_bytes as u128);
        if q > u64::MAX as u128 {
            u64::MAX
        } else {
            q as u64
        }
    };
    proof {
        assert(h as int == spec_percent_hundredths(all_bytes, processed_bytes));
    }
    let mut message = pad2(h / 100);
    message.append(".");
    message.append(pad2(h % 100).as_str());
    message.append("% ");
    let ghost prefix = message@;
    let mut i: usize = 0;
    proof {
        reveal_strlit(".");
        reveal_strlit("% ");
        assert(message@ =~= spec_pad2((h as int / 100) as nat) + seq!['.'] + spec_pad2(
            (h as int % 100) as nat,
        ) + seq!['%', ' ']);
        assert(message@ + spec_progress_bar(all_bytes, processed_bytes).take(0) =~= message@);
    }
    while i < 60
        invariant
            i <= 60,
            message@ == prefix + spec_progress_bar(all_bytes, processed_bytes).take(i as int),
        decreases 60 - i,
    {
        proof {
            assert((i as int) * (all_bytes as int) <= 60 * (u64::MAX as int))
                by (nonlinear_arith)
                requires
                    i <= 60,
                    all_bytes <= u64::MAX,
            ;
        }
        let filled: bool = all_bytes > 0 && (i as u128) * (all_bytes as u128) < 60 * (
        processed_bytes as u128);
        if filled {
            text::push_char(&mut message, '#');
        } else {
            text::push_char(&mut message, '_');
        }
        proof {
            assert(spec_progress_bar(all_bytes, processed_bytes)[i as int] == (
            if filled {
                '#'
            } else {
                '_'
            }));
            assert(message@ =~= prefix + spec_progress_bar(all_bytes, processed_bytes).take(
                i + 1 as int,
            ));
        }
        i = i + 1;
    }
    proof {
        assert(spec_progress_bar(all_bytes, processed_bytes).take(60) =~= spec_progress_bar(
            all_bytes,
            processed_bytes,
        ));
        assert(message@ =~= spec_progress_message(all_bytes, processed_bytes));
    }
    render_message_aligned(line, message.as_str(), workdir, longest_folder)
}

} // verus!
