use arkhash::progress::{render_message, render_message_aligned, render_progress};
use arkhash::text::{i32_to_string, parse_usize, str_eq, to_lowercase, trim_str, u64_to_string};

#[test]
fn terminal_message_is_exact() {
    let msg = render_message(3, "checked: OK", "./dir");
    assert_eq!(msg, "\x1b[s\x1b[3A\x1b[2K./dir: checked: OK\x1b[u");
}

#[test]
fn aligned_message_pads_to_the_longest_folder() {
    let msg = render_message_aligned(1, "checked: OK", "./d", 5);
    assert_eq!(msg, "\x1b[s\x1b[1A\x1b[2K./d:    checked: OK\x1b[u");
    let msg = render_message_aligned(1, "m", "./dir", 3);
    assert_eq!(msg, "\x1b[s\x1b[1A\x1b[2K./dir:  m\x1b[u");
}

#[test]
fn progress_line_half_done() {
    let msg = render_progress(200, 100, 2, "./d", 3);
    let bar: String = "#".repeat(30) + &"_".repeat(30);
    assert_eq!(msg, format!("\x1b[s\x1b[2A\x1b[2K./d:  50.00% {}\x1b[u", bar));
}

#[test]
fn progress_line_rounds_down_and_pads() {
    // 1/3 of 300 bytes: 33.33%, 20 of 60 bar cells filled
    let msg = render_progress(300, 100, 1, "./d", 3);
    let bar: String = "#".repeat(20) + &"_".repeat(40);
    assert_eq!(msg, format!("\x1b[s\x1b[1A\x1b[2K./d:  33.33% {}\x1b[u", bar));
    // one byte of a big file: 00.00% but one bar cell already filled
    let msg = render_progress(1000000, 1, 1, "./d", 3);
    let bar: String = "#".repeat(1) + &"_".repeat(59);
    assert_eq!(msg, format!("\x1b[s\x1b[1A\x1b[2K./d:  00.00% {}\x1b[u", bar));
}

#[test]
fn progress_line_for_an_empty_directory() {
    let msg = render_progress(0, 0, 1, "./d", 3);
    let bar: String = "_".repeat(60);
    assert_eq!(msg, format!("\x1b[s\x1b[1A\x1b[2K./d:  00.00% {}\x1b[u", bar));
}

#[test]
fn progress_line_complete() {
    let msg = render_progress(128, 128, 1, "./d", 3);
    let bar: String = "#".repeat(60);
    assert_eq!(msg, format!("\x1b[s\x1b[1A\x1b[2K./d:  100.00% {}\x1b[u", bar));
}

#[test]
fn text_helpers() {
    assert!(str_eq("abc", "abc"));
    assert!(!str_eq("abc", "abd"));
    assert_eq!(to_lowercase("SHA256"), "sha256");
    assert_eq!(to_lowercase("MD5"), "md5");
    assert_eq!(trim_str("  x y\t"), "x y");
    assert_eq!(parse_usize("42"), Some(42));
    assert_eq!(parse_usize("+7"), Some(7));
    assert_eq!(parse_usize(""), None);
    assert_eq!(parse_usize("4x"), None);
    assert_eq!(parse_usize("99999999999999999999999999"), None);
    assert_eq!(u64_to_string(0), "0");
    assert_eq!(u64_to_string(90210), "90210");
    assert_eq!(i32_to_string(-45), "-45");
    assert_eq!(i32_to_string(2026), "2026");
}
