use log_searcher::scanner::{contains_subslice, scan_lines, split_lines};
use log_searcher::timestamp::parse_timestamp;

fn ts(s: &str) -> log_searcher::timestamp::Timestamp {
    parse_timestamp(s.as_bytes()).expect("test timestamp should parse")
}

fn lines_vec(content: &str) -> Vec<Vec<u8>> {
    split_lines(content.as_bytes())
}

fn strs(lines: &[Vec<u8>]) -> Vec<String> {
    lines
        .iter()
        .map(|l| String::from_utf8(l.clone()).unwrap())
        .collect()
}

#[test]
fn test_split_lines_basic() {
    assert_eq!(strs(&lines_vec("a\nb\nc")), vec!["a", "b", "c"]);
    assert_eq!(strs(&lines_vec("a\nb\nc\n")), vec!["a", "b", "c"]);
    assert_eq!(strs(&lines_vec("")), Vec::<String>::new());
    assert_eq!(strs(&lines_vec("\n")), vec![""]);
    assert_eq!(strs(&lines_vec("a\r\nb\r\n")), vec!["a", "b"]);
    // A bare carriage return at the end of the data is kept.
    assert_eq!(strs(&lines_vec("a\r")), vec!["a\r"]);
}

#[test]
fn test_contains_subslice() {
    assert!(contains_subslice(b"hello world", b"o w"));
    assert!(contains_subslice(b"hello world", b""));
    assert!(contains_subslice(b"hello", b"hello"));
    assert!(!contains_subslice(b"hello", b"world"));
    assert!(!contains_subslice(b"he", b"hello"));
    // Case-sensitive literal containment, no pattern syntax.
    assert!(!contains_subslice(b"hello", b"HELLO"));
    assert!(!contains_subslice(b"a.c", b"abc"));
}

#[test]
fn test_scan_keeps_matching_window_lines() {
    let content = "2024-01-01 10:00:00 alpha\n\
                   2024-01-01 11:00:00 beta\n\
                   2024-01-01 12:00:00 alpha beta\n\
                   2024-01-01 13:00:00 alpha\n";
    let lines = lines_vec(content);
    let matched = scan_lines(
        &lines,
        &ts("2024-01-01 11:00:00"),
        &ts("2024-01-01 12:30:00"),
        b"alpha",
    );
    assert_eq!(strs(&matched), vec!["2024-01-01 12:00:00 alpha beta"]);
}

#[test]
fn test_scan_skips_malformed_lines() {
    // Lines shorter than 19 bytes, or with an unparsable prefix, are never
    // matched, under any pattern.
    let content = "short alpha\n\
                   not-a-date XX:YY:ZZ alpha\n\
                   2024-13-01 10:00:00 alpha\n\
                   2024-01-01 10:00:00 alpha\n";
    let lines = lines_vec(content);
    let matched = scan_lines(
        &lines,
        &ts("2024-01-01 00:00:00"),
        &ts("2024-12-31 23:59:59"),
        b"alpha",
    );
    assert_eq!(strs(&matched), vec!["2024-01-01 10:00:00 alpha"]);
}

#[test]
fn test_scan_empty_pattern_matches_every_window_line() {
    let content = "2024-01-01 10:00:00 a\n2024-01-01 11:00:00 b\n";
    let lines = lines_vec(content);
    let matched = scan_lines(
        &lines,
        &ts("2024-01-01 00:00:00"),
        &ts("2024-12-31 23:59:59"),
        b"",
    );
    assert_eq!(matched.len(), 2);
}

#[test]
fn test_scan_early_exit_truncates_out_of_order_file() {
    // Once a line past the window's upper bound is seen, scanning stops:
    // an out-of-order line that would match is silently missed.
    let content = "2024-01-01 10:00:00 alpha\n\
                   2024-06-01 00:00:00 too late\n\
                   2024-01-01 11:00:00 alpha\n";
    let lines = lines_vec(content);
    let matched = scan_lines(
        &lines,
        &ts("2024-01-01 00:00:00"),
        &ts("2024-01-02 00:00:00"),
        b"alpha",
    );
    assert_eq!(strs(&matched), vec!["2024-01-01 10:00:00 alpha"]);
}

#[test]
fn test_scan_window_reversed_matches_nothing() {
    // A window with start past end simply matches nothing.
    let content = "2024-01-01 10:00:00 alpha\n";
    let lines = lines_vec(content);
    let matched = scan_lines(
        &lines,
        &ts("2024-02-01 00:00:00"),
        &ts("2024-01-01 00:00:00"),
        b"alpha",
    );
    assert!(matched.is_empty());
}
