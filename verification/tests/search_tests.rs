use std::io::Write;

use log_searcher::decode::DecodeError;
use log_searcher::search::{
    diagnostic_line, pattern_diagnostic_line, run_scan, search_content, search_file_lines, ScanFile,
};
use log_searcher::timestamp::parse_timestamp;

fn ts(s: &str) -> log_searcher::timestamp::Timestamp {
    parse_timestamp(s.as_bytes()).expect("test timestamp should parse")
}

fn strs(lines: &[Vec<u8>]) -> Vec<String> {
    lines
        .iter()
        .map(|l| String::from_utf8(l.clone()).unwrap())
        .collect()
}

fn gzip_bytes(text: &str) -> Vec<u8> {
    let mut encoder = flate2::write::GzEncoder::new(Vec::new(), flate2::Compression::default());
    encoder.write_all(text.as_bytes()).unwrap();
    encoder.finish().unwrap()
}

fn zip_bytes(entries: &[(&str, &str)]) -> Vec<u8> {
    let mut writer = zip::ZipWriter::new(std::io::Cursor::new(Vec::new()));
    let options = zip::write::SimpleFileOptions::default();
    for (name, text) in entries {
        writer.start_file(*name, options).unwrap();
        writer.write_all(text.as_bytes()).unwrap();
    }
    writer.finish().unwrap().into_inner()
}

const TEXT: &str = "2024-01-01 10:00:00 alpha one\n\
                    2024-01-01 11:00:00 beta\n\
                    2024-01-01 12:00:00 alpha two\n";

fn window_start() -> log_searcher::timestamp::Timestamp {
    ts("2024-01-01 00:00:00")
}

fn window_end() -> log_searcher::timestamp::Timestamp {
    ts("2024-01-02 00:00:00")
}

#[test]
fn test_search_plain_file() {
    let r = search_content(
        b"app.log",
        TEXT.as_bytes(),
        &window_start(),
        &window_end(),
        b"alpha",
    )
    .unwrap();
    assert_eq!(
        strs(&r),
        vec!["2024-01-01 10:00:00 alpha one", "2024-01-01 12:00:00 alpha two"]
    );
}

#[test]
fn test_format_equivalence() {
    // A plain file, its gzip copy and its zip copy hold the same lines and
    // yield the same matches.
    let start = window_start();
    let end = window_end();
    let plain = search_content(b"app.log", TEXT.as_bytes(), &start, &end, b"alpha").unwrap();
    let gz = search_content(b"app.log.gz", &gzip_bytes(TEXT), &start, &end, b"alpha").unwrap();
    let zp = search_content(
        b"app.zip",
        &zip_bytes(&[("inner.log", TEXT)]),
        &start,
        &end,
        b"alpha",
    )
    .unwrap();
    assert_eq!(plain, gz);
    assert_eq!(plain, zp);
    assert_eq!(plain.len(), 2);
}

#[test]
fn test_zip_entries_are_independent_sources() {
    // Early exit applies per entry: a late line in the first entry does
    // not stop the scan of the second entry.
    let first = "2024-01-01 10:00:00 alpha\n2024-06-01 00:00:00 late\n";
    let second = "2024-01-01 11:00:00 alpha\n";
    let bytes = zip_bytes(&[("a.log", first), ("b.log", second)]);
    let r = search_content(
        b"logs.zip",
        &bytes,
        &window_start(),
        &window_end(),
        b"alpha",
    )
    .unwrap();
    assert_eq!(
        strs(&r),
        vec!["2024-01-01 10:00:00 alpha", "2024-01-01 11:00:00 alpha"]
    );
}

#[test]
fn test_corrupt_gzip_is_an_error() {
    let r = search_content(
        b"bad.gz",
        b"this is not gzip data",
        &window_start(),
        &window_end(),
        b"alpha",
    );
    assert_eq!(r.unwrap_err(), DecodeError::Gzip);
}

#[test]
fn test_corrupt_zip_is_an_error() {
    let r = search_content(
        b"bad.zip",
        b"this is not a zip archive",
        &window_start(),
        &window_end(),
        b"alpha",
    );
    assert_eq!(r.unwrap_err(), DecodeError::Zip);
}

#[test]
fn test_extension_dispatch() {
    // A name whose only dot is its first byte has no extension: the bytes
    // are read as plain text, not gzip.
    let r = search_content(
        b".gz",
        TEXT.as_bytes(),
        &window_start(),
        &window_end(),
        b"alpha",
    )
    .unwrap();
    assert_eq!(r.len(), 2);
    // Unknown extensions are plain text too.
    let r = search_content(
        b"notes.txt",
        TEXT.as_bytes(),
        &window_start(),
        &window_end(),
        b"alpha",
    )
    .unwrap();
    assert_eq!(r.len(), 2);
}

#[test]
fn test_diagnostic_line_text() {
    let line = diagnostic_line("bad.gz", DecodeError::Gzip);
    assert_eq!(
        String::from_utf8(line).unwrap(),
        "X-LOG-SEARCHER-ERROR: Failed to process file bad.gz: invalid gzip data"
    );
    let line = diagnostic_line("bad.zip", DecodeError::Zip);
    assert_eq!(
        String::from_utf8(line).unwrap(),
        "X-LOG-SEARCHER-ERROR: Failed to process file bad.zip: invalid zip archive"
    );
}

#[test]
fn test_pattern_diagnostic_line_text() {
    let line = pattern_diagnostic_line("(unclosed");
    assert_eq!(
        String::from_utf8(line).unwrap(),
        "X-LOG-SEARCHER-ERROR: Invalid regex: (unclosed"
    );
}

#[test]
fn test_per_file_isolation() {
    // A corrupted gzip file among valid files yields one diagnostic line
    // for it and full results from the others.
    let files = vec![
        ScanFile {
            name: "a.log".to_string(),
            content: TEXT.as_bytes().to_vec(),
        },
        ScanFile {
            name: "bad.gz".to_string(),
            content: b"garbage".to_vec(),
        },
        ScanFile {
            name: "c.log.gz".to_string(),
            content: gzip_bytes(TEXT),
        },
    ];
    let out = run_scan(&files, &window_start(), &window_end(), b"alpha");
    assert_eq!(
        strs(&out),
        vec![
            "2024-01-01 10:00:00 alpha one",
            "2024-01-01 12:00:00 alpha two",
            "X-LOG-SEARCHER-ERROR: Failed to process file bad.gz: invalid gzip data",
            "2024-01-01 10:00:00 alpha one",
            "2024-01-01 12:00:00 alpha two",
        ]
    );
}

#[test]
fn test_search_is_idempotent() {
    // The same request against the same unmodified files yields identical
    // output, run after run.
    let files = vec![
        ScanFile {
            name: "a.log".to_string(),
            content: TEXT.as_bytes().to_vec(),
        },
        ScanFile {
            name: "bad.zip".to_string(),
            content: b"garbage".to_vec(),
        },
    ];
    let first = run_scan(&files, &window_start(), &window_end(), b"alpha");
    let second = run_scan(&files, &window_start(), &window_end(), b"alpha");
    assert_eq!(first, second);
}

#[test]
fn test_search_file_lines_turns_error_into_diagnostic() {
    let out = search_file_lines(
        &"bad.gz".to_string(),
        b"garbage",
        &window_start(),
        &window_end(),
        b"alpha",
    );
    assert_eq!(
        strs(&out),
        vec!["X-LOG-SEARCHER-ERROR: Failed to process file bad.gz: invalid gzip data"]
    );
}
