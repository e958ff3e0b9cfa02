use log_searcher::timestamp::{parse_timestamp, to_epoch_seconds, ts_before, ts_before_or_equal};

fn parse(s: &str) -> Option<log_searcher::timestamp::Timestamp> {
    parse_timestamp(s.as_bytes())
}

#[test]
fn test_parse_valid_timestamp() {
    let t = parse("2024-03-15 12:34:56").expect("should parse");
    assert_eq!(t.year, 2024);
    assert_eq!(t.month, 3);
    assert_eq!(t.day, 15);
    assert_eq!(t.hour, 12);
    assert_eq!(t.minute, 34);
    assert_eq!(t.second, 56);
}

#[test]
fn test_parse_ignores_separators() {
    // Positions 4, 7, 10, 13 and 16 are not validated.
    let t = parse("2024X03Y15Z12A34B56").expect("should parse");
    assert_eq!(t.month, 3);
    assert_eq!(t.second, 56);
}

#[test]
fn test_parse_too_short() {
    assert!(parse("2024-03-15 12:34:5").is_none());
    assert!(parse("").is_none());
}

#[test]
fn test_parse_non_digit_field() {
    assert!(parse("2O24-03-15 12:34:56").is_none());
    assert!(parse("2024-03-15 12:34:5x").is_none());
}

#[test]
fn test_parse_invalid_calendar() {
    assert!(parse("2024-13-01 00:00:00").is_none());
    assert!(parse("2024-00-01 00:00:00").is_none());
    assert!(parse("2024-02-30 00:00:00").is_none());
    assert!(parse("2023-02-29 00:00:00").is_none());
    assert!(parse("2024-04-31 00:00:00").is_none());
    assert!(parse("2024-01-00 00:00:00").is_none());
    assert!(parse("2024-01-01 24:00:00").is_none());
    assert!(parse("2024-01-01 00:60:00").is_none());
    assert!(parse("2024-01-01 00:00:60").is_none());
}

#[test]
fn test_parse_leap_years() {
    assert!(parse("2024-02-29 00:00:00").is_some());
    assert!(parse("2000-02-29 00:00:00").is_some());
    assert!(parse("1900-02-29 00:00:00").is_none());
}

#[test]
fn test_ordering() {
    let a = parse("2024-03-15 12:34:56").unwrap();
    let b = parse("2024-03-15 12:34:57").unwrap();
    let c = parse("2025-01-01 00:00:00").unwrap();
    assert!(ts_before(&a, &b));
    assert!(ts_before(&b, &c));
    assert!(!ts_before(&b, &a));
    assert!(ts_before_or_equal(&a, &a));
    assert!(ts_before_or_equal(&a, &b));
    assert!(!ts_before_or_equal(&b, &a));
}

#[test]
fn test_epoch_seconds_known_values() {
    assert_eq!(to_epoch_seconds(&parse("1970-01-01 00:00:00").unwrap()), 0);
    assert_eq!(
        to_epoch_seconds(&parse("2024-01-01 00:00:00").unwrap()),
        1704067200
    );
    assert_eq!(
        to_epoch_seconds(&parse("2000-02-29 12:00:00").unwrap()),
        951825600
    );
}

#[test]
fn test_epoch_seconds_wraps_before_1970() {
    // One second before the epoch wraps around the unsigned range, as a
    // cast from a signed value does.
    assert_eq!(
        to_epoch_seconds(&parse("1969-12-31 23:59:59").unwrap()),
        u64::MAX
    );
}
