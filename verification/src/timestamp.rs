//! Parsing and comparison of the fixed 19-byte timestamp prefix
//! `YYYY-MM-DD HH:MM:SS` that log lines and requests carry.
//!
//! A timestamp is naive: no time zone is attached, and values are only ever
//! compared with each other.  The five separator positions (4, 7, 10, 13 and
//! 16) are not validated; the six numeric fields must be decimal digits and
//! must form a valid calendar date and time of day.
use vstd::prelude::*;

verus! {

/// A parsed calendar timestamp, seconds precision.
#[derive(Clone, Copy)]
pub struct Timestamp {
    pub year: u32,
    pub month: u32,
    pub day: u32,
    pub hour: u32,
    pub minute: u32,
    pub second: u32,
}

/// Mathematical image of a `Timestamp`.
pub ghost struct TimestampView {
    pub year: int,
    pub month: int,
    pub day: int,
    pub hour: int,
    pub minute: int,
    pub second: int,
}

impl View for Timestamp {
    type V = TimestampView;

    open spec fn view(&self) -> TimestampView {
        TimestampView {
            year: self.year as int,
            month: self.month as int,
            day: self.day as int,
            hour: self.hour as int,
            minute: self.minute as int,
            second: self.second as int,
        }
    }
}

/// Proleptic Gregorian leap-year rule.
pub open spec fn is_leap_year(y: int) -> bool {
    (y % 4 == 0 && y % 100 != 0) || y % 400 == 0
}

/// Number of days in month `m` of year `y` (months are 1-based).
pub open spec fn days_in_month(y: int, m: int) -> int {
    if m == 2 {
        if is_leap_year(y) {
            29
        } else {
            28
        }
    } else if m == 4 || m == 6 || m == 9 || m == 11 {
        30
    } else {
        31
    }
}

/// A valid calendar date and time of day, with a four-digit year.
pub open spec fn ts_valid(v: TimestampView) -> bool {
    &&& 0 <= v.year <= 9999
    &&& 1 <= v.month <= 12
    &&& 1 <= v.day <= days_in_month(v.year, v.month)
    &&& 0 <= v.hour <= 23
    &&& 0 <= v.minute <= 59
    &&& 0 <= v.second <= 59
}

/// Strict lexicographic order on the six fields, which on valid timestamps
/// is chronological order.
pub open spec fn ts_lt(a: TimestampView, b: TimestampView) -> bool {
    if a.year != b.year {
        a.year < b.year
    } else if a.month != b.month {
        a.month < b.month
    } else if a.day != b.day {
        a.day < b.day
    } else if a.hour != b.hour {
        a.hour < b.hour
    } else if a.minute != b.minute {
        a.minute < b.minute
    } else {
        a.second < b.second
    }
}

/// Order or equality on the six fields.
pub open spec fn ts_le(a: TimestampView, b: TimestampView) -> bool {
    ts_lt(a, b) || a == b
}

/// Is `b` the code of an ASCII decimal digit?
pub open spec fn is_digit(b: u8) -> bool {
    48 <= b <= 57
}

/// Numeric value of the digit `b`.
pub open spec fn digit_val(b: u8) -> int {
    b - 48
}

/// The two-digit number at positions `i`, `i + 1`.
pub open spec fn field2(s: Seq<u8>, i: int) -> int {
    digit_val(s[i]) * 10 + digit_val(s[i + 1])
}

/// The four-digit number at positions `i` .. `i + 3`.
pub open spec fn field4(s: Seq<u8>, i: int) -> int {
    digit_val(s[i]) * 1000 + digit_val(s[i + 1]) * 100 + digit_val(s[i + 2]) * 10 + digit_val(
        s[i + 3],
    )
}

/// Are all six numeric fields of the 19-byte prefix decimal digits?
pub open spec fn prefix_digits_ok(s: Seq<u8>) -> bool {
    &&& is_digit(s[0]) && is_digit(s[1]) && is_digit(s[2]) && is_digit(s[3])
    &&& is_digit(s[5]) && is_digit(s[6])
    &&& is_digit(s[8]) && is_digit(s[9])
    &&& is_digit(s[11]) && is_digit(s[12])
    &&& is_digit(s[14]) && is_digit(s[15])
    &&& is_digit(s[17]) && is_digit(s[18])
}

/// The fields read from the 19-byte prefix, digits assumed.
pub open spec fn prefix_fields(s: Seq<u8>) -> TimestampView {
    TimestampView {
        year: field4(s, 0),
        month: field2(s, 5),
        day: field2(s, 8),
        hour: field2(s, 11),
        minute: field2(s, 14),
        second: field2(s, 17),
    }
}

/// What parsing a timestamp prefix yields: `None` if the text is shorter
/// than 19 bytes, a numeric field is not made of digits, or the fields do
/// not form a valid calendar date and time.
pub open spec fn parse_timestamp_spec(s: Seq<u8>) -> Option<TimestampView> {
    if s.len() >= 19 && prefix_digits_ok(s) && ts_valid(prefix_fields(s)) {
        Some(prefix_fields(s))
    } else {
        None
    }
}

/// The view of an optional parse result.
pub open spec fn view_opt(r: Option<Timestamp>) -> Option<TimestampView> {
    match r {
        Some(t) => Some(t@),
        None => None,
    }
}

/// Reads the digit at position `i`, or `None` if it is not a digit.
fn read_digit(s: &[u8], i: usize) -> (r: Option<u32>)
    requires
        i < s@.len(),
    ensures
        match r {
            Some(d) => is_digit(s@[i as int]) && d == digit_val(s@[i as int]) && d <= 9,
            None => !is_digit(s@[i as int]),
        },
{
    let b = s[i];
    if 48 <= b && b <= 57 {
        Some((b - 48) as u32)
    } else {
        None
    }
}

/// Reads the two-digit field at positions `i`, `i + 1`.
fn read_field2(s: &[u8], i: usize) -> (r: Option<u32>)
    requires
        i + 1 < s@.len() <= usize::MAX,
    ensures
        match r {
            Some(v) => is_digit(s@[i as int]) && is_digit(s@[i + 1]) && v == field2(s@, i as int)
                && v <= 99,
            None => !(is_digit(s@[i as int]) && is_digit(s@[i + 1])),
        },
{
    match (read_digit(s, i), read_digit(s, i + 1)) {
        (Some(a), Some(b)) => Some(a * 10 + b),
        _ => None,
    }
}

/// Reads the four-digit field at positions `i` .. `i + 3`.
fn read_field4(s: &[u8], i: usize) -> (r: Option<u32>)
    requires
        i + 3 < s@.len() <= usize::MAX,
    ensures
        match r {
            Some(v) => is_digit(s@[i as int]) && is_digit(s@[i + 1]) && is_digit(s@[i + 2])
                && is_digit(s@[i + 3]) && v == field4(s@, i as int) && v <= 9999,
            None => !(is_digit(s@[i as int]) && is_digit(s@[i + 1]) && is_digit(s@[i + 2])
                && is_digit(s@[i + 3])),
        },
{
    match (read_digit(s, i), read_digit(s, i + 1), read_digit(s, i + 2), read_digit(s, i + 3)) {
        (Some(a), Some(b), Some(c), Some(d)) => Some(a * 1000 + b * 100 + c * 10 + d),
        _ => None,
    }
}

/// Days in month `m` of year `y`, executable form.
fn days_in_month_exec(y: u32, m: u32) -> (r: u32)
    requires
        1 <= m <= 12,
    ensures
        r == days_in_month(y as int, m as int),
{
    if m == 2 {
        if (y % 4 == 0 && y % 100 != 0) || y % 400 == 0 {
            29
        } else {
            28
        }
    } else if m == 4 || m == 6 || m == 9 || m == 11 {
        30
    } else {
        31
    }
}

/// Parses the fixed `YYYY-MM-DD HH:MM:SS` prefix of `s`.  Returns `None` if
/// `s` is shorter than 19 bytes, a numeric field holds a non-digit, or the
/// fields are no valid calendar date and time; the five separator positions
/// are not inspected.
pub fn parse_timestamp(s: &[u8]) -> (r: Option<Timestamp>)
    ensures
        view_opt(r) == parse_timestamp_spec(s@),
{
    if s.len() < 19 {
        return None;
    }
    let year = match read_field4(s, 0) {
        Some(v) => v,
        None => {
            return None;
        },
    };
    let month = match read_field2(s, 5) {
        Some(v) => v,
        None => {
            return None;
        },
    };
    let day = match read_field2(s, 8) {
        Some(v) => v,
        None => {
            return None;
        },
    };
    let hour = match read_field2(s, 11) {
        Some(v) => v,
        None => {
            return None;
        },
    };
    let minute = match read_field2(s, 14) {
        Some(v) => v,
        None => {
            return None;
        },
    };
    let second = match read_field2(s, 17) {
        Some(v) => v,
        None => {
            return None;
        },
    };
    if month < 1 || month > 12 {
        return None;
    }
    if day < 1 || day > days_in_month_exec(year, month) {
        return None;
    }
    if hour > 23 || minute > 59 || second > 59 {
        return None;
    }
    Some(Timestamp { year, month, day, hour, minute, second })
}

/// Days between the civil date of `v` shifted 400 years into the future and
/// 0000-03-01 of the proleptic Gregorian calendar, by the era decomposition:
/// 400 years hold exactly 146097 days, and inside an era the day count of a
/// March-first year is linear but for the century corrections.
pub open spec fn civil_days_shifted(v: TimestampView) -> int {
    let yy = if v.month <= 2 {
        v.year + 399
    } else {
        v.year + 400
    };
    let era = yy / 400;
    let yoe = yy % 400;
    let mp = if v.month > 2 {
        v.month - 3
    } else {
        v.month + 9
    };
    let doy = (153 * mp + 2) / 5 + v.day - 1;
    let doe = yoe * 365 + yoe / 4 - yoe / 100 + doy;
    era * 146097 + doe
}

/// Seconds between `v` and 1970-01-01 00:00:00, negative for earlier
/// instants; 865565 days lie between the shifted origin and the epoch.
pub open spec fn epoch_seconds(v: TimestampView) -> int {
    (civil_days_shifted(v) - 865565) * 86400 + v.hour * 3600 + v.minute * 60 + v.second
}

/// `epoch_seconds` reduced to the range of an unsigned 64-bit number the
/// way a cast does it: an instant before the epoch wraps around.
pub open spec fn epoch_seconds_wrapped(v: TimestampView) -> int {
    if epoch_seconds(v) >= 0 {
        epoch_seconds(v)
    } else {
        epoch_seconds(v) + 0x1_0000_0000_0000_0000
    }
}

/// Seconds since the Unix epoch, for comparison against file modification
/// times; an instant before 1970 wraps around the unsigned 64-bit range.
pub fn to_epoch_seconds(t: &Timestamp) -> (r: u64)
    requires
        ts_valid(t@),
    ensures
        r == epoch_seconds_wrapped(t@),
{
    let y: u64 = t.year as u64;
    let m: u64 = t.month as u64;
    let d: u64 = t.day as u64;
    let yy: u64 = if m <= 2 {
        y + 399
    } else {
        y + 400
    };
    let era: u64 = yy / 400;
    let yoe: u64 = yy % 400;
    let mp: u64 = if m > 2 {
        m - 3
    } else {
        m + 9
    };
    let doy: u64 = (153 * mp + 2) / 5 + d - 1;
    let doe: u64 = yoe * 365 + yoe / 4 - yoe / 100 + doy;
    let days: u64 = era * 146097 + doe;
    let total: u64 = days * 86400 + (t.hour as u64) * 3600 + (t.minute as u64) * 60 + (
    t.second as u64);
    proof {
        assert(days == civil_days_shifted(t@));
        assert(total == epoch_seconds(t@) + 74784816000);
    }
    total.wrapping_sub(74784816000u64)
}

/// Is `a` chronologically strictly before `b`?
pub fn ts_before(a: &Timestamp, b: &Timestamp) -> (r: bool)
    ensures
        r == ts_lt(a@, b@),
{
    if a.year != b.year {
        a.year < b.year
    } else if a.month != b.month {
        a.month < b.month
    } else if a.day != b.day {
        a.day < b.day
    } else if a.hour != b.hour {
        a.hour < b.hour
    } else if a.minute != b.minute {
        a.minute < b.minute
    } else {
        a.second < b.second
    }
}

/// Is `a` chronologically before `b`, or equal to it?
pub fn ts_before_or_equal(a: &Timestamp, b: &Timestamp) -> (r: bool)
    ensures
        r == ts_le(a@, b@),
{
    if ts_before(b, a) {
        false
    } else {
        true
    }
}

} // verus!
