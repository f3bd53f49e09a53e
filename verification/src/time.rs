//! Naive (zone-less) date-times as plain numbers, and the calendar
//! arithmetic the feature pipeline and delay tracking need.

use chrono::Timelike;
use vstd::prelude::*;

verus! {

/// A date and time without time zone: whole seconds since
/// 1970-01-01T00:00:00 and a sub-second part in nanoseconds, which is
/// 1_000_000_000 or more during a leap second (as chrono represents one).
#[derive(Debug, Clone, Copy, PartialEq, Eq, Structural)]
pub struct DateTime {
    pub seconds: i64,
    pub nanos: u32,
}

/// The first second of the earliest date chrono represents (-262143-01-01).
pub const MIN_TIMESTAMP: i64 = -8334601228800;
/// The last second of the latest date chrono represents (+262142-12-31).
pub const MAX_TIMESTAMP: i64 = 8210266876799;
pub const SECONDS_PER_DAY: i64 = 86400;

/// `a` comes strictly before `b`, comparing date, time of day and sub-second
/// part in turn.
pub open spec fn before(a: DateTime, b: DateTime) -> bool {
    a.seconds < b.seconds || (a.seconds == b.seconds && a.nanos < b.nanos)
}

/// Whether `a` comes strictly before `b`.
pub fn is_before(a: DateTime, b: DateTime) -> (r: bool)
    ensures
        r == before(a, b),
{
    a.seconds < b.seconds || (a.seconds == b.seconds && a.nanos < b.nanos)
}

/// The start of the UTC day holding the Unix time `ts` (read as a signed
/// 64-bit number, as `ts as i64` does), or None where that day lies outside
/// the dates chrono represents.
pub open spec fn day_start_spec(ts: u64) -> Option<int> {
    let t = ts as i64 as int;
    if MIN_TIMESTAMP <= t <= MAX_TIMESTAMP {
        Some((t / 86400) * 86400)
    } else {
        None
    }
}

/// Floor division of `t` by a day, as a number of days.
fn days_floor(t: i64) -> (d: i64)
    requires
        MIN_TIMESTAMP <= t <= MAX_TIMESTAMP,
    ensures
        d as int == t as int / 86400,
{
    if t >= 0 {
        t / SECONDS_PER_DAY
    } else {
        let q = (-t - 1) / SECONDS_PER_DAY;
        proof {
            let n = -(t as int) - 1;
            assert(q as int == n / 86400);
            assert(t as int == -(n + 1));
            assert(-(q as int) - 1 == (t as int) / 86400) by (nonlinear_arith)
                requires
                    q as int == n / 86400,
                    n >= 0,
                    t as int == -(n + 1),
            {
                let r = n % 86400;
                assert(n == (n / 86400) * 86400 + r);
                assert(t as int == (-(n / 86400) - 1) * 86400 + (86400 - 1 - r));
            }
        }
        -q - 1
    }
}

/// The start of the UTC day of the Unix time `ts`, as chrono's
/// `NaiveDateTime::from_timestamp_millis(ts as i64 * 1000)` followed by
/// `.date()` yields it; None where chrono yields none.
pub fn day_start(ts: u64) -> (r: Option<i64>)
    ensures
        match day_start_spec(ts) {
            Some(d) => r == Some(d as i64),
            None => r is None,
        },
{
    let t = ts as i64;
    if t < MIN_TIMESTAMP || t > MAX_TIMESTAMP {
        return None;
    }
    let d = days_floor(t);
    assert(d * 86400 >= MIN_TIMESTAMP - 86400) by (nonlinear_arith)
        requires d as int == t as int / 86400, t >= MIN_TIMESTAMP;
    assert(d * 86400 <= t) by (nonlinear_arith)
        requires d as int == t as int / 86400;
    Some(d * SECONDS_PER_DAY)
}

/// The first second of the day holding second `t`.
pub fn start_of_day(t: i64) -> (r: i64)
    requires
        MIN_TIMESTAMP <= t <= MAX_TIMESTAMP,
    ensures
        r as int == (t as int / 86400) * 86400,
        MIN_TIMESTAMP <= r <= t,
        t - r < 86400,
{
    let d = days_floor(t);
    assert(MIN_TIMESTAMP <= d * 86400 <= t && t - d * 86400 < 86400) by (nonlinear_arith)
        requires d as int == t as int / 86400, MIN_TIMESTAMP <= t, MIN_TIMESTAMP % 86400 == 0;
    d * SECONDS_PER_DAY
}

/// The day of the week of the date of `dt`, counted from Monday = 0
/// (1970-01-01 was a Thursday).
pub open spec fn weekday_spec(dt: DateTime) -> int {
    (dt.seconds as int / 86400 + 3) % 7
}

/// The hour of the day of `dt`.
pub open spec fn hour_spec(dt: DateTime) -> int {
    (dt.seconds as int % 86400) / 3600
}

/// The day of the week of `dt`, from Monday = 0.
pub fn weekday(dt: DateTime) -> (r: u64)
    requires
        MIN_TIMESTAMP <= dt.seconds <= MAX_TIMESTAMP,
    ensures
        r as int == weekday_spec(dt),
        r < 7,
{
    let d = days_floor(dt.seconds);
    assert(d >= -96465292) by (nonlinear_arith)
        requires d as int == dt.seconds as int / 86400, dt.seconds >= MIN_TIMESTAMP;
    let shifted: i64 = d + 3 + 98000000;
    let w = shifted % 7;
    assert(w as int == (d as int + 3) % 7) by (nonlinear_arith)
        requires shifted == d + 3 + 98000000, shifted >= 0, w as int == shifted as int % 7;
    w as u64
}

/// The hour of the day of `dt`.
pub fn hour(dt: DateTime) -> (r: u64)
    requires
        MIN_TIMESTAMP <= dt.seconds <= MAX_TIMESTAMP,
    ensures
        r as int == hour_spec(dt),
        r < 24,
{
    let d = days_floor(dt.seconds);
    assert(0 <= dt.seconds - d * 86400 < 86400) by (nonlinear_arith)
        requires d as int == dt.seconds as int / 86400;
    let in_day = dt.seconds - d * SECONDS_PER_DAY;
    assert(in_day as int == dt.seconds as int % 86400) by (nonlinear_arith)
        requires d as int == dt.seconds as int / 86400, in_day == dt.seconds - d * 86400;
    (in_day / 3600) as u64
}

/// One day earlier, as chrono's `NaiveDateTime - TimeDelta::days(1)` gives
/// it: a leap-second time first moves to the start of the next second. None
/// where the result's date lies before the earliest date chrono represents
/// (chrono panics there).
pub open spec fn day_earlier_spec(dt: DateTime) -> Option<DateTime> {
    let r = if dt.nanos >= 1_000_000_000 {
        DateTime { seconds: (dt.seconds - 86399) as i64, nanos: (dt.nanos - 1_000_000_000) as u32 }
    } else {
        DateTime { seconds: (dt.seconds - 86400) as i64, nanos: dt.nanos }
    };
    if r.seconds < MIN_TIMESTAMP {
        None
    } else {
        Some(r)
    }
}

/// One day earlier.
pub fn day_earlier(dt: DateTime) -> (r: Option<DateTime>)
    requires
        MIN_TIMESTAMP <= dt.seconds,
    ensures
        r == day_earlier_spec(dt),
{
    let e = if dt.nanos >= 1_000_000_000 {
        DateTime { seconds: dt.seconds - 86399, nanos: dt.nanos - 1_000_000_000 }
    } else {
        DateTime { seconds: dt.seconds - SECONDS_PER_DAY, nanos: dt.nanos }
    };
    if e.seconds < MIN_TIMESTAMP {
        None
    } else {
        Some(e)
    }
}

/// The time of day that chrono's `NaiveTime::parse_from_str(s, "%H:%M:%S")`
/// reads from `s`: whole seconds since midnight and the sub-second part
/// (1_000_000_000 or more for a leap second). None where parsing fails.
pub uninterp spec fn hms_parse(s: Seq<char>) -> Option<(u32, u32)>;

/// An ASCII digit.
pub open spec fn is_digit(c: char) -> bool {
    '0' <= c <= '9'
}

/// The two-digit number at positions `i` and `i + 1`.
pub open spec fn two_digits(s: Seq<char>, i: int) -> int {
    10 * (s[i] as int - '0' as int) + (s[i + 1] as int - '0' as int)
}

/// The time of day written plainly as "HH:MM:SS" (two digits each, hour
/// below 24, minute and second below 60): whole seconds since midnight and
/// no sub-second part. None for any other text.
pub open spec fn plain_hms(s: Seq<char>) -> Option<(u32, u32)> {
    if s.len() == 8 && is_digit(s[0]) && is_digit(s[1]) && s[2] == ':' && is_digit(s[3]) && is_digit(s[4])
        && s[5] == ':' && is_digit(s[6]) && is_digit(s[7]) && two_digits(s, 0) < 24 && two_digits(s, 3) < 60
        && two_digits(s, 6) < 60 {
        Some(((two_digits(s, 0) * 3600 + two_digits(s, 3) * 60 + two_digits(s, 6)) as u32, 0u32))
    } else {
        None
    }
}

/// Parses a time of day written "%H:%M:%S" with chrono's
/// `NaiveTime::parse_from_str`. The contract names the result (`hms_parse`)
/// and states what every chrono `NaiveTime` holds: fewer than 86400 whole
/// seconds and a sub-second part below 2_000_000_000. It also states the
/// plain case that chrono's documentation describes: "HH:MM:SS" with two
/// digits each and the values in range reads as that time, with no
/// sub-second part.
#[verifier::external_body]
pub(crate) fn parse_hms(s: &str) -> (r: Option<(u32, u32)>)
    ensures
        r == hms_parse(s@),
        r matches Some(t) ==> t.0 < 86400 && t.1 < 2_000_000_000,
        plain_hms(s@) matches Some(t) ==> r == Some(t),
{
    chrono::NaiveTime::parse_from_str(s, "%H:%M:%S").ok().map(
        |t| (t.num_seconds_from_midnight(), t.nanosecond()),
    )
}

} // verus!
