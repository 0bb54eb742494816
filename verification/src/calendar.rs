//! Calendar days as plain numbers, and the calendar conversions that chrono performs on them.
//!
//! A day is the number chrono's `Datelike::num_days_from_ce` gives it: 0001-01-01 of the
//! proleptic Gregorian calendar is day 1.

use chrono::Datelike;
use chrono::NaiveDate;
use vstd::prelude::*;

verus! {

/// Day number of the earliest date chrono represents (-262143-01-01).
pub const MIN_DAY: i32 = -95746129;

/// Day number of the latest date chrono represents (262142-12-31).
pub const MAX_DAY: i32 = 95745399;

/// Day number of 1970-01-01, the day of Unix time 0.
pub const UNIX_EPOCH_DAY: i64 = 719163;

/// Seconds in a day.
pub const SECS_PER_DAY: i64 = 86400;

/// Seconds in an hour.
pub const SECS_PER_HOUR: i64 = 3600;

/// Whether chrono represents the date with this day number.
pub open spec fn day_in_range(day: int) -> bool {
    MIN_DAY <= day <= MAX_DAY
}

/// The day number of the UTC date of a Unix timestamp (whole seconds).
pub open spec fn utc_day_of(secs: int) -> int {
    secs / (SECS_PER_DAY as int) + UNIX_EPOCH_DAY
}

/// Whether chrono represents the UTC instant of a Unix timestamp (`DateTime::from_timestamp`
/// returns `Some` exactly then).
pub open spec fn timestamp_in_range(secs: int) -> bool {
    day_in_range(utc_day_of(secs))
}

/// Day of the week of a day number, counted from Sunday (0) to Saturday (6).
/// Day 1 (0001-01-01) is a Monday.
pub open spec fn weekday_from_sunday(day: int) -> int {
    day % 7
}

/// Text of a date in the form `%Y-%m-%d`, as chrono formats it.
pub uninterp spec fn ymd_text(day: i32) -> Seq<char>;

/// The day that chrono reads from a text in the form `%Y-%m-%d`, if it reads one.
pub uninterp spec fn ymd_parse(text: Seq<char>) -> Option<i32>;

/// Month (1 to 12) of the date with this day number, as chrono computes it.
pub uninterp spec fn month_number(day: i32) -> u32;

/// Formats a day with chrono's `NaiveDate::format` and the pattern `%Y-%m-%d`.
/// The text is named `ymd_text`; nothing more is stated of it.
#[verifier::external_body]
pub fn format_ymd(day: i32) -> (text: String)
    requires
        day_in_range(day as int),
    ensures
        text@ == ymd_text(day),
{
    NaiveDate::from_num_days_from_ce_opt(day).unwrap().format("%Y-%m-%d").to_string()
}

/// Reads a date with chrono's `NaiveDate::parse_from_str` and the pattern `%Y-%m-%d`.
/// The result is named `ymd_parse`; a date chrono reads is one it represents.
#[verifier::external_body]
pub fn parse_ymd(text: &str) -> (day: Option<i32>)
    ensures
        day == ymd_parse(text@),
        day matches Some(d) ==> day_in_range(d as int),
{
    NaiveDate::parse_from_str(text, "%Y-%m-%d").ok().map(|d| d.num_days_from_ce())
}

/// The month of a day, from chrono's `Datelike::month`, which documents a value from 1 to 12.
#[verifier::external_body]
pub fn month_of_day(day: i32) -> (month: u32)
    requires
        day_in_range(day as int),
    ensures
        month == month_number(day),
        1 <= month <= 12,
{
    NaiveDate::from_num_days_from_ce_opt(day).unwrap().month()
}

/// Whole days in a number of seconds, rounded down (`i64::div_euclid` by a day).
pub fn whole_days(secs: i64) -> (days: i64)
    ensures
        days as int == secs as int / (SECS_PER_DAY as int),
{
    let q = secs / SECS_PER_DAY;
    let r = secs % SECS_PER_DAY;
    proof {
        let s = secs as int;
        if s >= 0 {
            assert(q == s / 86400);
            assert(r == s % 86400);
        } else {
            assert(q == -((-s) / 86400));
            assert(r == s - q * 86400) by (nonlinear_arith)
                requires
                    r == -((-s) % 86400),
                    q == -((-s) / 86400),
            ;
        }
    }
    if r < 0 {
        proof {
            let s = secs as int;
            assert(s / 86400 == q - 1) by (nonlinear_arith)
                requires
                    r == s - q * 86400,
                    -86400 < r < 0,
            ;
        }
        q - 1
    } else {
        proof {
            let s = secs as int;
            assert(s / 86400 == q) by (nonlinear_arith)
                requires
                    r == s - q * 86400,
                    0 <= r < 86400,
            ;
        }
        q
    }
}

/// The day number of the UTC date of a Unix timestamp, when chrono represents that instant
/// (what `DateTime::from_timestamp(secs, 0)` followed by `date_naive` gives).
pub fn utc_day_of_timestamp(secs: i64) -> (day: Option<i32>)
    ensures
        day matches Some(d) ==> timestamp_in_range(secs as int) && d == utc_day_of(secs as int),
        day is None ==> !timestamp_in_range(secs as int),
{
    let floor_days = whole_days(secs);
    let d: i64 = floor_days + UNIX_EPOCH_DAY;
    if MIN_DAY as i64 <= d && d <= MAX_DAY as i64 {
        Some(d as i32)
    } else {
        None
    }
}

/// Day of the week of a day number, counted from Sunday.
pub fn weekday_of_day(day: i32) -> (weekday: u32)
    requires
        day_in_range(day as int),
    ensures
        weekday as int == weekday_from_sunday(day as int),
        weekday < 7,
{
    // 95746133 is a multiple of 7 that lifts every represented day above zero.
    let lifted: u64 = (day as i64 + 95746133) as u64;
    proof {
        let d = day as int;
        assert((d + 95746133) % 7 == d % 7) by (nonlinear_arith)
            requires
                d + 95746133 >= 0,
        ;
    }
    (lifted % 7) as u32
}

/// An instant between two instants chrono represents is one it represents too.
pub proof fn lemma_in_range_between(a: int, t: int, b: int)
    requires
        a <= t <= b,
        timestamp_in_range(a),
        timestamp_in_range(b),
    ensures
        timestamp_in_range(t),
{
    assert(a / 86400 <= t / 86400 <= b / 86400) by (nonlinear_arith)
        requires
            a <= t <= b,
    ;
}

} // verus!
