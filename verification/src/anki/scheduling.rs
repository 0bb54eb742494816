//! Anki's day boundaries: which instant starts the next day, and which calendar date a
//! day offset stands for.

use super::types::SECS_PER_DAY;
use crate::calendar::{timestamp_in_range, utc_day_of, utc_day_of_timestamp, SECS_PER_HOUR};
use chrono_tz::Tz;
use vstd::prelude::*;

verus! {

#[verifier::external_type_specification]
#[verifier::external_body]
pub struct ExTz(Tz);

/// The time zone chrono-tz's table gives for this name; none when the name is not in it.
pub uninterp spec fn zone_named(name: Seq<char>) -> Option<Tz>;

/// Looks a time zone up by name with chrono-tz's `FromStr` for `Tz`, a lookup in its fixed
/// table of tz-database names: the result, zone or none, is named `zone_named`.
#[verifier::external_body]
fn parse_time_zone(name: &str) -> (tz: Option<Tz>)
    ensures
        tz == zone_named(name@),
{
    name.parse::<Tz>().ok()
}

/// The time zone a request names: the zone chrono-tz has under that name; none when no
/// name, or an empty one, is given, or when chrono-tz does not know the name (the
/// machine's zone is used then).
pub fn select_time_zone(timezone: Option<&str>) -> (tz: Option<Tz>)
    ensures
        tz == match timezone {
            Some(name) => if name@.len() > 0 {
                zone_named(name@)
            } else {
                None
            },
            None => None,
        },
{
    match timezone {
        Some(name) => if name.unicode_len() > 0 {
            parse_time_zone(name)
        } else {
            None
        },
        None => None,
    }
}

/// The next rollover: today's rollover when it is still ahead of `now_secs`, else the one
/// a day after it. Without today's rollover (the hour does not exist on the local clock
/// today), a day after now.
pub open spec fn spec_next_rollover(now_secs: i64, rollover_today: Option<i64>) -> int {
    match rollover_today {
        Some(r) => if now_secs < r {
            r as int
        } else {
            r + SECS_PER_DAY
        },
        None => now_secs + SECS_PER_DAY,
    }
}

/// Whether adding a day to the instant the rollover is counted from stays in chrono's range.
pub open spec fn next_rollover_computable(now_secs: i64, rollover_today: Option<i64>) -> bool {
    match rollover_today {
        Some(r) => now_secs < r || timestamp_in_range(r + SECS_PER_DAY),
        None => timestamp_in_range(now_secs + SECS_PER_DAY),
    }
}

/// Whether the next rollover can be computed: adding a day to the instant it is counted
/// from stays in chrono's range.
pub fn next_rollover_is_computable(now_secs: i64, rollover_today: Option<i64>) -> (computable: bool)
    ensures
        computable == next_rollover_computable(now_secs, rollover_today),
{
    let from: i64 = match rollover_today {
        Some(r) => {
            if now_secs < r {
                return true;
            }
            r
        },
        None => now_secs,
    };
    if from > i64::MAX - SECS_PER_DAY {
        assert(!timestamp_in_range(from + SECS_PER_DAY));
        return false;
    }
    utc_day_of_timestamp(from + SECS_PER_DAY).is_some()
}

/// The Unix timestamp of the next rollover, from the current time (whole seconds; the
/// fraction of a second makes no difference, today's rollover being on a whole second)
/// and today's rollover on the local clock, if the local clock has that time today.
pub fn next_rollover_from(now_secs: i64, rollover_today: Option<i64>) -> (next: i64)
    requires
        next_rollover_computable(now_secs, rollover_today),
    ensures
        next == spec_next_rollover(now_secs, rollover_today),
{
    match rollover_today {
        Some(r) => if now_secs < r {
            r
        } else {
            r + SECS_PER_DAY
        },
        None => now_secs + SECS_PER_DAY,
    }
}

/// The instant a day offset is counted from: the start of the current Anki day, or Unix
/// time 0 when chrono does not represent that instant.
pub open spec fn offset_base(next_day_at: i64) -> int {
    if timestamp_in_range(next_day_at - SECS_PER_DAY) {
        next_day_at - SECS_PER_DAY
    } else {
        0
    }
}

/// The instant `day_offset` days after the base.
pub open spec fn offset_day_start(day_offset: i32, next_day_at: i64) -> int {
    offset_base(next_day_at) + day_offset * SECS_PER_DAY
}

/// That instant moved back by the rollover hour.
pub open spec fn offset_instant(day_offset: i32, next_day_at: i64, rollover_hour: u32) -> int {
    offset_day_start(day_offset, next_day_at) - rollover_hour * SECS_PER_HOUR
}

/// Whether chrono computes the date of a day offset without overflow: the current day's
/// start fits in an `i64`, and both instants stay in chrono's range.
pub open spec fn offset_date_defined(day_offset: i32, next_day_at: i64, rollover_hour: u32) -> bool {
    &&& next_day_at - SECS_PER_DAY >= i64::MIN
    &&& timestamp_in_range(offset_day_start(day_offset, next_day_at))
    &&& timestamp_in_range(offset_instant(day_offset, next_day_at, rollover_hour))
}

/// The date (day number) a day offset stands for: the UTC date of the instant.
pub open spec fn offset_date(day_offset: i32, next_day_at: i64, rollover_hour: u32) -> int {
    utc_day_of(offset_instant(day_offset, next_day_at, rollover_hour))
}

/// The calendar date of the Anki day `day_offset` days from the current one.
pub fn anki_day_offset_to_date(day_offset: i32, next_day_at: i64, rollover_hour: u32) -> (date: i32)
    requires
        offset_date_defined(day_offset, next_day_at, rollover_hour),
    ensures
        date == offset_date(day_offset, next_day_at, rollover_hour),
        crate::calendar::day_in_range(date as int),
{
    let last_rollover: i64 = match utc_day_of_timestamp(next_day_at - SECS_PER_DAY) {
        Some(_) => next_day_at - SECS_PER_DAY,
        None => 0,
    };
    let day_start: i64 = last_rollover + day_offset as i64 * SECS_PER_DAY;
    let instant: i64 = day_start - rollover_hour as i64 * SECS_PER_HOUR;
    match utc_day_of_timestamp(instant) {
        Some(day) => day,
        None => {
            proof {
                assert(false);
            }
            0
        },
    }
}

/// The next rollover lies within the coming day, when today's rollover (if the local clock
/// has it) lies within a day of now.
pub proof fn lemma_next_rollover_within_a_day(now_secs: i64, rollover_today: Option<i64>)
    requires
        rollover_today matches Some(r) ==> now_secs - SECS_PER_DAY < r <= now_secs + SECS_PER_DAY,
    ensures
        now_secs < spec_next_rollover(now_secs, rollover_today) <= now_secs + SECS_PER_DAY,
{
}

/// Consecutive day offsets stand for consecutive calendar dates.
pub proof fn lemma_consecutive_offsets_consecutive_dates(
    day_offset: i32,
    next_day_at: i64,
    rollover_hour: u32,
)
    requires
        day_offset < i32::MAX,
    ensures
        offset_date((day_offset + 1) as i32, next_day_at, rollover_hour) == offset_date(
            day_offset,
            next_day_at,
            rollover_hour,
        ) + 1,
{
    let t = offset_instant(day_offset, next_day_at, rollover_hour);
    assert(offset_instant((day_offset + 1) as i32, next_day_at, rollover_hour) == t + 86400);
    assert((t + 86400) / 86400 == t / 86400 + 1) by (nonlinear_arith);
}

} // verus!
