//! The window of days shown, each with its date and reviews.

use super::scheduling::{
    anki_day_offset_to_date, offset_date, offset_date_defined, offset_day_start, offset_instant,
};
use super::types::SECS_PER_DAY;
use crate::calendar::{utc_day_of_timestamp, SECS_PER_HOUR};
use super::types::{DailyEntry, DayReviews};
use std::collections::HashMap;
use vstd::prelude::*;

verus! {

/// The window length as the day offsets are computed: `day_count` reinterpreted as an
/// `i32`.
pub open spec fn window_count(day_count: u32) -> i32 {
    day_count as i32
}

/// Number of days in the window: the offsets run from `1 - window_count` up to 0, so
/// none when the reinterpreted count is not positive.
pub open spec fn window_len(day_count: u32) -> nat {
    if window_count(day_count) > 0 {
        window_count(day_count) as nat
    } else {
        0
    }
}

/// The day offset of the `i`-th day of the window, oldest first; the last one is 0.
pub open spec fn window_offset(day_count: u32, i: int) -> int {
    1 - window_count(day_count) + i
}

/// Whether the window's offsets can be computed (the negated count plus one fits in an
/// `i32`) and chrono computes the date of each.
pub open spec fn window_defined(day_count: u32, next_day_at: i64, rollover_hour: u32) -> bool {
    &&& window_count(day_count) > i32::MIN + 1
    &&& forall|i: int|
        0 <= i < window_len(day_count) ==> #[trigger] offset_date_defined(
            window_offset(day_count, i) as i32,
            next_day_at,
            rollover_hour,
        )
}

/// The reviews recorded for a day offset, or none.
pub open spec fn reviews_on(day_map: Map<i32, DayReviews>, offset: i32) -> DayReviews {
    if day_map.contains_key(offset) {
        day_map[offset]
    } else {
        DayReviews { learn: 0, young: 0, mature: 0, relearn: 0, filtered: 0 }
    }
}

/// One entry per day of the window, oldest first, each with its date and its reviews.
pub fn build_daily_entries(
    day_count: u32,
    day_map: &HashMap<i32, DayReviews>,
    next_day_at: i64,
    rollover_hour: u32,
) -> (entries: Vec<DailyEntry>)
    requires
        window_defined(day_count, next_day_at, rollover_hour),
    ensures
        entries@.len() == window_len(day_count),
        forall|i: int|
            0 <= i < entries@.len() ==> {
                let offset = window_offset(day_count, i) as i32;
                &&& (#[trigger] entries@[i]).date == offset_date(offset, next_day_at, rollover_hour)
                &&& crate::calendar::day_in_range(entries@[i].date as int)
                &&& entries@[i].reviews == reviews_on(day_map@, offset)
            },
{
    let count: i32 = day_count as i32;
    let first: i32 = -count + 1;
    let mut entries: Vec<DailyEntry> = Vec::new();
    if first > 0 {
        return entries;
    }
    let mut offset: i32 = first;
    while offset <= 0
        invariant
            count == window_count(day_count),
            window_defined(day_count, next_day_at, rollover_hour),
            first == 1 - count,
            first <= offset <= 1,
            count > 0,
            entries@.len() == offset - first,
            forall|i: int|
                0 <= i < entries@.len() ==> {
                    let o = window_offset(day_count, i) as i32;
                    &&& (#[trigger] entries@[i]).date == offset_date(o, next_day_at, rollover_hour)
                    &&& crate::calendar::day_in_range(entries@[i].date as int)
                    &&& entries@[i].reviews == reviews_on(day_map@, o)
                },
        decreases 1 - offset,
    {
        let ghost i = offset - first;
        assert(window_offset(day_count, i) == offset);
        assert(offset_date_defined(window_offset(day_count, i) as i32, next_day_at, rollover_hour));
        let date = anki_day_offset_to_date(offset, next_day_at, rollover_hour);
        let reviews = match day_map.get(&offset) {
            Some(r) => *r,
            None => DayReviews::default(),
        };
        entries.push(DailyEntry { date, reviews });
        offset = offset + 1;
    }
    entries
}

/// A window of `day_count` days (up to `i32::MAX`) has exactly that many days, the last
/// of which is the current one (offset 0), each one day after the one before.
pub proof fn lemma_window_ends_today(day_count: u32)
    requires
        0 < day_count <= i32::MAX,
    ensures
        window_len(day_count) == day_count,
        window_offset(day_count, day_count - 1) == 0,
        forall|i: int| 0 <= i < day_count - 1 ==> #[trigger] window_offset(day_count, i + 1) == window_offset(day_count, i) + 1,
{
    assert(window_count(day_count) == day_count);
}


/// Whether the window's offsets can be computed and chrono computes the date of each: a
/// check of the first and the last day suffices, the instants growing with the offset.
pub fn window_is_defined(day_count: u32, next_day_at: i64, rollover_hour: u32) -> (defined: bool)
    ensures
        defined == window_defined(day_count, next_day_at, rollover_hour),
{
    let count: i32 = day_count as i32;
    if count <= i32::MIN + 1 {
        return false;
    }
    if count <= 0 {
        return true;
    }
    if next_day_at < i64::MIN + SECS_PER_DAY {
        assert(!offset_date_defined(window_offset(day_count, 0) as i32, next_day_at, rollover_hour));
        return false;
    }
    let base: i64 = match utc_day_of_timestamp(next_day_at - SECS_PER_DAY) {
        Some(_) => next_day_at - SECS_PER_DAY,
        None => 0,
    };
    let first: i32 = 1 - count;
    let first_start: i64 = base + first as i64 * SECS_PER_DAY;
    let first_instant: i64 = first_start - rollover_hour as i64 * SECS_PER_HOUR;
    let last_start: i64 = base;
    let last_instant: i64 = base - rollover_hour as i64 * SECS_PER_HOUR;
    let ok = utc_day_of_timestamp(first_start).is_some() && utc_day_of_timestamp(first_instant).is_some()
        && utc_day_of_timestamp(last_start).is_some() && utc_day_of_timestamp(last_instant).is_some();
    proof {
        let last = (count - 1) as int;
        assert(window_offset(day_count, 0) == first);
        assert(window_offset(day_count, last) == 0);
        if ok {
            assert forall|i: int| 0 <= i < window_len(day_count) implies #[trigger] offset_date_defined(
                window_offset(day_count, i) as i32,
                next_day_at,
                rollover_hour,
            ) by {
                let o = window_offset(day_count, i) as i32;
                assert(first <= o <= 0);
                crate::calendar::lemma_in_range_between(first_start as int, offset_day_start(o, next_day_at), last_start as int);
                crate::calendar::lemma_in_range_between(
                    first_instant as int,
                    offset_instant(o, next_day_at, rollover_hour),
                    last_instant as int,
                );
            }
        } else {
            assert(!offset_date_defined(window_offset(day_count, 0) as i32, next_day_at, rollover_hour)
                || !offset_date_defined(window_offset(day_count, last) as i32, next_day_at, rollover_hour));
        }
    }
    ok
}

} // verus!
