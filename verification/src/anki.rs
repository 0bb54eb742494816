//! Review statistics of an Anki collection for a window of days.

pub mod db;
pub mod scheduling;
pub mod stats;
pub mod types;

pub use types::AnkiStats;

use crate::calendar::ymd_text;
use db::{aggregate_reviews_by_day, tallies_fit, tally, RevlogRow, ReviewCategory};
use scheduling::offset_date;
use stats::{build_daily_entries, reviews_on, window_defined, window_len, window_offset};
use types::{hover_label_text, DayReviews, SECS_PER_DAY};
use vstd::prelude::*;

verus! {

/// The tallies of a day as a `DayReviews` (each tally fitting in a `u32`).
pub open spec fn tallied_reviews(rows: Seq<RevlogRow>, day: i32) -> DayReviews {
    DayReviews {
        learn: tally(rows, day, ReviewCategory::Learn) as u32,
        young: tally(rows, day, ReviewCategory::Young) as u32,
        mature: tally(rows, day, ReviewCategory::Mature) as u32,
        relearn: tally(rows, day, ReviewCategory::Relearn) as u32,
        filtered: tally(rows, day, ReviewCategory::Filtered) as u32,
    }
}

/// The deck named in the statistics: the deck asked for, or "All Decks" when none (or an
/// empty name) was given.
pub open spec fn deck_title(deck: Option<Seq<char>>) -> Seq<char> {
    match deck {
        Some(name) => if name.len() > 0 {
            name
        } else {
            "All Decks"@
        },
        None => "All Decks"@,
    }
}

/// Whether a row of the statistics is the date text, the total and the hover text of a day.
pub open spec fn is_daily_review(entry: (String, u32, String), date: i32, reviews: DayReviews) -> bool {
    &&& entry.0@ == ymd_text(date)
    &&& entry.1 == reviews.spec_total()
    &&& entry.2@ == hover_label_text(ymd_text(date), reviews)
}

/// The statistics of a window of `day_count` days ending with the current Anki day, from
/// the review-log rows read for it.
pub open spec fn stats_match(
    stats: AnkiStats,
    deck: Option<Seq<char>>,
    day_count: u32,
    next_day_at: i64,
    rollover_hour: u32,
    rows: Seq<RevlogRow>,
) -> bool {
    &&& stats.deck@ == deck_title(deck)
    &&& stats.days == day_count
    &&& stats.daily_reviews@.len() == window_len(day_count)
    &&& forall|i: int|
        0 <= i < stats.daily_reviews@.len() ==> {
            let offset = window_offset(day_count, i) as i32;
            is_daily_review(
                #[trigger] stats.daily_reviews@[i],
                offset_date(offset, next_day_at, rollover_hour) as i32,
                tallied_reviews(rows, offset),
            )
        }
}

/// Whether every day of the window has a total that fits in a `u32`.
pub open spec fn window_totals_fit(day_count: u32, rows: Seq<RevlogRow>) -> bool {
    forall|i: int|
        0 <= i < window_len(day_count) ==> #[trigger] tallied_reviews(
            rows,
            window_offset(day_count, i) as i32,
        ).spec_total() <= u32::MAX
}

/// Millisecond timestamp from which the review log is read: a day before the window starts.
pub open spec fn spec_window_start_ms(next_day_at: i64, day_count: u32) -> int {
    (next_day_at - (day_count + 1) * SECS_PER_DAY) * 1000
}

/// The millisecond timestamp from which the review log is read.
pub fn revlog_window_start_ms(next_day_at: i64, day_count: u32) -> (start_ms: i64)
    requires
        i64::MIN <= next_day_at - (day_count + 1) * SECS_PER_DAY,
        i64::MIN <= spec_window_start_ms(next_day_at, day_count) <= i64::MAX,
    ensures
        start_ms == spec_window_start_ms(next_day_at, day_count),
{
    (next_day_at - (day_count as i64 + 1) * SECS_PER_DAY) * 1000
}

/// Assembles the statistics of a deck (or of all decks) for the window of `day_count` days
/// that ends with the current Anki day, from the review-log rows read for it.
pub fn fetch_anki_stats(
    deck: Option<&str>,
    day_count: u32,
    next_day_at: i64,
    rollover_hour: u32,
    revlog_rows: &[RevlogRow],
) -> (stats: AnkiStats)
    requires
        tallies_fit(revlog_rows@),
        window_defined(day_count, next_day_at, rollover_hour),
        window_totals_fit(day_count, revlog_rows@),
    ensures
        stats_match(
            stats,
            match deck {
                Some(d) => Some(d@),
                None => None,
            },
            day_count,
            next_day_at,
            rollover_hour,
            revlog_rows@,
        ),
{
    let reviews_by_day = aggregate_reviews_by_day(revlog_rows);
    let daily_entries = build_daily_entries(day_count, &reviews_by_day, next_day_at, rollover_hour);
    let mut daily_reviews: Vec<(String, u32, String)> = Vec::new();
    let n = daily_entries.len();
    let mut i: usize = 0;
    while i < n
        invariant
            n == daily_entries@.len(),
            n == window_len(day_count),
            i <= n,
            tallies_fit(revlog_rows@),
            window_totals_fit(day_count, revlog_rows@),
            forall|day: i32| #[trigger] reviews_by_day@.contains_key(day) <==> db::has_day(revlog_rows@, day),
            forall|day: i32| #[trigger] reviews_by_day@.contains_key(day) ==> db::is_tally_of(reviews_by_day@[day], revlog_rows@, day),
            forall|k: int|
                0 <= k < n ==> {
                    let o = window_offset(day_count, k) as i32;
                    &&& (#[trigger] daily_entries@[k]).date == offset_date(o, next_day_at, rollover_hour)
                    &&& crate::calendar::day_in_range(daily_entries@[k].date as int)
                    &&& daily_entries@[k].reviews == reviews_on(reviews_by_day@, o)
                },
            daily_reviews@.len() == i,
            forall|k: int|
                0 <= k < i ==> {
                    let offset = window_offset(day_count, k) as i32;
                    is_daily_review(
                        #[trigger] daily_reviews@[k],
                        offset_date(offset, next_day_at, rollover_hour) as i32,
                        tallied_reviews(revlog_rows@, offset),
                    )
                },
        decreases n - i,
    {
        let entry = &daily_entries[i];
        let ghost offset = window_offset(day_count, i as int) as i32;
        proof {
            if reviews_by_day@.contains_key(offset) {
                assert(db::is_tally_of(reviews_by_day@[offset], revlog_rows@, offset));
            } else {
                db::lemma_tally_absent_day(revlog_rows@, offset, ReviewCategory::Learn);
                db::lemma_tally_absent_day(revlog_rows@, offset, ReviewCategory::Young);
                db::lemma_tally_absent_day(revlog_rows@, offset, ReviewCategory::Mature);
                db::lemma_tally_absent_day(revlog_rows@, offset, ReviewCategory::Relearn);
                db::lemma_tally_absent_day(revlog_rows@, offset, ReviewCategory::Filtered);
            }
            assert(entry.reviews == tallied_reviews(revlog_rows@, offset));
            assert(tallied_reviews(revlog_rows@, window_offset(day_count, i as int) as i32).spec_total() <= u32::MAX);
        }
        daily_reviews.push((entry.date_str(), entry.reviews.total(), entry.hover_label()));
        i = i + 1;
    }
    let title = match deck {
        Some(d) => if d.unicode_len() > 0 {
            String::from_str(d)
        } else {
            String::from_str("All Decks")
        },
        None => String::from_str("All Decks"),
    };
    AnkiStats { deck: title, days: day_count, daily_reviews }
}

/// Whether the statistics of the window can be counted in `u32`s: every tally of every day,
/// and the total of each day of the window.
pub fn revlog_window_fits(day_count: u32, revlog_rows: &[RevlogRow]) -> (fit: bool)
    ensures
        fit == (tallies_fit(revlog_rows@) && window_totals_fit(day_count, revlog_rows@)),
{
    if !db::revlog_tallies_fit(revlog_rows) {
        return false;
    }
    let reviews_by_day = aggregate_reviews_by_day(revlog_rows);
    let count: i32 = day_count as i32;
    if count <= 0 {
        return true;
    }
    let first: i32 = 1 - count;
    let mut offset: i32 = first;
    while offset <= 0
        invariant
            count == stats::window_count(day_count),
            count > 0,
            first == 1 - count,
            first <= offset <= 1,
            tallies_fit(revlog_rows@),
            forall|day: i32| #[trigger] reviews_by_day@.contains_key(day) <==> db::has_day(revlog_rows@, day),
            forall|day: i32| #[trigger] reviews_by_day@.contains_key(day) ==> db::is_tally_of(reviews_by_day@[day], revlog_rows@, day),
            forall|i: int|
                0 <= i < offset - first ==> #[trigger] tallied_reviews(
                    revlog_rows@,
                    window_offset(day_count, i) as i32,
                ).spec_total() <= u32::MAX,
        decreases 1 - offset,
    {
        let reviews = match reviews_by_day.get(&offset) {
            Some(r) => *r,
            None => DayReviews::default(),
        };
        proof {
            if reviews_by_day@.contains_key(offset) {
                assert(db::is_tally_of(reviews_by_day@[offset], revlog_rows@, offset));
            } else {
                db::lemma_tally_absent_day(revlog_rows@, offset, ReviewCategory::Learn);
                db::lemma_tally_absent_day(revlog_rows@, offset, ReviewCategory::Young);
                db::lemma_tally_absent_day(revlog_rows@, offset, ReviewCategory::Mature);
                db::lemma_tally_absent_day(revlog_rows@, offset, ReviewCategory::Relearn);
                db::lemma_tally_absent_day(revlog_rows@, offset, ReviewCategory::Filtered);
            }
            assert(tally(revlog_rows@, offset, ReviewCategory::Learn) <= u32::MAX);
            assert(tally(revlog_rows@, offset, ReviewCategory::Young) <= u32::MAX);
            assert(tally(revlog_rows@, offset, ReviewCategory::Mature) <= u32::MAX);
            assert(tally(revlog_rows@, offset, ReviewCategory::Relearn) <= u32::MAX);
            assert(tally(revlog_rows@, offset, ReviewCategory::Filtered) <= u32::MAX);
            assert(reviews == tallied_reviews(revlog_rows@, offset));
            assert(window_offset(day_count, offset - first) == offset);
        }
        let total: u64 = reviews.learn as u64 + reviews.young as u64 + reviews.mature as u64
            + reviews.relearn as u64 + reviews.filtered as u64;
        if total > 4294967295u64 {
            assert(tallied_reviews(revlog_rows@, window_offset(day_count, offset - first) as i32).spec_total()
                > u32::MAX);
            return false;
        }
        offset = offset + 1;
    }
    proof {
        assert(window_len(day_count) == count);
        assert forall|i: int| 0 <= i < window_len(day_count) implies #[trigger] tallied_reviews(
            revlog_rows@,
            window_offset(day_count, i) as i32,
        ).spec_total() <= u32::MAX by {
            assert(i < offset - first);
        }
    }
    true
}

/// Whether two rows of statistics show the same day: same date text, total and hover text.
pub open spec fn same_daily_review(a: (String, u32, String), b: (String, u32, String)) -> bool {
    a.0@ == b.0@ && a.1 == b.1 && a.2@ == b.2@
}

/// A shorter window is the end of a longer one: with the same next rollover and rollover
/// hour, and review-log rows that tally alike on the days the windows share, the statistics
/// of `short_days` days are the last `short_days` days of those of `long_days` days, under
/// the same deck title.
pub proof fn lemma_shorter_window_is_suffix(
    short: AnkiStats,
    long: AnkiStats,
    deck: Option<Seq<char>>,
    short_days: u32,
    long_days: u32,
    next_day_at: i64,
    rollover_hour: u32,
    short_rows: Seq<RevlogRow>,
    long_rows: Seq<RevlogRow>,
)
    requires
        short_days <= long_days <= i32::MAX,
        stats_match(short, deck, short_days, next_day_at, rollover_hour, short_rows),
        stats_match(long, deck, long_days, next_day_at, rollover_hour, long_rows),
        forall|day: i32|
            1 - short_days <= day <= 0 ==> #[trigger] tallied_reviews(short_rows, day)
                == tallied_reviews(long_rows, day),
    ensures
        short.deck@ == long.deck@,
        short.daily_reviews@.len() == short_days,
        long.daily_reviews@.len() == long_days,
        forall|i: int|
            0 <= i < short_days ==> same_daily_review(
                #[trigger] short.daily_reviews@[i],
                long.daily_reviews@[long_days - short_days + i],
            ),
{
    assert(stats::window_count(short_days) == short_days);
    assert(stats::window_count(long_days) == long_days);
    assert forall|i: int| 0 <= i < short_days implies same_daily_review(
        #[trigger] short.daily_reviews@[i],
        long.daily_reviews@[long_days - short_days + i],
    ) by {
        let k = long_days - short_days + i;
        assert(window_offset(short_days, i) == window_offset(long_days, k));
        let offset = window_offset(short_days, i) as i32;
        assert(tallied_reviews(short_rows, offset) == tallied_reviews(long_rows, offset));
        assert(is_daily_review(
            long.daily_reviews@[k],
            offset_date(window_offset(long_days, k) as i32, next_day_at, rollover_hour) as i32,
            tallied_reviews(long_rows, window_offset(long_days, k) as i32),
        ));
    }
}

/// A day's reviews, as tallying the rows gives them (to `aggregate_reviews_by_day` and to
/// the statistics), count that day's rows by type: learning (type 0), young and mature
/// (type 1, previous interval under 21 days or not), relearning (type 2), filtered (type 3).
pub proof fn lemma_day_reviews_count_rows_by_type(rows: Seq<RevlogRow>, day: i32, reviews: DayReviews)
    requires
        db::is_tally_of(reviews, rows, day) || (tallies_fit(rows) && reviews == tallied_reviews(rows, day)),
    ensures
        reviews.learn == rows.filter(|r: RevlogRow| r.0 == day && r.1 == 0).len(),
        reviews.young == rows.filter(|r: RevlogRow| r.0 == day && r.1 == 1 && r.2 < 21).len(),
        reviews.mature == rows.filter(|r: RevlogRow| r.0 == day && r.1 == 1 && r.2 >= 21).len(),
        reviews.relearn == rows.filter(|r: RevlogRow| r.0 == day && r.1 == 2).len(),
        reviews.filtered == rows.filter(|r: RevlogRow| r.0 == day && r.1 == 3).len(),
{
    db::lemma_tallies_count_rows_by_type(rows, day);
    if !db::is_tally_of(reviews, rows, day) {
        assert(tally(rows, day, ReviewCategory::Learn) <= u32::MAX);
        assert(tally(rows, day, ReviewCategory::Young) <= u32::MAX);
        assert(tally(rows, day, ReviewCategory::Mature) <= u32::MAX);
        assert(tally(rows, day, ReviewCategory::Relearn) <= u32::MAX);
        assert(tally(rows, day, ReviewCategory::Filtered) <= u32::MAX);
    }
}

} // verus!
