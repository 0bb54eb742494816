//! Whole-window summary of review activity: totals, streaks, high score and quartiles.

use crate::anki::db::{
    aggregate_reviews_by_day, append_id_list, category_of, id_list_text, revlog_filter_text,
    tallied_rows, tallies_fit, tally, RevlogRow, ReviewCategory,
};
use crate::anki::stats::{window_count, window_len, window_offset};
use crate::anki::types::{DailyEntry, DayReviews, SECS_PER_DAY};
use crate::anki::{deck_title, is_daily_review, tallied_reviews};
use crate::calendar::{timestamp_in_range, utc_day_of, utc_day_of_timestamp, SECS_PER_HOUR};
use crate::text::{append_signed_decimal, signed_decimal_text};
use vstd::prelude::*;

verus! {

/// Length of the run of positive counts that ends at the last element.
pub open spec fn trailing_run(s: Seq<u32>) -> nat
    decreases s.len(),
{
    if s.len() == 0 || s.last() == 0 {
        0
    } else {
        1 + trailing_run(s.drop_last())
    }
}

/// Length of the run of positive counts that starts at the first element.
pub open spec fn leading_run(s: Seq<u32>) -> nat
    decreases s.len(),
{
    if s.len() == 0 || s[0] == 0 {
        0
    } else {
        1 + leading_run(s.drop_first())
    }
}

/// Length of the longest run of consecutive positive counts.
pub open spec fn longest_run(s: Seq<u32>) -> nat
    decreases s.len(),
{
    if s.len() == 0 {
        0
    } else {
        let rest = longest_run(s.drop_first());
        if leading_run(s) > rest {
            leading_run(s)
        } else {
            rest
        }
    }
}

proof fn lemma_trailing_run_all_positive_suffix(s: Seq<u32>, j: int)
    requires
        0 <= j <= s.len(),
        forall|i: int| j <= i < s.len() ==> s[i] > 0,
        j == 0 || s[j - 1] == 0,
    ensures
        trailing_run(s) == s.len() - j,
    decreases s.len(),
{
    if s.len() == j {
    } else {
        lemma_trailing_run_all_positive_suffix(s.drop_last(), j);
    }
}

/// The current streak (days with reviews up to and including the last day) and the
/// longest streak, over per-day review counts ordered oldest first.
pub fn compute_streaks(counts: &Vec<u32>) -> (streaks: (u32, u32))
    requires
        longest_run(counts@) <= u32::MAX,
    ensures
        streaks.0 == trailing_run(counts@),
        streaks.1 == longest_run(counts@),
{
    let mut current_streak: u32 = 0;
    let mut longest_streak: u32 = 0;
    let mut streak: u32 = 0;
    let mut past_first_zero = false;
    let n = counts.len();
    let mut k: usize = n;
    while k > 0
        invariant
            n == counts@.len(),
            k <= n,
            longest_run(counts@) <= u32::MAX,
            streak == leading_run(counts@.subrange(k as int, n as int)),
            longest_streak == longest_run(counts@.subrange(k as int, n as int)),
            !past_first_zero <==> (forall|i: int| k <= i < n ==> counts@[i] > 0),
            past_first_zero ==> current_streak == trailing_run(counts@),
        decreases k,
    {
        let ghost tail = counts@.subrange(k as int, n as int);
        let ghost next = counts@.subrange(k - 1, n as int);
        assert(next.drop_first() =~= tail);
        proof {
            lemma_longest_run_bounds(next);
            lemma_longest_run_monotone_suffix(counts@, k - 1);
        }
        let count = counts[k - 1];
        if count > 0 {
            streak = streak + 1;
            if streak > longest_streak {
                longest_streak = streak;
            }
        } else {
            if !past_first_zero {
                proof {
                    lemma_leading_run_all_positive(tail);
                    lemma_trailing_run_all_positive_suffix(counts@, k as int);
                }
                current_streak = streak;
                past_first_zero = true;
            }
            streak = 0;
        }
        k = k - 1;
    }
    if !past_first_zero {
        proof {
            assert(counts@.subrange(0, n as int) =~= counts@);
            lemma_leading_run_all_positive(counts@);
            lemma_trailing_run_all_positive_suffix(counts@, 0);
        }
        current_streak = streak;
    }
    assert(counts@.subrange(0, n as int) =~= counts@);
    (current_streak, longest_streak)
}

proof fn lemma_leading_run_all_positive(s: Seq<u32>)
    requires
        forall|i: int| 0 <= i < s.len() ==> s[i] > 0,
    ensures
        leading_run(s) == s.len(),
    decreases s.len(),
{
    if s.len() > 0 {
        lemma_leading_run_all_positive(s.drop_first());
    }
}

proof fn lemma_longest_run_bounds(s: Seq<u32>)
    ensures
        leading_run(s) <= longest_run(s),
        longest_run(s) <= s.len(),
    decreases s.len(),
{
    if s.len() > 0 {
        lemma_longest_run_bounds(s.drop_first());
        lemma_leading_run_le_len(s);
    }
}

proof fn lemma_leading_run_le_len(s: Seq<u32>)
    ensures
        leading_run(s) <= s.len(),
    decreases s.len(),
{
    if s.len() > 0 {
        lemma_leading_run_le_len(s.drop_first());
    }
}

/// The longest run of a sequence is at least that of any of its suffixes.
proof fn lemma_longest_run_monotone_suffix(s: Seq<u32>, k: int)
    requires
        0 <= k <= s.len(),
    ensures
        longest_run(s.subrange(k, s.len() as int)) <= longest_run(s),
    decreases k,
{
    if k > 0 {
        lemma_longest_run_monotone_suffix(s, k - 1);
        let t = s.subrange(k - 1, s.len() as int);
        assert(t.drop_first() =~= s.subrange(k, s.len() as int));
    } else {
        assert(s.subrange(0, s.len() as int) =~= s);
    }
}

/// The order in which review counts are sorted: ascending.
pub open spec fn count_order() -> spec_fn(u32, u32) -> bool {
    |a: u32, b: u32| a <= b
}

/// The review counts in ascending order.
pub open spec fn sorted_counts(counts: Seq<u32>) -> Seq<u32> {
    counts.sort_by(count_order())
}

/// Minimum, lower quartile, median, upper quartile and maximum of an ascending
/// sequence, picked at indices 0, n/4, n/2, 3n/4 and n-1; all zero when it is empty.
pub open spec fn quartile_picks(sorted: Seq<u32>) -> Seq<u32> {
    let n = sorted.len();
    if n == 0 {
        seq![0u32, 0u32, 0u32, 0u32, 0u32]
    } else {
        seq![
            sorted[0],
            sorted[(n / 4) as int],
            sorted[(n / 2) as int],
            sorted[(3 * n / 4) as int],
            sorted[n - 1],
        ]
    }
}

proof fn lemma_count_order_total()
    ensures
        vstd::relations::total_ordering(count_order()),
{
}

/// Sorts with std's `slice::sort`, documented to sort the slice in ascending order: the
/// values afterwards are those before, ascending.
#[verifier::external_body]
fn sort_ascending(values: &mut Vec<u32>)
    ensures
        final(values)@.to_multiset() == old(values)@.to_multiset(),
        vstd::relations::sorted_by(final(values)@, count_order()),
{
    values.sort();
}

/// Sorts review counts in ascending order.
pub fn sort_counts(counts: &Vec<u32>) -> (sorted: Vec<u32>)
    ensures
        sorted@ == sorted_counts(counts@),
{
    let mut out: Vec<u32> = Vec::new();
    let n = counts.len();
    let mut i: usize = 0;
    while i < n
        invariant
            n == counts@.len(),
            i <= n,
            out@ == counts@.subrange(0, i as int),
        decreases n - i,
    {
        out.push(counts[i]);
        i = i + 1;
    }
    assert(counts@.subrange(0, n as int) =~= counts@);
    sort_ascending(&mut out);
    proof {
        lemma_count_order_total();
        counts@.lemma_sort_by_ensures(count_order());
        vstd::seq_lib::lemma_sorted_unique(out@, sorted_counts(counts@), count_order());
    }
    out
}

/// Minimum, lower quartile, median, upper quartile and maximum of the review counts.
pub fn compute_quartiles(counts: &Vec<u32>) -> (quartiles: [u32; 5])
    ensures
        quartiles@ == quartile_picks(sorted_counts(counts@)),
{
    let sorted = sort_counts(counts);
    proof {
        lemma_count_order_total();
        counts@.lemma_sort_by_ensures(count_order());
        vstd::seq_lib::to_multiset_len(counts@);
        vstd::seq_lib::to_multiset_len(sorted@);
    }
    let n = sorted.len();
    if n == 0 {
        let q = [0u32, 0u32, 0u32, 0u32, 0u32];
        assert(q@ =~= quartile_picks(sorted@));
        q
    } else {
        // 3n/4, computed without forming 3n.
        let three_quarters = n / 4 * 3 + n % 4 * 3 / 4;
        assert(three_quarters == 3 * n / 4) by (nonlinear_arith)
            requires
                three_quarters == n / 4 * 3 + n % 4 * 3 / 4,
        ;
        let q = [sorted[0], sorted[n / 4], sorted[n / 2], sorted[three_quarters], sorted[n - 1]];
        assert(q@ =~= quartile_picks(sorted@));
        q
    }
}

/// Review statistics of a window of days, with their totals, streaks, best day and
/// quartiles.
#[derive(Debug, Clone)]
pub struct AnkiStats {
    pub deck: String,
    pub total: u32,
    pub today: u32,
    pub current_streak: u32,
    pub longest_streak: u32,
    pub high_score: u32,
    pub high_score_date: String,
    pub days: u32,
    pub daily_reviews: Vec<(String, u32, String)>,
    pub quartiles: [u32; 5],
}

/// The instant a day number is counted from: the next rollover, or Unix time 0 when chrono
/// does not represent it.
pub open spec fn day_base(next_day_at: i64) -> int {
    if timestamp_in_range(next_day_at as int) {
        next_day_at as int
    } else {
        0
    }
}

/// The instant `anki_day` days after the base, moved back by the rollover hour.
pub open spec fn day_instant(anki_day: i32, next_day_at: i64, rollover_hour: u32) -> int {
    day_base(next_day_at) + anki_day * SECS_PER_DAY - rollover_hour * SECS_PER_HOUR
}

/// Whether chrono computes the date of an Anki day without overflow.
pub open spec fn day_date_defined(anki_day: i32, next_day_at: i64, rollover_hour: u32) -> bool {
    &&& timestamp_in_range(day_base(next_day_at) + anki_day * SECS_PER_DAY)
    &&& timestamp_in_range(day_instant(anki_day, next_day_at, rollover_hour))
}

/// The date (day number) an Anki day stands for.
pub open spec fn day_date(anki_day: i32, next_day_at: i64, rollover_hour: u32) -> int {
    utc_day_of(day_instant(anki_day, next_day_at, rollover_hour))
}

/// The calendar date of an Anki day, counted from the next rollover.
pub fn anki_day_to_date(anki_day: i32, next_day_at: i64, rollover_hour: u32) -> (date: i32)
    requires
        day_date_defined(anki_day, next_day_at, rollover_hour),
    ensures
        date == day_date(anki_day, next_day_at, rollover_hour),
        crate::calendar::day_in_range(date as int),
{
    let rollover: i64 = match utc_day_of_timestamp(next_day_at) {
        Some(_) => next_day_at,
        None => 0,
    };
    let day_start: i64 = rollover + anki_day as i64 * SECS_PER_DAY;
    let instant: i64 = day_start - rollover_hour as i64 * SECS_PER_HOUR;
    match utc_day_of_timestamp(instant) {
        Some(day) => day,
        None => {
            proof {
                assert(false);
            }
            0
        },
    }
}

/// The query expression of a review's Anki day: seconds since the next rollover, divided
/// by a day, in SQLite's integer arithmetic.
pub open spec fn day_expression_text(table: Seq<char>, next_day_at: i64) -> Seq<char> {
    "CAST(("@ + table + "id / 1000 - "@ + signed_decimal_text(next_day_at as int)
        + ") / 86400 AS INTEGER)"@
}

/// The query that reads each review's Anki day, type and previous interval from
/// `cutoff_ms` on, limited to cards of the given decks when there are any.
pub open spec fn day_query_text(next_day_at: i64, cutoff_ms: i64, deck_ids: Option<Seq<i64>>) -> Seq<char> {
    match deck_ids {
        Some(ids) => "SELECT "@ + day_expression_text("r."@, next_day_at)
            + ", r.type, r.lastIvl FROM revlog r\n                 JOIN cards c ON c.id = r.cid\n                 WHERE r."@
            + revlog_filter_text(cutoff_ms) + " AND c.did IN ("@ + id_list_text(ids) + ")"@,
        None => "SELECT "@ + day_expression_text(Seq::empty(), next_day_at)
            + ", type, lastIvl FROM revlog WHERE "@ + revlog_filter_text(cutoff_ms),
    }
}

fn append_day_expression(out: &mut String, table: &str, next_day_at: i64)
    ensures
        final(out)@ == old(out)@ + day_expression_text(table@, next_day_at),
{
    out.append("CAST((");
    out.append(table);
    out.append("id / 1000 - ");
    append_signed_decimal(out, next_day_at);
    out.append(") / 86400 AS INTEGER)");
}

/// The text of the query that reads the review log with each review's Anki day.
pub fn day_query(next_day_at: i64, cutoff_ms: i64, deck_ids: Option<&[i64]>) -> (sql: String)
    ensures
        sql@ == day_query_text(
            next_day_at,
            cutoff_ms,
            match deck_ids {
                Some(ids) => Some(ids@),
                None => None,
            },
        ),
{
    let mut sql = String::new();
    sql.append("SELECT ");
    match deck_ids {
        Some(ids) => {
            append_day_expression(&mut sql, "r.", next_day_at);
            sql.append(
                ", r.type, r.lastIvl FROM revlog r\n                 JOIN cards c ON c.id = r.cid\n                 WHERE r.",
            );
            sql.append("type NOT IN (4, 5) AND id >= ");
            append_signed_decimal(&mut sql, cutoff_ms);
            proof {
                reveal_strlit("type NOT IN (4, 5) AND id >= ");
                reveal_strlit("type NOT IN (");
                reveal_strlit(", ");
                reveal_strlit(") AND id >= ");
                assert(signed_decimal_text(4) =~= seq!['4']);
                assert(signed_decimal_text(5) =~= seq!['5']);
            }
            sql.append(" AND c.did IN (");
            append_id_list(&mut sql, ids);
            sql.append(")");
        },
        None => {
            proof {
                reveal_strlit("");
            }
            append_day_expression(&mut sql, "", next_day_at);
            sql.append(", type, lastIvl FROM revlog WHERE ");
            sql.append("type NOT IN (4, 5) AND id >= ");
            append_signed_decimal(&mut sql, cutoff_ms);
            proof {
                reveal_strlit("type NOT IN (4, 5) AND id >= ");
                reveal_strlit("type NOT IN (");
                reveal_strlit(", ");
                reveal_strlit(") AND id >= ");
                assert(signed_decimal_text(4) =~= seq!['4']);
                assert(signed_decimal_text(5) =~= seq!['5']);
            }
        },
    }
    sql
}

/// Sum of the counts.
pub open spec fn count_sum(s: Seq<u32>) -> int
    decreases s.len(),
{
    if s.len() == 0 {
        0
    } else {
        count_sum(s.drop_last()) + s.last()
    }
}

/// Index of the best day: the last of the days with the highest count (`len > 0`).
pub open spec fn best_index(s: Seq<u32>) -> int
    decreases s.len(),
{
    if s.len() <= 1 {
        0
    } else {
        let earlier = best_index(s.drop_last());
        if s.last() >= s[earlier] {
            s.len() - 1
        } else {
            earlier
        }
    }
}

/// The totals of the statistics' rows.
pub open spec fn counts_of(daily_reviews: Seq<(String, u32, String)>) -> Seq<u32> {
    daily_reviews.map_values(|e: (String, u32, String)| e.1)
}

/// The day totals of the window, oldest first.
pub open spec fn window_totals(day_count: u32, rows: Seq<RevlogRow>) -> Seq<u32> {
    Seq::new(
        window_len(day_count),
        |i: int| tallied_reviews(rows, window_offset(day_count, i) as i32).spec_total() as u32,
    )
}

/// Whether the offsets of the window can be computed and chrono computes each one's date.
pub open spec fn day_window_defined(day_count: u32, next_day_at: i64, rollover_hour: u32) -> bool {
    &&& window_count(day_count) > i32::MIN + 1
    &&& forall|i: int|
        0 <= i < window_len(day_count) ==> #[trigger] day_date_defined(
            window_offset(day_count, i) as i32,
            next_day_at,
            rollover_hour,
        )
}

/// Whether every day total of the window, and their sum, fit in a `u32`.
pub open spec fn window_sum_fits(day_count: u32, rows: Seq<RevlogRow>) -> bool {
    &&& forall|i: int|
        0 <= i < window_len(day_count) ==> #[trigger] tallied_reviews(
            rows,
            window_offset(day_count, i) as i32,
        ).spec_total() <= u32::MAX
    &&& count_sum(window_totals(day_count, rows)) <= u32::MAX
}

proof fn lemma_count_sum_prefix(s: Seq<u32>, i: int)
    requires
        0 <= i <= s.len(),
    ensures
        count_sum(s.subrange(0, i)) <= count_sum(s),
    decreases s.len() - i,
{
    if i < s.len() {
        lemma_count_sum_prefix(s, i + 1);
        assert(s.subrange(0, i + 1).drop_last() =~= s.subrange(0, i));
    } else {
        assert(s.subrange(0, i) =~= s);
    }
}

fn sum_counts(counts: &Vec<u32>) -> (total: u32)
    requires
        count_sum(counts@) <= u32::MAX,
    ensures
        total == count_sum(counts@),
{
    let n = counts.len();
    let mut total: u32 = 0;
    let mut i: usize = 0;
    while i < n
        invariant
            n == counts@.len(),
            i <= n,
            count_sum(counts@) <= u32::MAX,
            total == count_sum(counts@.subrange(0, i as int)),
        decreases n - i,
    {
        proof {
            lemma_count_sum_prefix(counts@, i + 1);
            assert(counts@.subrange(0, i + 1).drop_last() =~= counts@.subrange(0, i as int));
        }
        total = total + counts[i];
        i = i + 1;
    }
    assert(counts@.subrange(0, n as int) =~= counts@);
    total
}

fn best_day_index(counts: &Vec<u32>) -> (best: usize)
    requires
        counts@.len() > 0,
    ensures
        best == best_index(counts@),
        best < counts@.len(),
{
    let n = counts.len();
    let mut best: usize = 0;
    let mut i: usize = 1;
    while i < n
        invariant
            n == counts@.len(),
            1 <= i <= n,
            best < i,
            best == best_index(counts@.subrange(0, i as int)),
        decreases n - i,
    {
        let ghost prefix = counts@.subrange(0, i as int);
        let ghost next = counts@.subrange(0, i + 1);
        assert(next.drop_last() =~= prefix);
        assert(prefix[best as int] == counts@[best as int]);
        if counts[i] >= counts[best] {
            best = i;
        }
        i = i + 1;
    }
    assert(counts@.subrange(0, n as int) =~= counts@);
    best
}

/// The statistics of a window of `day_count` days ending with the current Anki day, with
/// totals, streaks, best day and quartiles of the day totals.
pub open spec fn summary_matches(
    stats: AnkiStats,
    deck: Option<Seq<char>>,
    day_count: u32,
    next_day_at: i64,
    rollover_hour: u32,
    rows: Seq<RevlogRow>,
) -> bool {
    let counts = counts_of(stats.daily_reviews@);
    &&& stats.deck@ == deck_title(deck)
    &&& stats.days == day_count
    &&& stats.daily_reviews@.len() == window_len(day_count)
    &&& forall|i: int|
        0 <= i < stats.daily_reviews@.len() ==> {
            let offset = window_offset(day_count, i) as i32;
            is_daily_review(
                #[trigger] stats.daily_reviews@[i],
                day_date(offset, next_day_at, rollover_hour) as i32,
                tallied_reviews(rows, offset),
            )
        }
    &&& stats.total == count_sum(counts)
    &&& stats.today == if counts.len() > 0 {
        counts.last()
    } else {
        0
    }
    &&& if counts.len() > 0 {
        &&& stats.high_score == counts[best_index(counts)]
        &&& stats.high_score_date@ == stats.daily_reviews@[best_index(counts)].0@
    } else {
        &&& stats.high_score == 0
        &&& stats.high_score_date@ == Seq::<char>::empty()
    }
    &&& stats.current_streak == trailing_run(counts)
    &&& stats.longest_streak == longest_run(counts)
    &&& stats.quartiles@ == quartile_picks(sorted_counts(counts))
}

/// Assembles the statistics of a deck (or of all decks) for the window of `day_count` days
/// that ends with the current Anki day, from review-log rows whose day is counted from the
/// next rollover.
pub fn fetch_anki_stats(
    deck: Option<&str>,
    day_count: u32,
    next_day_at: i64,
    rollover_hour: u32,
    revlog_rows: &[RevlogRow],
) -> (stats: AnkiStats)
    requires
        tallies_fit(revlog_rows@),
        day_window_defined(day_count, next_day_at, rollover_hour),
        window_sum_fits(day_count, revlog_rows@),
    ensures
        summary_matches(
            stats,
            match deck {
                Some(d) => Some(d@),
                None => None,
            },
            day_count,
            next_day_at,
            rollover_hour,
            revlog_rows@,
        ),
{
    let day_map = aggregate_reviews_by_day(revlog_rows);
    let count: i32 = day_count as i32;
    let first: i32 = -count + 1;
    let mut daily_reviews: Vec<(String, u32, String)> = Vec::new();
    let mut counts: Vec<u32> = Vec::new();
    let mut offset: i32 = first;
    while offset <= 0
        invariant
            count == window_count(day_count),
            day_window_defined(day_count, next_day_at, rollover_hour),
            window_sum_fits(day_count, revlog_rows@),
            tallies_fit(revlog_rows@),
            first == 1 - count,
            first <= offset <= 1 || (first > 0 && offset == first),
            first <= 0 ==> daily_reviews@.len() == offset - first,
            first > 0 ==> daily_reviews@.len() == 0,
            counts@ == counts_of(daily_reviews@),
            forall|day: i32| #[trigger] day_map@.contains_key(day) <==> crate::anki::db::has_day(revlog_rows@, day),
            forall|day: i32| #[trigger] day_map@.contains_key(day) ==> crate::anki::db::is_tally_of(day_map@[day], revlog_rows@, day),
            forall|k: int|
                0 <= k < daily_reviews@.len() ==> {
                    let o = window_offset(day_count, k) as i32;
                    is_daily_review(
                        #[trigger] daily_reviews@[k],
                        day_date(o, next_day_at, rollover_hour) as i32,
                        tallied_reviews(revlog_rows@, o),
                    )
                },
        decreases 1 - offset,
    {
        let ghost i = offset - first;
        assert(window_offset(day_count, i) == offset);
        assert(day_date_defined(window_offset(day_count, i) as i32, next_day_at, rollover_hour));
        let date = anki_day_to_date(offset, next_day_at, rollover_hour);
        let reviews = match day_map.get(&offset) {
            Some(r) => *r,
            None => DayReviews::default(),
        };
        proof {
            if day_map@.contains_key(offset) {
            } else {
                crate::anki::db::lemma_tally_absent_day(revlog_rows@, offset, ReviewCategory::Learn);
                crate::anki::db::lemma_tally_absent_day(revlog_rows@, offset, ReviewCategory::Young);
                crate::anki::db::lemma_tally_absent_day(revlog_rows@, offset, ReviewCategory::Mature);
                crate::anki::db::lemma_tally_absent_day(revlog_rows@, offset, ReviewCategory::Relearn);
                crate::anki::db::lemma_tally_absent_day(revlog_rows@, offset, ReviewCategory::Filtered);
            }
            assert(reviews == tallied_reviews(revlog_rows@, offset));
            assert(tallied_reviews(revlog_rows@, window_offset(day_count, i) as i32).spec_total() <= u32::MAX);
        }
        let entry = DailyEntry { date, reviews };
        let total = entry.reviews.total();
        daily_reviews.push((entry.date_str(), total, entry.hover_label()));
        counts.push(total);
        proof {
            assert(counts@ =~= counts_of(daily_reviews@));
        }
        offset = offset + 1;
    }
    let n = counts.len();
    proof {
        assert(counts@ =~= window_totals(day_count, revlog_rows@));
        lemma_longest_run_bounds(counts@);
    }
    let total = sum_counts(&counts);
    let today = if n > 0 {
        counts[n - 1]
    } else {
        0
    };
    let (high_score_date, high_score) = if n > 0 {
        let best = best_day_index(&counts);
        (daily_reviews[best].0.clone(), counts[best])
    } else {
        (String::new(), 0)
    };
    let (current_streak, longest_streak) = compute_streaks(&counts);
    let quartiles = compute_quartiles(&counts);
    let title = match deck {
        Some(d) => if d.unicode_len() > 0 {
            String::from_str(d)
        } else {
            String::from_str("All Decks")
        },
        None => String::from_str("All Decks"),
    };
    AnkiStats {
        deck: title,
        total,
        today,
        current_streak,
        longest_streak,
        high_score,
        high_score_date,
        days: day_count,
        daily_reviews,
        quartiles,
    }
}

/// The current streak never exceeds the longest streak, nor the longest streak the number
/// of days.
pub proof fn lemma_current_streak_within_longest(counts: Seq<u32>)
    ensures
        trailing_run(counts) <= longest_run(counts) <= counts.len(),
    decreases counts.len(),
{
    lemma_longest_run_bounds(counts);
    if counts.len() > 0 && counts.last() > 0 {
        let n = counts.len() as int;
        let j = first_of_trailing_run(counts);
        lemma_first_of_trailing_run(counts);
        lemma_trailing_run_all_positive_suffix(counts, j);
        let suffix = counts.subrange(j, n);
        assert forall|i: int| 0 <= i < suffix.len() implies suffix[i] > 0 by {
            assert(suffix[i] == counts[j + i]);
        }
        lemma_leading_run_all_positive(suffix);
        lemma_longest_run_monotone_suffix(counts, j);
        lemma_longest_run_bounds(suffix);
    }
}

/// Two count sequences positive on the same days.
pub open spec fn same_positive_days(a: Seq<u32>, b: Seq<u32>) -> bool {
    &&& a.len() == b.len()
    &&& forall|i: int| 0 <= i < a.len() ==> (a[i] > 0) == (b[i] > 0)
}

proof fn lemma_leading_run_positive_days(a: Seq<u32>, b: Seq<u32>)
    requires
        same_positive_days(a, b),
    ensures
        leading_run(a) == leading_run(b),
        longest_run(a) == longest_run(b),
    decreases a.len(),
{
    if a.len() > 0 {
        assert((a[0] > 0) == (b[0] > 0));
        assert forall|i: int| 0 <= i < a.drop_first().len() implies (a.drop_first()[i] > 0) == (
        b.drop_first()[i] > 0) by {
            assert((a[i + 1] > 0) == (b[i + 1] > 0));
        }
        lemma_leading_run_positive_days(a.drop_first(), b.drop_first());
    }
}

proof fn lemma_trailing_run_positive_days(a: Seq<u32>, b: Seq<u32>)
    requires
        same_positive_days(a, b),
    ensures
        trailing_run(a) == trailing_run(b),
    decreases a.len(),
{
    if a.len() > 0 {
        assert((a.last() > 0) == (b.last() > 0));
        assert forall|i: int| 0 <= i < a.drop_last().len() implies (a.drop_last()[i] > 0) == (
        b.drop_last()[i] > 0) by {
            assert((a[i] > 0) == (b[i] > 0));
        }
        lemma_trailing_run_positive_days(a.drop_last(), b.drop_last());
    }
}

/// Only whether a day has reviews matters to the streaks: two count sequences positive on
/// the same days have the same current and longest streak.
pub proof fn lemma_streaks_depend_on_positive_days(a: Seq<u32>, b: Seq<u32>)
    requires
        same_positive_days(a, b),
    ensures
        trailing_run(a) == trailing_run(b),
        longest_run(a) == longest_run(b),
{
    lemma_trailing_run_positive_days(a, b);
    lemma_leading_run_positive_days(a, b);
}

/// Start of the run of positive counts that ends at the last element.
spec fn first_of_trailing_run(s: Seq<u32>) -> int
    decreases s.len(),
{
    if s.len() == 0 || s.last() == 0 {
        s.len() as int
    } else {
        first_of_trailing_run(s.drop_last())
    }
}

proof fn lemma_first_of_trailing_run(s: Seq<u32>)
    ensures
        0 <= first_of_trailing_run(s) <= s.len(),
        forall|i: int| first_of_trailing_run(s) <= i < s.len() ==> s[i] > 0,
        first_of_trailing_run(s) == 0 || s[first_of_trailing_run(s) - 1] == 0,
    decreases s.len(),
{
    if s.len() > 0 && s.last() != 0 {
        lemma_first_of_trailing_run(s.drop_last());
        let j = first_of_trailing_run(s.drop_last());
        assert forall|i: int| j <= i < s.len() implies s[i] > 0 by {
            if i < s.len() - 1 {
                assert(s.drop_last()[i] == s[i]);
            }
        }
        if j > 0 {
            assert(s.drop_last()[j - 1] == s[j - 1]);
        }
    }
}

/// The quartiles are in ascending order, the first is the smallest count and the last the
/// largest.
pub proof fn lemma_quartiles_ordered(counts: Seq<u32>)
    ensures
        ({
            let q = quartile_picks(sorted_counts(counts));
            &&& q.len() == 5
            &&& q[0] <= q[1] <= q[2] <= q[3] <= q[4]
            &&& forall|i: int| 0 <= i < counts.len() ==> q[0] <= #[trigger] counts[i] <= q[4]
        }),
{
    broadcast use vstd::seq_lib::group_to_multiset_ensures;

    lemma_count_order_total();
    counts.lemma_sort_by_ensures(count_order());
    let sorted = sorted_counts(counts);
    vstd::seq_lib::to_multiset_len(counts);
    vstd::seq_lib::to_multiset_len(sorted);
    let n = sorted.len();
    if n > 0 {
        assert((count_order())(sorted[0], sorted[(n / 4) as int]) || n / 4 == 0);
        assert((count_order())(sorted[(n / 4) as int], sorted[(n / 2) as int]) || n / 4 == n / 2);
        assert((count_order())(sorted[(n / 2) as int], sorted[(3 * n / 4) as int]) || n / 2 == 3 * n / 4);
        assert((count_order())(sorted[(3 * n / 4) as int], sorted[n - 1]) || 3 * n / 4 == n - 1);
        assert forall|i: int| 0 <= i < counts.len() implies sorted[0] <= #[trigger] counts[i] <= sorted[n - 1] by {
            assert(counts.to_multiset().count(counts[i]) > 0);
            assert(sorted.contains(counts[i]));
            let k = choose|k: int| 0 <= k < n && sorted[k] == counts[i];
            assert(k == 0 || (count_order())(sorted[0], sorted[k]));
            assert(k == n - 1 || (count_order())(sorted[k], sorted[n - 1]));
        }
    }
}

/// The quartiles depend only on which counts occur how often, not on their order.
pub proof fn lemma_quartiles_ignore_order(a: Seq<u32>, b: Seq<u32>)
    requires
        a.to_multiset() == b.to_multiset(),
    ensures
        quartile_picks(sorted_counts(a)) == quartile_picks(sorted_counts(b)),
{
    lemma_count_order_total();
    a.lemma_sort_by_ensures(count_order());
    b.lemma_sort_by_ensures(count_order());
    vstd::seq_lib::lemma_sorted_unique(sorted_counts(a), sorted_counts(b), count_order());
}

/// The best day has the highest count of the window, and no later day has as many.
pub proof fn lemma_best_day_is_highest(counts: Seq<u32>)
    requires
        counts.len() > 0,
    ensures
        0 <= best_index(counts) < counts.len(),
        forall|i: int| 0 <= i < counts.len() ==> #[trigger] counts[i] <= counts[best_index(counts)],
        forall|i: int| best_index(counts) < i < counts.len() ==> #[trigger] counts[i] < counts[best_index(counts)],
    decreases counts.len(),
{
    if counts.len() > 1 {
        let rest = counts.drop_last();
        lemma_best_day_is_highest(rest);
        assert forall|i: int| 0 <= i < rest.len() implies #[trigger] counts[i] == rest[i] by {}
    }
}

/// The total of the window is at least the count of any of its days.
pub proof fn lemma_total_bounds_each_day(counts: Seq<u32>, i: int)
    requires
        0 <= i < counts.len(),
    ensures
        counts[i] <= count_sum(counts),
    decreases counts.len(),
{
    if i < counts.len() - 1 {
        lemma_total_bounds_each_day(counts.drop_last(), i);
    } else {
        lemma_count_sum_nonnegative(counts.drop_last());
    }
}

proof fn lemma_count_sum_nonnegative(s: Seq<u32>)
    ensures
        count_sum(s) >= 0,
    decreases s.len(),
{
    if s.len() > 0 {
        lemma_count_sum_nonnegative(s.drop_last());
    }
}

/// Consecutive Anki days stand for consecutive calendar dates.
pub proof fn lemma_consecutive_days_consecutive_dates(anki_day: i32, next_day_at: i64, rollover_hour: u32)
    requires
        anki_day < i32::MAX,
    ensures
        day_date((anki_day + 1) as i32, next_day_at, rollover_hour) == day_date(
            anki_day,
            next_day_at,
            rollover_hour,
        ) + 1,
{
    let t = day_instant(anki_day, next_day_at, rollover_hour);
    assert(day_instant((anki_day + 1) as i32, next_day_at, rollover_hour) == t + 86400);
    assert((t + 86400) / 86400 == t / 86400 + 1) by (nonlinear_arith);
}

/// Whether the offsets of the window can be computed and chrono computes each one's date:
/// a check of the first and the last day suffices, the instants growing with the day.
pub fn day_window_is_defined(day_count: u32, next_day_at: i64, rollover_hour: u32) -> (defined: bool)
    ensures
        defined == day_window_defined(day_count, next_day_at, rollover_hour),
{
    let count: i32 = day_count as i32;
    if count <= i32::MIN + 1 {
        return false;
    }
    if count <= 0 {
        return true;
    }
    let base: i64 = match utc_day_of_timestamp(next_day_at) {
        Some(_) => next_day_at,
        None => 0,
    };
    let first: i32 = 1 - count;
    let first_start: i64 = base + first as i64 * SECS_PER_DAY;
    let first_instant: i64 = first_start - rollover_hour as i64 * SECS_PER_HOUR;
    let last_start: i64 = base;
    let last_instant: i64 = base - rollover_hour as i64 * SECS_PER_HOUR;
    let ok = utc_day_of_timestamp(first_start).is_some() && utc_day_of_timestamp(first_instant).is_some()
        && utc_day_of_timestamp(last_start).is_some() && utc_day_of_timestamp(last_instant).is_some();
    proof {
        let last = (count - 1) as int;
        assert(window_offset(day_count, 0) == first);
        assert(window_offset(day_count, last) == 0);
        if ok {
            assert forall|i: int| 0 <= i < window_len(day_count) implies #[trigger] day_date_defined(
                window_offset(day_count, i) as i32,
                next_day_at,
                rollover_hour,
            ) by {
                let o = window_offset(day_count, i) as i32;
                assert(first <= o <= 0);
                crate::calendar::lemma_in_range_between(first_start as int, day_base(next_day_at) + o * SECS_PER_DAY, last_start as int);
                crate::calendar::lemma_in_range_between(
                    first_instant as int,
                    day_instant(o, next_day_at, rollover_hour),
                    last_instant as int,
                );
            }
        } else {
            assert(!day_date_defined(window_offset(day_count, 0) as i32, next_day_at, rollover_hour)
                || !day_date_defined(window_offset(day_count, last) as i32, next_day_at, rollover_hour));
        }
    }
    ok
}


/// Number of rows of a tallied kind whose day lies in `[lo, hi)`.
spec fn rows_in_days(rows: Seq<RevlogRow>, lo: int, hi: int) -> nat
    decreases rows.len(),
{
    if rows.len() == 0 {
        0
    } else {
        let row = rows.last();
        rows_in_days(rows.drop_last(), lo, hi) + if lo <= row.0 < hi && category_of(row.1, row.2) is Some {
            1nat
        } else {
            0nat
        }
    }
}

proof fn lemma_rows_in_days_extend(rows: Seq<RevlogRow>, lo: int, hi: int)
    requires
        lo <= hi,
        i32::MIN <= hi <= i32::MAX,
    ensures
        rows_in_days(rows, lo, hi + 1) == rows_in_days(rows, lo, hi) + tallied_rows(rows, hi as i32),
        rows_in_days(rows, lo, hi) <= rows.len(),
    decreases rows.len(),
{
    if rows.len() > 0 {
        lemma_rows_in_days_extend(rows.drop_last(), lo, hi);
    }
}

proof fn lemma_window_prefix_sum(day_count: u32, rows: Seq<RevlogRow>, k: int)
    requires
        tallies_fit(rows),
        crate::anki::window_totals_fit(day_count, rows),
        window_count(day_count) > i32::MIN + 1,
        0 <= k <= window_len(day_count),
    ensures
        count_sum(window_totals(day_count, rows).subrange(0, k)) == rows_in_days(
            rows,
            1 - window_count(day_count),
            1 - window_count(day_count) + k,
        ),
    decreases k,
{
    let first = 1 - window_count(day_count);
    let totals = window_totals(day_count, rows);
    if k == 0 {
        assert(totals.subrange(0, 0) =~= Seq::<u32>::empty());
        assert(count_sum(Seq::<u32>::empty()) == 0);
        lemma_rows_in_days_empty(rows, first);
    } else {
        lemma_window_prefix_sum(day_count, rows, k - 1);
        assert(totals.subrange(0, k).drop_last() =~= totals.subrange(0, k - 1));
        let day = window_offset(day_count, k - 1) as i32;
        assert(day == first + k - 1);
        lemma_rows_in_days_extend(rows, first, first + k - 1);
        crate::anki::db::lemma_day_tallies_count_each_row_once(rows, day);
        assert(tally(rows, day, ReviewCategory::Learn) <= u32::MAX);
        assert(tally(rows, day, ReviewCategory::Young) <= u32::MAX);
        assert(tally(rows, day, ReviewCategory::Mature) <= u32::MAX);
        assert(tally(rows, day, ReviewCategory::Relearn) <= u32::MAX);
        assert(tally(rows, day, ReviewCategory::Filtered) <= u32::MAX);
        assert(tallied_reviews(rows, day).spec_total() == tallied_rows(rows, day));
        assert(tallied_rows(rows, day) <= u32::MAX);
        assert(totals[k - 1] == tallied_rows(rows, day));
        assert(totals.subrange(0, k).last() == totals[k - 1]);
        assert(count_sum(totals.subrange(0, k)) == count_sum(totals.subrange(0, k - 1)) + totals[k - 1]);
        assert(rows_in_days(rows, first, first + k) == rows_in_days(rows, first, first + k - 1)
            + tallied_rows(rows, (first + k - 1) as i32));
    }
}

proof fn lemma_rows_in_days_empty(rows: Seq<RevlogRow>, lo: int)
    ensures
        rows_in_days(rows, lo, lo) == 0,
    decreases rows.len(),
{
    if rows.len() > 0 {
        lemma_rows_in_days_empty(rows.drop_last(), lo);
    }
}

/// Whether the summary of the window can be counted in `u32`s: every tally of every day, the
/// total of each day of the window, and the window's total.
pub fn summary_rows_fit(day_count: u32, revlog_rows: &[RevlogRow]) -> (fit: bool)
    requires
        window_count(day_count) > i32::MIN + 1,
    ensures
        fit == (tallies_fit(revlog_rows@) && window_sum_fits(day_count, revlog_rows@)),
{
    if !crate::anki::revlog_window_fits(day_count, revlog_rows) {
        return false;
    }
    let rows = revlog_rows;
    let count: i32 = day_count as i32;
    if count <= 0 {
        assert(window_totals(day_count, rows@) =~= Seq::<u32>::empty());
        return true;
    }
    let first: i32 = 1 - count;
    let n = rows.len();
    let mut in_window: u64 = 0;
    let mut i: usize = 0;
    while i < n
        invariant
            n == rows@.len(),
            i <= n,
            in_window == rows_in_days(rows@.subrange(0, i as int), first as int, 1),
            in_window <= i,
        decreases n - i,
    {
        let (day, rev_type, last_ivl) = rows[i];
        assert(rows@.subrange(0, i + 1).drop_last() =~= rows@.subrange(0, i as int));
        if first <= day && day <= 0 && crate::anki::db::is_tallied_kind(rev_type, last_ivl) {
            in_window = in_window + 1;
        }
        i = i + 1;
    }
    let fit = in_window <= 4294967295u64;
    proof {
        let n_days = window_len(day_count);
        assert(rows@.subrange(0, n as int) =~= rows@);
        lemma_window_prefix_sum(day_count, rows@, n_days as int);
        assert(window_totals(day_count, rows@).subrange(0, n_days as int) =~= window_totals(day_count, rows@));
    }
    fit
}

/// A shorter window is the end of a longer one: with the same next rollover and rollover
/// hour, and review-log rows that tally alike on the days the windows share, the days of
/// `short_days` are the last `short_days` days of those of `long_days`, under the same deck
/// title.
pub proof fn lemma_shorter_summary_window_is_suffix(
    short: AnkiStats,
    long: AnkiStats,
    deck: Option<Seq<char>>,
    short_days: u32,
    long_days: u32,
    next_day_at: i64,
    rollover_hour: u32,
    short_rows: Seq<RevlogRow>,
    long_rows: Seq<RevlogRow>,
)
    requires
        short_days <= long_days <= i32::MAX,
        summary_matches(short, deck, short_days, next_day_at, rollover_hour, short_rows),
        summary_matches(long, deck, long_days, next_day_at, rollover_hour, long_rows),
        forall|day: i32|
            1 - short_days <= day <= 0 ==> #[trigger] tallied_reviews(short_rows, day)
                == tallied_reviews(long_rows, day),
    ensures
        short.deck@ == long.deck@,
        short.daily_reviews@.len() == short_days,
        long.daily_reviews@.len() == long_days,
        forall|i: int|
            0 <= i < short_days ==> crate::anki::same_daily_review(
                #[trigger] short.daily_reviews@[i],
                long.daily_reviews@[long_days - short_days + i],
            ),
{
    assert(window_count(short_days) == short_days);
    assert(window_count(long_days) == long_days);
    assert forall|i: int| 0 <= i < short_days implies crate::anki::same_daily_review(
        #[trigger] short.daily_reviews@[i],
        long.daily_reviews@[long_days - short_days + i],
    ) by {
        let k = long_days - short_days + i;
        assert(window_offset(short_days, i) == window_offset(long_days, k));
        let offset = window_offset(short_days, i) as i32;
        assert(tallied_reviews(short_rows, offset) == tallied_reviews(long_rows, offset));
        assert(is_daily_review(
            long.daily_reviews@[k],
            day_date(window_offset(long_days, k) as i32, next_day_at, rollover_hour) as i32,
            tallied_reviews(long_rows, window_offset(long_days, k) as i32),
        ));
    }
}

} // verus!
