use glance_anki::summary::{
    anki_day_to_date, compute_quartiles, compute_streaks, day_query, fetch_anki_stats, sort_counts,
};

// 2024-03-16 04:00:00 UTC.
const NEXT_DAY_AT: i64 = 1710561600;

#[test]
fn streaks() {
    assert_eq!(compute_streaks(&vec![]), (0, 0));
    assert_eq!(compute_streaks(&vec![1, 0, 2, 3]), (2, 2));
    assert_eq!(compute_streaks(&vec![1, 1, 1]), (3, 3));
    assert_eq!(compute_streaks(&vec![0, 0]), (0, 0));
    assert_eq!(compute_streaks(&vec![2, 2, 2, 0, 1]), (1, 3));
    assert_eq!(compute_streaks(&vec![5, 0]), (0, 1));
}

#[test]
fn current_streak_within_longest() {
    for counts in [vec![3, 0, 1, 1, 1, 0, 4, 4], vec![0, 1, 2, 0], vec![9]] {
        let (current, longest) = compute_streaks(&counts);
        assert!(current <= longest);
        assert!(longest as usize <= counts.len());
    }
}

#[test]
fn streaks_depend_on_positive_days_only() {
    let counts = vec![3, 0, 17, 1, 250, 0, 4, 9];
    let marks: Vec<u32> = counts.iter().map(|&c| (c > 0) as u32).collect();
    assert_eq!(compute_streaks(&counts), compute_streaks(&marks));
    assert_eq!(compute_streaks(&counts), (2, 3));
}

#[test]
fn sorting_counts() {
    assert_eq!(sort_counts(&vec![5, 1, 3, 1, 4]), vec![1, 1, 3, 4, 5]);
    assert_eq!(sort_counts(&vec![]), Vec::<u32>::new());
}

#[test]
fn quartiles() {
    assert_eq!(compute_quartiles(&vec![]), [0, 0, 0, 0, 0]);
    assert_eq!(compute_quartiles(&vec![7]), [7, 7, 7, 7, 7]);
    assert_eq!(compute_quartiles(&vec![5, 1, 3, 2, 4]), [1, 2, 3, 4, 5]);
    // n = 8: indices 0, 2, 4, 6, 7.
    assert_eq!(compute_quartiles(&vec![80, 10, 70, 20, 60, 30, 50, 40]), [10, 30, 50, 70, 80]);
    // n = 3: indices 0, 0, 1, 2, 2.
    assert_eq!(compute_quartiles(&vec![3, 1, 2]), [1, 1, 2, 3, 3]);
}

#[test]
fn quartiles_ignore_order() {
    let a = compute_quartiles(&vec![4, 8, 15, 16, 23, 42]);
    let b = compute_quartiles(&vec![42, 23, 16, 15, 8, 4]);
    assert_eq!(a, b);
    assert!(a[0] <= a[1] && a[1] <= a[2] && a[2] <= a[3] && a[3] <= a[4]);
}

#[test]
fn anki_days_to_dates() {
    // Day 0 counts from the next rollover, moved back by the rollover hour.
    assert_eq!(anki_day_to_date(0, NEXT_DAY_AT, 4), 738961);
    assert_eq!(anki_day_to_date(-1, NEXT_DAY_AT, 4), 738960);
    assert_eq!(anki_day_to_date(-1, NEXT_DAY_AT, 5), 738959);
    assert_eq!(anki_day_to_date(-2, NEXT_DAY_AT, 4) + 1, anki_day_to_date(-1, NEXT_DAY_AT, 4));
}

#[test]
fn day_query_text() {
    assert_eq!(
        day_query(100, 2000, None),
        "SELECT CAST((id / 1000 - 100) / 86400 AS INTEGER), type, lastIvl FROM revlog WHERE type NOT IN (4, 5) AND id >= 2000"
    );
    let ids = [1i64, 2];
    assert_eq!(
        day_query(-100, 2000, Some(&ids[..])),
        "SELECT CAST((r.id / 1000 - -100) / 86400 AS INTEGER), r.type, r.lastIvl FROM revlog r\n                 JOIN cards c ON c.id = r.cid\n                 WHERE r.type NOT IN (4, 5) AND id >= 2000 AND c.did IN (1,2)"
    );
}

#[test]
fn summary_of_a_window() {
    // Days -3..=0: totals 2, 0, 2, 1.
    let rows = vec![(-3, 0, 0), (-3, 1, 50), (-1, 2, 0), (-1, 3, 0), (0, 1, 1), (-7, 0, 0), (0, 4, 0)];
    let stats = fetch_anki_stats(None, 4, NEXT_DAY_AT, 4, &rows);
    assert_eq!(stats.deck, "All Decks");
    assert_eq!(stats.days, 4);
    let counts: Vec<u32> = stats.daily_reviews.iter().map(|(_, c, _)| *c).collect();
    assert_eq!(counts, vec![2, 0, 2, 1]);
    assert_eq!(stats.daily_reviews[0].0, "2024-03-13");
    assert_eq!(stats.daily_reviews[3].0, "2024-03-16");
    assert_eq!(stats.total, 5);
    assert_eq!(stats.today, 1);
    // The last of the best days.
    assert_eq!(stats.high_score, 2);
    assert_eq!(stats.high_score_date, "2024-03-15");
    assert_eq!(stats.current_streak, 2);
    assert_eq!(stats.longest_streak, 2);
    assert_eq!(stats.quartiles, [0, 1, 2, 2, 2]);
}

#[test]
fn summary_of_no_days() {
    let stats = fetch_anki_stats(Some("Deck"), 0, NEXT_DAY_AT, 4, &[]);
    assert_eq!(stats.deck, "Deck");
    assert_eq!(stats.daily_reviews.len(), 0);
    assert_eq!(stats.total, 0);
    assert_eq!(stats.today, 0);
    assert_eq!(stats.high_score, 0);
    assert_eq!(stats.high_score_date, "");
    assert_eq!(stats.quartiles, [0, 0, 0, 0, 0]);
}

#[test]
fn shorter_summary_window_is_end_of_longer() {
    let rows = vec![(0, 0, 0), (-1, 1, 30), (-4, 2, 0)];
    let short = fetch_anki_stats(None, 2, NEXT_DAY_AT, 4, &rows);
    let long = fetch_anki_stats(None, 5, NEXT_DAY_AT, 4, &rows);
    assert_eq!(short.deck, long.deck);
    assert_eq!(short.daily_reviews[..], long.daily_reviews[3..]);
}
