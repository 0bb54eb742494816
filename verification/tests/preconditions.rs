use chrono::Datelike;
use glance_anki::anki::revlog_window_fits;
use glance_anki::anki::AnkiStats;
use glance_anki::api::build_month_labels;
use glance_anki::anki::scheduling::{next_rollover_is_computable, select_time_zone};
use glance_anki::anki::stats::window_is_defined;
use glance_anki::calendar::{month_of_day, weekday_of_day, MAX_DAY, MIN_DAY};
use glance_anki::color::hex_splits_char;
use glance_anki::summary::{day_window_is_defined, summary_rows_fit};

const NEXT_DAY_AT: i64 = 1710561600;

#[test]
fn colour_texts_that_would_split_a_character() {
    assert!(!hex_splits_char("#ff8000"));
    assert!(!hex_splits_char("\u{e9}1234"));
    assert!(hex_splits_char("a\u{20ac}bc"));
    assert!(hex_splits_char("ab\u{20ac}c"));
    // The first pair does not read, so the second split is never reached.
    assert!(!hex_splits_char("zz\u{20ac}c"));
}

#[test]
fn splitting_colour_texts_is_not_on_a_boundary() {
    let text = "ab\u{20ac}c";
    assert!(!text.is_char_boundary(4));
}

#[test]
fn windows_chrono_can_date() {
    assert!(window_is_defined(30, NEXT_DAY_AT, 4));
    assert!(window_is_defined(0, NEXT_DAY_AT, 4));
    assert!(!window_is_defined(2147483648, NEXT_DAY_AT, 4));
    assert!(!window_is_defined(2147483649, NEXT_DAY_AT, 4));
    assert!(window_is_defined(2147483650, NEXT_DAY_AT, 4));
    // Two billion days reach back past the earliest date chrono represents.
    assert!(!window_is_defined(2_000_000_000, NEXT_DAY_AT, 4));
    assert!(day_window_is_defined(30, NEXT_DAY_AT, 4));
    assert!(!day_window_is_defined(2_000_000_000, NEXT_DAY_AT, 4));
}

#[test]
fn row_counts_that_fit() {
    assert!(revlog_window_fits(30, &[(0, 0, 0)]));
    assert!(revlog_window_fits(0, &[]));
    // Rows outside the window, and rows of kinds that are not tallied, still fit.
    assert!(revlog_window_fits(2, &[(-40, 0, 0), (0, 4, 0), (0, 5, 0)]));
    assert!(summary_rows_fit(30, &[(0, 0, 0), (-1, 1, 30)]));
    assert!(summary_rows_fit(0, &[(0, 0, 0)]));
}

#[test]
fn rollovers_that_can_be_computed() {
    assert!(next_rollover_is_computable(0, Some(10)));
    assert!(next_rollover_is_computable(0, None));
    assert!(!next_rollover_is_computable(i64::MAX - 10, None));
    let last_secs: i64 = (MAX_DAY as i64 - 719163) * 86400 + 86399;
    assert!(!next_rollover_is_computable(last_secs, Some(last_secs - 5)));
}

#[test]
fn weekdays_and_months_agree_with_chrono() {
    for day in [MIN_DAY, -5, 0, 1, 7, 719163, 738960, 738961, MAX_DAY] {
        let date = chrono::NaiveDate::from_num_days_from_ce_opt(day).unwrap();
        assert_eq!(weekday_of_day(day), date.weekday().num_days_from_sunday(), "day {}", day);
        assert_eq!(month_of_day(day), date.month(), "day {}", day);
    }
}

#[test]
fn month_labels_agree_with_chrono() {
    let mut daily = Vec::new();
    for m in 1..=12u32 {
        daily.push((format!("2024-{:02}-01", m), 0u32, String::new()));
    }
    let stats = AnkiStats { deck: String::new(), days: 12, daily_reviews: daily };
    let labels = build_month_labels(&stats);
    assert_eq!(labels.len(), 12);
    for (i, (_, label)) in labels.iter().enumerate() {
        let date = chrono::NaiveDate::from_ymd_opt(2024, i as u32 + 1, 1).unwrap();
        assert_eq!(label, &date.format("%b").to_string());
    }
}

#[test]
fn time_zones_by_name() {
    assert_eq!(select_time_zone(Some("Europe/Paris")), Some(chrono_tz::Europe::Paris));
    assert_eq!(select_time_zone(Some("America/New_York")), Some(chrono_tz::America::New_York));
    assert_eq!(select_time_zone(Some("")), None);
    assert_eq!(select_time_zone(Some("Mars/Olympus_Mons")), None);
    assert_eq!(select_time_zone(None), None);
}
