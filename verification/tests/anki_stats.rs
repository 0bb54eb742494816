use glance_anki::anki::db::{
    aggregate_reviews_by_day, deck_ids_from_text, read_rollover_hour, resolve_deck_ids,
    revlog_day_offset, revlog_query, rollover_from_col_conf, rollover_from_col_conf_text,
    rollover_from_config_bytes, rollover_from_config_value, DeckLookupError,
};
use glance_anki::anki::scheduling::{anki_day_offset_to_date, next_rollover_from};
use glance_anki::anki::stats::build_daily_entries;
use glance_anki::anki::types::{DailyEntry, DayReviews, ReviewType};
use glance_anki::anki::{fetch_anki_stats, revlog_window_start_ms};
use glance_anki::json::{JsonNumber, JsonValue};
use std::collections::HashMap;

// 2024-03-16 04:00:00 UTC: the next rollover when the day starts at 04:00 UTC.
const NEXT_DAY_AT: i64 = 1710561600;

fn reviews(learn: u32, young: u32, mature: u32, relearn: u32, filtered: u32) -> DayReviews {
    DayReviews { learn, young, mature, relearn, filtered }
}

#[test]
fn review_type_codes() {
    assert_eq!(ReviewType::Learn.code(), 0);
    assert_eq!(ReviewType::Review.code(), 1);
    assert_eq!(ReviewType::Relearn.code(), 2);
    assert_eq!(ReviewType::Filtered.code(), 3);
    assert_eq!(ReviewType::Rescheduled.code(), 4);
    assert_eq!(ReviewType::Manual.code(), 5);
}

#[test]
fn day_total_adds_all_kinds() {
    assert_eq!(reviews(1, 2, 3, 4, 5).total(), 15);
    assert_eq!(DayReviews::default().total(), 0);
}

#[test]
fn hover_labels() {
    let empty = DailyEntry { date: 738960, reviews: DayReviews::default() };
    assert_eq!(empty.date_str(), "2024-03-15");
    assert_eq!(empty.hover_label(), "2024-03-15: No reviews");
    let busy = DailyEntry { date: 738960, reviews: reviews(1, 2, 3, 4, 5) };
    assert_eq!(
        busy.hover_label(),
        "2024-03-15: 15 reviews (Learn 1, Young 2, Mature 3, Relearn 4, Filtered 5)"
    );
}

#[test]
fn aggregate_tallies_each_kind() {
    let rows = vec![
        (0, 0, 0),
        (0, 1, 20),
        (0, 1, 21),
        (0, 2, 5),
        (0, 3, 1),
        (0, 1, 100),
        (-1, 4, 0),
        (-2, 5, 0),
        (-2, 0, 0),
    ];
    let map = aggregate_reviews_by_day(&rows);
    assert_eq!(map.len(), 3);
    let today = map[&0];
    assert_eq!((today.learn, today.young, today.mature, today.relearn, today.filtered), (1, 1, 2, 1, 1));
    // Each row of a tallied kind is counted once.
    assert_eq!(today.total(), 6);
    let yesterday = map[&-1];
    assert_eq!(yesterday.total(), 0);
    assert_eq!(map[&-2].learn, 1);
    assert_eq!(map[&-2].total(), 1);
}

#[test]
fn day_offsets_of_reviews() {
    // 2024-03-15 10:00 UTC, during the current day.
    assert_eq!(revlog_day_offset(1710496800 * 1000, NEXT_DAY_AT), 0);
    // The current day starts at 2024-03-15 04:00 UTC.
    assert_eq!(revlog_day_offset(1710475200 * 1000, NEXT_DAY_AT), 0);
    assert_eq!(revlog_day_offset(1710475199 * 1000 + 999, NEXT_DAY_AT), -1);
    assert_eq!(revlog_day_offset(NEXT_DAY_AT * 1000 - 1, NEXT_DAY_AT), 0);
    assert_eq!(revlog_day_offset((1710475200 - 3 * 86400) * 1000, NEXT_DAY_AT), -3);
    assert_eq!(revlog_day_offset(-1500, 86400), -1);
}

#[test]
fn review_log_query_text() {
    assert_eq!(
        revlog_query(1000, None),
        "SELECT id, type, lastIvl FROM revlog WHERE type NOT IN (4, 5) AND id >= 1000"
    );
    let ids = [3i64, -4, 5];
    assert_eq!(
        revlog_query(-5, Some(&ids[..])),
        "SELECT r.id, r.type, r.lastIvl FROM revlog r\n                 JOIN cards c ON c.id = r.cid\n                 WHERE r.type NOT IN (4, 5) AND id >= -5 AND c.did IN (3,-4,5)"
    );
}

#[test]
fn window_start() {
    assert_eq!(revlog_window_start_ms(NEXT_DAY_AT, 30), (NEXT_DAY_AT - 31 * 86400) * 1000);
}

fn object(members: Vec<(&str, JsonValue)>) -> JsonValue {
    JsonValue::Object(members.into_iter().map(|(k, v)| (k.to_string(), v)).collect())
}

fn deck(id: JsonValue, name: JsonValue) -> JsonValue {
    object(vec![("id", id), ("name", name)])
}

fn json_int(n: u64) -> JsonValue {
    JsonValue::Number(JsonNumber::PosInt(n))
}

fn text(s: &str) -> JsonValue {
    JsonValue::String(s.to_string())
}

#[test]
fn rollover_hours() {
    assert_eq!(rollover_from_config_value(&json_int(6)), Some(6));
    assert_eq!(rollover_from_config_value(&json_int(4294967297)), Some(1));
    assert_eq!(rollover_from_config_value(&JsonValue::Number(JsonNumber::NegInt(-3))), None);
    assert_eq!(rollover_from_config_value(&text("6")), None);
    assert_eq!(rollover_from_col_conf(&object(vec![("rollover", json_int(2))])), Some(2));
    assert_eq!(rollover_from_col_conf(&object(vec![("other", json_int(2))])), None);
    assert_eq!(rollover_from_col_conf(&json_int(2)), None);
    assert_eq!(read_rollover_hour(Some(6), Some(2)), 6);
    assert_eq!(read_rollover_hour(None, Some(2)), 2);
    assert_eq!(read_rollover_hour(None, None), 4);
}

#[test]
fn decks_and_sub_decks() {
    let decks = object(vec![
        ("1", deck(json_int(1), text("Japanese"))),
        ("2", deck(json_int(2), text("Japanese::Kanji"))),
        ("3", deck(json_int(3), text("Japan"))),
        ("4", deck(json_int(4), text("Other::Japanese"))),
        ("5", deck(JsonValue::Null, text("Japanese::Vocab"))),
        ("6", deck(JsonValue::Number(JsonNumber::NegInt(-6)), text("Japanese::Grammar"))),
        ("7", deck(json_int(7), json_int(7))),
    ]);
    assert_eq!(resolve_deck_ids(&decks, "Japanese").unwrap(), vec![1, 2, -6]);
    assert_eq!(resolve_deck_ids(&decks, "Japan").unwrap(), vec![3]);
    assert!(matches!(resolve_deck_ids(&decks, "Spanish"), Err(DeckLookupError::NotFound)));
    assert!(matches!(resolve_deck_ids(&json_int(1), "Japanese"), Err(DeckLookupError::NotFound)));
    // A deck whose name is not a string has the empty name.
    assert_eq!(resolve_deck_ids(&decks, "").unwrap(), vec![7]);
}

#[test]
fn deck_ids_read_from_the_decks_text() {
    let decks_json = r#"{
        "1": {"id": 1, "name": "Default"},
        "1700000000001": {"id": 1700000000001, "name": "Japanese"},
        "1700000000002": {"id": 1700000000002, "name": "Japanese::Kanji"},
        "1700000000003": {"id": 1700000000003, "name": "Japanese::Kanji::N5"},
        "1700000000004": {"id": 1700000000004, "name": "Japanese Extra"}
    }"#;
    assert_eq!(
        deck_ids_from_text(decks_json, "Japanese").unwrap(),
        vec![1700000000001, 1700000000002, 1700000000003]
    );
    assert_eq!(deck_ids_from_text(decks_json, "Japanese::Kanji").unwrap(), vec![1700000000002, 1700000000003]);
    assert_eq!(deck_ids_from_text(decks_json, "Default").unwrap(), vec![1]);
    assert!(matches!(deck_ids_from_text(decks_json, "Spanish"), Err(DeckLookupError::NotFound)));
    assert!(matches!(deck_ids_from_text("[1, 2]", "Japanese"), Err(DeckLookupError::NotFound)));
    assert!(matches!(deck_ids_from_text("{not json", "Japanese"), Err(DeckLookupError::InvalidJson(_))));
    assert!(matches!(deck_ids_from_text("", "Japanese"), Err(DeckLookupError::InvalidJson(_))));
}

#[test]
fn rollover_read_from_stored_json() {
    assert_eq!(rollover_from_config_bytes(b"6"), Some(6));
    assert_eq!(rollover_from_config_bytes(b" 0 "), Some(0));
    assert_eq!(rollover_from_config_bytes(b"\"6\""), None);
    assert_eq!(rollover_from_config_bytes(b"-1"), None);
    assert_eq!(rollover_from_config_bytes(b"x"), None);
    assert_eq!(rollover_from_config_bytes(b""), None);
    assert_eq!(rollover_from_col_conf_text(r#"{"rollover": 2, "other": 9}"#), Some(2));
    assert_eq!(rollover_from_col_conf_text(r#"{"other": 9}"#), None);
    assert_eq!(rollover_from_col_conf_text(r#"{"rollover": "2"}"#), None);
    assert_eq!(rollover_from_col_conf_text(""), None);
    assert_eq!(rollover_from_col_conf_text("not json"), None);
}

#[test]
fn next_rollover() {
    assert_eq!(next_rollover_from(100, Some(200)), 200);
    assert_eq!(next_rollover_from(200, Some(200)), 200 + 86400);
    assert_eq!(next_rollover_from(300, Some(200)), 200 + 86400);
    assert_eq!(next_rollover_from(300, None), 300 + 86400);
}

#[test]
fn dates_of_day_offsets() {
    assert_eq!(anki_day_offset_to_date(0, NEXT_DAY_AT, 4), 738960);
    assert_eq!(anki_day_offset_to_date(-1, NEXT_DAY_AT, 4), 738959);
    assert_eq!(anki_day_offset_to_date(-15, NEXT_DAY_AT, 4), 738945);
    // A later rollover hour moves the instant back past midnight.
    assert_eq!(anki_day_offset_to_date(0, NEXT_DAY_AT, 5), 738959);
    // A rollover outside chrono's range counts from Unix time 0.
    assert_eq!(anki_day_offset_to_date(0, i64::MAX, 0), 719163);
}

#[test]
fn window_of_daily_entries() {
    let mut day_map = HashMap::new();
    day_map.insert(0, reviews(1, 0, 0, 0, 0));
    day_map.insert(-2, reviews(0, 2, 0, 0, 0));
    day_map.insert(-9, reviews(0, 0, 9, 0, 0));
    let entries = build_daily_entries(3, &day_map, NEXT_DAY_AT, 4);
    assert_eq!(entries.len(), 3);
    assert_eq!(entries[0].date, 738958);
    assert_eq!(entries[1].date, 738959);
    assert_eq!(entries[2].date, 738960);
    assert_eq!(entries[0].reviews.young, 2);
    assert_eq!(entries[1].reviews.total(), 0);
    assert_eq!(entries[2].reviews.learn, 1);
    assert_eq!(build_daily_entries(0, &day_map, NEXT_DAY_AT, 4).len(), 0);
    // A count past i32::MAX wraps negative: no days.
    assert_eq!(build_daily_entries(u32::MAX, &day_map, NEXT_DAY_AT, 4).len(), 0);
}

#[test]
fn stats_of_a_window() {
    let rows = vec![(0, 0, 0), (0, 1, 30), (-1, 2, 3), (-5, 1, 1)];
    let stats = fetch_anki_stats(Some("Japanese"), 3, NEXT_DAY_AT, 4, &rows);
    assert_eq!(stats.deck, "Japanese");
    assert_eq!(stats.days, 3);
    assert_eq!(
        stats.daily_reviews,
        vec![
            ("2024-03-13".to_string(), 0, "2024-03-13: No reviews".to_string()),
            (
                "2024-03-14".to_string(),
                1,
                "2024-03-14: 1 reviews (Learn 0, Young 0, Mature 0, Relearn 1, Filtered 0)".to_string()
            ),
            (
                "2024-03-15".to_string(),
                2,
                "2024-03-15: 2 reviews (Learn 1, Young 0, Mature 1, Relearn 0, Filtered 0)".to_string()
            ),
        ]
    );
    assert_eq!(fetch_anki_stats(None, 1, NEXT_DAY_AT, 4, &rows).deck, "All Decks");
    assert_eq!(fetch_anki_stats(Some(""), 1, NEXT_DAY_AT, 4, &rows).deck, "All Decks");
}

fn tallies(map: &HashMap<i32, DayReviews>, day: i32) -> (u32, u32, u32, u32, u32) {
    let r = map.get(&day).cloned().unwrap_or_default();
    (r.learn, r.young, r.mature, r.relearn, r.filtered)
}

#[test]
fn aggregation_adds_over_concatenation_and_ignores_order() {
    let a = vec![(0, 0, 0), (0, 1, 30), (-1, 2, 0), (-3, 4, 0)];
    let b = vec![(0, 0, 0), (-1, 1, 2), (-2, 3, 0)];
    let joined: Vec<_> = a.iter().chain(b.iter()).cloned().collect();
    let (ma, mb, mj) = (aggregate_reviews_by_day(&a), aggregate_reviews_by_day(&b), aggregate_reviews_by_day(&joined));
    for day in -4..=1 {
        let (x, y, z) = (tallies(&ma, day), tallies(&mb, day), tallies(&mj, day));
        assert_eq!(z, (x.0 + y.0, x.1 + y.1, x.2 + y.2, x.3 + y.3, x.4 + y.4));
        assert_eq!(mj.contains_key(&day), ma.contains_key(&day) || mb.contains_key(&day));
    }
    let mut reversed = joined.clone();
    reversed.reverse();
    let mr = aggregate_reviews_by_day(&reversed);
    assert_eq!(mr.len(), mj.len());
    for day in -4..=1 {
        assert_eq!(tallies(&mr, day), tallies(&mj, day));
    }
}

#[test]
fn shorter_window_is_end_of_longer() {
    let rows = vec![(0, 0, 0), (-1, 1, 30), (-4, 2, 0), (-6, 3, 0)];
    let short = fetch_anki_stats(Some("D"), 3, NEXT_DAY_AT, 4, &rows);
    let long = fetch_anki_stats(Some("D"), 7, NEXT_DAY_AT, 4, &rows);
    assert_eq!(short.deck, long.deck);
    assert_eq!(short.daily_reviews[..], long.daily_reviews[4..]);
}
