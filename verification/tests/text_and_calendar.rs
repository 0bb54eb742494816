use glance_anki::calendar::{
    format_ymd, month_of_day, parse_ymd, utc_day_of_timestamp, weekday_of_day, whole_days,
    MAX_DAY, MIN_DAY,
};
use glance_anki::text::{append_decimal, append_signed_decimal, has_prefix, parse_unsigned, same_text};

#[test]
fn decimal_text_of_numbers() {
    let mut s = String::new();
    append_decimal(&mut s, 0);
    s.push(' ');
    append_decimal(&mut s, 1234567890);
    s.push(' ');
    append_signed_decimal(&mut s, -42);
    s.push(' ');
    append_signed_decimal(&mut s, i64::MIN);
    assert_eq!(s, "0 1234567890 -42 -9223372036854775808");
}

#[test]
fn parse_unsigned_like_from_str() {
    assert_eq!(parse_unsigned("42", u32::MAX), Some(42));
    assert_eq!(parse_unsigned("+7", u32::MAX), Some(7));
    assert_eq!(parse_unsigned("007", u32::MAX), Some(7));
    assert_eq!(parse_unsigned("+", u32::MAX), None);
    assert_eq!(parse_unsigned("", u32::MAX), None);
    assert_eq!(parse_unsigned("-1", u32::MAX), None);
    assert_eq!(parse_unsigned("1 ", u32::MAX), None);
    assert_eq!(parse_unsigned("4294967295", u32::MAX), Some(4294967295));
    assert_eq!(parse_unsigned("4294967296", u32::MAX), None);
    assert_eq!(parse_unsigned("99999999999999999999", u32::MAX), None);
    assert_eq!(parse_unsigned("65535", 65535), Some(65535));
    assert_eq!(parse_unsigned("65536", 65535), None);
    assert_eq!("42".parse::<u32>().ok(), parse_unsigned("42", u32::MAX));
    assert_eq!("+".parse::<u32>().ok(), parse_unsigned("+", u32::MAX));
}

#[test]
fn decimal_text_reads_back() {
    for n in [0u64, 9, 10, 99, 100, 4294967295] {
        let mut s = String::new();
        append_decimal(&mut s, n);
        assert_eq!(parse_unsigned(&s, u32::MAX), Some(n as u32));
    }
}

#[test]
fn text_comparisons() {
    assert!(same_text("Japanese", "Japanese"));
    assert!(!same_text("Japanese", "Japan"));
    assert!(has_prefix("Japanese::Kanji", "Japanese::"));
    assert!(!has_prefix("Japan", "Japanese::"));
    assert!(has_prefix("x", ""));
}

#[test]
fn dates_format_and_parse() {
    assert_eq!(format_ymd(738960), "2024-03-15");
    assert_eq!(format_ymd(719163), "1970-01-01");
    assert_eq!(parse_ymd("2024-03-15"), Some(738960));
    assert_eq!(parse_ymd("2024-02-29"), Some(738945));
    assert_eq!(parse_ymd("2023-02-29"), None);
    assert_eq!(parse_ymd("not a date"), None);
    assert_eq!(month_of_day(738960), 3);
    assert_eq!(month_of_day(738916), 1);
    assert!(format_ymd(MIN_DAY).len() > 0);
    assert!(format_ymd(MAX_DAY).len() > 0);
}

#[test]
fn weekdays_from_sunday() {
    assert_eq!(weekday_of_day(738960), 5); // 2024-03-15, a Friday
    assert_eq!(weekday_of_day(719163), 4); // 1970-01-01, a Thursday
    assert_eq!(weekday_of_day(1), 1); // 0001-01-01, a Monday
    assert_eq!(weekday_of_day(7), 0);
}

#[test]
fn timestamps_to_days() {
    assert_eq!(whole_days(0), 0);
    assert_eq!(whole_days(86399), 0);
    assert_eq!(whole_days(-1), -1);
    assert_eq!(whole_days(-86400), -1);
    assert_eq!(whole_days(-86401), -2);
    assert_eq!(utc_day_of_timestamp(0), Some(719163));
    assert_eq!(utc_day_of_timestamp(1710475200), Some(738960));
    assert_eq!(utc_day_of_timestamp(-1), Some(719162));
    assert_eq!(utc_day_of_timestamp(i64::MAX), None);
    assert_eq!(utc_day_of_timestamp(i64::MIN), None);
}

#[test]
fn timestamp_range_matches_chrono() {
    let last_secs: i64 = (MAX_DAY as i64 - 719163) * 86400 + 86399;
    let first_secs: i64 = (MIN_DAY as i64 - 719163) * 86400;
    for secs in [last_secs, last_secs + 1, first_secs, first_secs - 1, 0, 1710475200] {
        let ours = utc_day_of_timestamp(secs);
        let chrono_day = chrono::DateTime::from_timestamp(secs, 0)
            .map(|d| chrono::Datelike::num_days_from_ce(&d.date_naive()));
        assert_eq!(ours, chrono_day, "secs {}", secs);
    }
}
