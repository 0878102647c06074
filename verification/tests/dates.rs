//! Dates and their labels.

use rustle::dates::{
    day_label_on, day_of, long_label, relative_label_on, sort_key, time_label, to_iso, year_of, Day,
    DayLabel, RelativeLabel,
};

#[test]
fn converts_rfc822_to_iso() {
    assert_eq!(
        to_iso("Wed, 16 Jul 2026 10:00:00 +0000"),
        "2026-07-16T10:00:00Z"
    );
    assert_eq!(to_iso("not a date"), "not a date");
}

fn stamp(y: i32, m: u32, d: u32, minute: u32) -> String {
    chrono::TimeZone::with_ymd_and_hms(&chrono::Local, y, m, d, 10, minute, 0)
        .unwrap()
        .to_rfc3339()
}

#[test]
fn day_labels() {
    let today = Day {
        year: 2026,
        month: 8,
        day: 26,
    };
    let stamp = |y: i32, m: u32, d: u32| stamp(y, m, d, 5);
    assert_eq!(day_label_on(&stamp(2026, 8, 26), today), DayLabel::Today);
    assert_eq!(
        day_label_on(&stamp(2026, 8, 25), today),
        DayLabel::Yesterday
    );
    assert_eq!(
        day_label_on(&stamp(2026, 8, 19), today),
        DayLabel::Date {
            weekday: "Wednesday".into(),
            month: "August".into(),
            day: 19,
            year: None,
        }
    );
    assert_eq!(
        day_label_on(&stamp(2025, 12, 31), today),
        DayLabel::Date {
            weekday: "Wednesday".into(),
            month: "December".into(),
            day: 31,
            year: Some(2025),
        }
    );
    assert_eq!(
        day_label_on("garbage", today),
        DayLabel::Raw("garbage".into())
    );
    assert_eq!(time_label(&stamp(2026, 8, 26)), "10:05");
    assert_eq!(time_label("garbage"), "garbage");
    assert_eq!(
        day_of(&stamp(2026, 8, 19)),
        Some(Day {
            year: 2026,
            month: 8,
            day: 19
        })
    );
    assert_eq!(day_of("garbage"), None);
}

#[test]
fn labels_are_relative() {
    let today = Day {
        year: 2026,
        month: 7,
        day: 20,
    };
    let stamp = |day: u32| stamp(2026, 7, day, 0);
    assert_eq!(
        relative_label_on(&stamp(20), today),
        RelativeLabel::Today("10:00".into())
    );
    assert_eq!(
        relative_label_on(&stamp(19), today),
        RelativeLabel::Yesterday
    );
    assert!(matches!(
        relative_label_on(&stamp(16), today),
        RelativeLabel::Weekday(_)
    ));
    assert_eq!(
        relative_label_on(&stamp(1), today),
        RelativeLabel::Date("Jul 01".into())
    );
    assert_eq!(
        relative_label_on("garbage", today),
        RelativeLabel::Raw("garbage".into())
    );
}

#[test]
fn keys_order_by_moment_and_not_by_text() {
    assert_eq!(sort_key("1970-01-01T00:00:10Z"), 10);
    assert_eq!(sort_key("1970-01-01T01:00:10+01:00"), 10);
    assert_eq!(sort_key("Thu, 01 Jan 1970 00:00:10 +0000"), 10);
    assert_eq!(sort_key("garbage"), i64::MIN);
    assert_eq!(year_of("garbage"), None);
    assert_eq!(year_of(&stamp(2026, 8, 19, 5)), Some(2026));
    assert_eq!(long_label("garbage"), "garbage");
    assert_eq!(
        long_label(&stamp(2026, 7, 16, 0)),
        "Jul 16, 2026 10:00".to_string()
    );
}

#[test]
fn days_are_counted_across_months_and_leap_years() {
    let day = |year: i32, month: u32, day: u32| Day { year, month, day };
    assert_eq!(day(2024, 3, 1).days_since(day(2024, 2, 28)), 2);
    assert_eq!(day(2023, 3, 1).days_since(day(2023, 2, 28)), 1);
    assert_eq!(day(2026, 1, 1).days_since(day(2025, 12, 31)), 1);
    assert_eq!(day(2000, 3, 1).days_since(day(1900, 3, 1)), 36525 - 1 + 1);
}
