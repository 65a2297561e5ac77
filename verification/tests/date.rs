use chrono::Datelike;
use fx::date::format_date;
use fx::date::now_utc;
use fx::date::parse_date;
use fx::date::today;
use fx::date::Date;
use fx::date::DateTime;
use fx::date::SqliteDateTime;

fn fmt(d: &Date) -> String {
    format_date(d).iter().collect()
}

fn parse(s: &str) -> Option<Date> {
    parse_date(&s.chars().collect())
}

#[test]
fn data_test_sqlite_datetime() {
    let dt = DateTime { date: Date { year: 2025, month: 1, day: 1 }, hour: 0, minute: 0, second: 0 };
    println!("before: {:?}", dt);
    let text = dt.to_sqlite();
    println!("s: {}", text);
    let dt2 = DateTime::from_sqlite(&text);
    println!("after: {:?}", dt2);
    assert_eq!(dt, dt2);
}

#[test]
fn sqlite_text_form() {
    let dt = DateTime {
        date: Date { year: 2026, month: 10, day: 11 },
        hour: 7,
        minute: 30,
        second: 59,
    };
    assert_eq!(dt.to_sqlite(), "2026-10-11 07:30:59");
    assert_eq!(DateTime::from_sqlite(" 2026-10-11 07:30:59\n"), dt);
}

#[test]
fn format_pads_fields() {
    assert_eq!(fmt(&Date { year: 2025, month: 1, day: 1 }), "2025-01-01");
    assert_eq!(fmt(&Date { year: 1, month: 12, day: 31 }), "0001-12-31");
    assert_eq!(fmt(&Date { year: 9999, month: 6, day: 7 }), "9999-06-07");
}

#[test]
fn parse_accepts_valid_dates() {
    assert_eq!(parse("2025-01-01"), Some(Date { year: 2025, month: 1, day: 1 }));
    assert_eq!(parse("2024-02-29"), Some(Date { year: 2024, month: 2, day: 29 }));
    assert_eq!(parse("2000-02-29"), Some(Date { year: 2000, month: 2, day: 29 }));
}

#[test]
fn parse_rejects_invalid_dates() {
    assert_eq!(parse("2025-02-29"), None);
    assert_eq!(parse("1900-02-29"), None);
    assert_eq!(parse("2025-13-01"), None);
    assert_eq!(parse("2025-00-10"), None);
    assert_eq!(parse("2025-04-31"), None);
    assert_eq!(parse("2025-04-00"), None);
    assert_eq!(parse("2025-4-01"), None);
    assert_eq!(parse("2025-04-01 "), None);
    assert_eq!(parse("not a date"), None);
    assert_eq!(parse(""), None);
}

#[test]
fn day_number_matches_chrono() {
    let cases = [
        (1970, 1, 1),
        (1999, 12, 31),
        (2000, 2, 29),
        (2000, 3, 1),
        (2024, 2, 29),
        (2025, 1, 1),
        (2026, 10, 11),
        (1, 1, 1),
        (9999, 12, 31),
    ];
    let epoch = chrono::NaiveDate::from_ymd_opt(1970, 1, 1).unwrap();
    for (y, m, d) in cases {
        let ours = Date { year: y, month: m, day: d }.day_number();
        let theirs = chrono::NaiveDate::from_ymd_opt(y, m, d).unwrap();
        assert_eq!(ours, (theirs - epoch).num_days(), "{y}-{m}-{d}");
    }
}

#[test]
fn today_matches_chrono() {
    let ours = today().unwrap();
    let theirs = chrono::Utc::now().date_naive();
    // The date may tick over between the two calls; accept either day.
    let ours_again = today().unwrap();
    let matches_first = ours.year == theirs.year() && ours.month == theirs.month() && ours.day
        == theirs.day();
    let matches_second = ours_again.year == theirs.year() && ours_again.month == theirs.month()
        && ours_again.day == theirs.day();
    assert!(matches_first || matches_second);
    assert!(now_utc().is_some());
}
