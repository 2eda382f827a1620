use journalr::date::Date;

#[test]
fn parse_format_roundtrip() {
    let samples = [
        (1u16, 1u8, 1u8),
        (2024, 1, 1),
        (2024, 2, 29),
        (2023, 2, 28),
        (1999, 12, 31),
        (9999, 12, 31),
        (1600, 2, 29),
        (1900, 2, 28),
    ];
    for (y, m, d) in samples {
        let date = Date::from_ymd(y, m, d).unwrap();
        let text = date.format();
        let back = Date::parse(text.as_str()).unwrap();
        assert_eq!(back, date);
    }
}

#[test]
fn format_is_canonical() {
    let d = Date::from_ymd(2024, 1, 1).unwrap();
    assert_eq!(d.format(), "01-01-2024");
    let d = Date::from_ymd(987, 12, 3).unwrap();
    assert_eq!(d.format(), "03-12-0987");
}

#[test]
fn friendly_format_long_form() {
    let d = Date::from_ymd(2024, 1, 1).unwrap();
    assert_eq!(d.friendly_format(), "01 January, 2024");
    let d = Date::from_ymd(1987, 10, 9).unwrap();
    assert_eq!(d.friendly_format(), "09 October, 1987");
}

#[test]
fn parse_rejects_non_strict_forms() {
    assert!(Date::parse("1-1-2024").is_err());
    assert!(Date::parse("2024-01-01").is_err());
    assert!(Date::parse("01/01/2024").is_err());
    assert!(Date::parse("01-01-24").is_err());
    assert!(Date::parse("01-01-2024 ").is_err());
    assert!(Date::parse(" 01-01-2024").is_err());
    assert!(Date::parse("").is_err());
}

#[test]
fn parse_rejects_invalid_days() {
    assert!(Date::parse("00-01-2024").is_err());
    assert!(Date::parse("32-01-2024").is_err());
    assert!(Date::parse("29-02-2023").is_err());
    assert!(Date::parse("30-02-2024").is_err());
    assert!(Date::parse("31-04-2024").is_err());
    assert!(Date::parse("01-00-2024").is_err());
    assert!(Date::parse("01-13-2024").is_err());
    assert!(Date::parse("01-01-0000").is_err());
}

#[test]
fn parse_accepts_leap_days() {
    assert!(Date::parse("29-02-2024").is_ok());
    assert!(Date::parse("29-02-2000").is_ok());
    assert!(Date::parse("29-02-1900").is_err());
}

#[test]
fn day_arithmetic_steps() {
    let d = Date::from_ymd(2024, 2, 28).unwrap();
    assert_eq!(d.add_days(1), Date::from_ymd(2024, 2, 29).unwrap());
    assert_eq!(d.add_days(2), Date::from_ymd(2024, 3, 1).unwrap());
    let d = Date::from_ymd(2023, 12, 31).unwrap();
    assert_eq!(d.add_days(1), Date::from_ymd(2024, 1, 1).unwrap());
    let d = Date::from_ymd(2024, 3, 1).unwrap();
    assert_eq!(d.sub_days(1), Date::from_ymd(2024, 2, 29).unwrap());
    let d = Date::from_ymd(2024, 1, 1).unwrap();
    assert_eq!(d.sub_days(1), Date::from_ymd(2023, 12, 31).unwrap());
}

#[test]
fn month_arithmetic_clamps_day() {
    let d = Date::from_ymd(2024, 1, 31).unwrap();
    assert_eq!(d.add_months(1), Date::from_ymd(2024, 2, 29).unwrap());
    let d = Date::from_ymd(2023, 1, 31).unwrap();
    assert_eq!(d.add_months(1), Date::from_ymd(2023, 2, 28).unwrap());
    let d = Date::from_ymd(2024, 3, 31).unwrap();
    assert_eq!(d.sub_months(1), Date::from_ymd(2024, 2, 29).unwrap());
    let d = Date::from_ymd(2024, 5, 15).unwrap();
    assert_eq!(d.add_months(12), Date::from_ymd(2025, 5, 15).unwrap());
    assert_eq!(d.sub_months(12), Date::from_ymd(2023, 5, 15).unwrap());
}

#[test]
fn arithmetic_saturates_at_calendar_extremes() {
    let last = Date::from_ymd(9999, 12, 31).unwrap();
    assert_eq!(last.add_days(1), last);
    assert_eq!(last.add_months(1), last);
    assert_eq!(last.add_months(12), last);
    let first = Date::from_ymd(1, 1, 1).unwrap();
    assert_eq!(first.sub_days(1), first);
    assert_eq!(first.sub_months(1), first);
    assert_eq!(first.sub_months(12), first);
    let near_last = Date::from_ymd(9999, 12, 30).unwrap();
    assert_eq!(near_last.add_days(5), near_last);
    assert_eq!(near_last.add_days(1), last);
    let near_first = Date::from_ymd(1, 1, 2).unwrap();
    assert_eq!(near_first.sub_days(5), near_first);
    let d = Date::from_ymd(9999, 11, 15).unwrap();
    assert_eq!(d.add_months(2), d);
    assert_eq!(d.add_months(1), Date::from_ymd(9999, 12, 15).unwrap());
    let d = Date::from_ymd(2024, 6, 1).unwrap();
    assert_eq!(d.add_days(4_000_000_000), d);
    assert_eq!(d.sub_days(4_000_000_000), d);
}

#[test]
fn from_ymd_rejects_non_days() {
    assert!(Date::from_ymd(2024, 2, 30).is_none());
    assert!(Date::from_ymd(2024, 0, 1).is_none());
    assert!(Date::from_ymd(0, 1, 1).is_none());
    assert!(Date::from_ymd(10000, 1, 1).is_none());
}

#[test]
fn today_is_a_valid_date() {
    let t = journalr::date::Date::today();
    let text = t.format();
    assert_eq!(Date::parse(text.as_str()).unwrap(), t);
}
