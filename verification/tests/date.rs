use ebb::date::{date_from_ymd, local_date, Date, MAX_DAY_NUMBER, MIN_DAY_NUMBER};

#[test]
fn epoch_is_day_zero() {
    let d = date_from_ymd(1970, 1, 1).unwrap();
    assert_eq!(d.days, 0);
    assert_eq!(d.to_ymd(), (1970, 1, 1));
    // 1970-01-01 was a Thursday.
    assert_eq!(d.weekday(), 3);
}

#[test]
fn round_trips_through_ymd() {
    let cases = [
        (1969, 12, 31),
        (2000, 2, 29),
        (2024, 1, 1),
        (2024, 2, 29),
        (2024, 12, 31),
        (1, 1, 1),
        (9999, 12, 31),
    ];
    for (y, m, d) in cases {
        let date = date_from_ymd(y, m, d).unwrap();
        assert_eq!(date.to_ymd(), (y, m, d), "for {y}-{m}-{d}");
        assert_eq!(date.year(), y);
    }
}

#[test]
fn range_bounds_match_the_named_constants() {
    assert_eq!(date_from_ymd(1, 1, 1).unwrap().days, MIN_DAY_NUMBER);
    assert_eq!(date_from_ymd(9999, 12, 31).unwrap().days, MAX_DAY_NUMBER);
}

#[test]
fn rejects_invalid_dates() {
    assert!(date_from_ymd(2023, 2, 29).is_none());
    assert!(date_from_ymd(1900, 2, 29).is_none());
    assert!(date_from_ymd(2024, 13, 1).is_none());
    assert!(date_from_ymd(2024, 0, 1).is_none());
    assert!(date_from_ymd(2024, 4, 31).is_none());
    assert!(date_from_ymd(0, 1, 1).is_none());
    assert!(date_from_ymd(10000, 1, 1).is_none());
}

#[test]
fn century_years_are_leap_only_when_divisible_by_400() {
    assert!(date_from_ymd(2000, 2, 29).is_some());
    assert!(date_from_ymd(2100, 2, 29).is_none());
}

#[test]
fn weekdays_count_from_monday() {
    // 2024-01-01 was a Monday, 2024-01-07 a Sunday.
    assert_eq!(date_from_ymd(2024, 1, 1).unwrap().weekday(), 0);
    assert_eq!(date_from_ymd(2024, 1, 7).unwrap().weekday(), 6);
}

#[test]
fn consecutive_days_have_consecutive_numbers() {
    let feb28 = date_from_ymd(2024, 2, 28).unwrap();
    let feb29 = date_from_ymd(2024, 2, 29).unwrap();
    let mar1 = date_from_ymd(2024, 3, 1).unwrap();
    assert_eq!(feb29.days, feb28.days + 1);
    assert_eq!(mar1.days, feb29.days + 1);
}

#[test]
fn local_date_follows_the_offset() {
    // Midnight UTC on 2024-01-01.
    let ts = 19723i64 * 86400;
    assert_eq!(local_date(ts, 0), Date { days: 19723 });
    // One second earlier, still 2023-12-31 in UTC but 2024-01-01 at UTC+1.
    assert_eq!(local_date(ts - 1, 0), Date { days: 19722 });
    assert_eq!(local_date(ts - 1, 3600), Date { days: 19723 });
    // At UTC-5 the new year has not begun at midnight UTC.
    assert_eq!(local_date(ts, -5 * 3600), Date { days: 19722 });
}
