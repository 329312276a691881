use ebb::date::{date_from_ymd, Date};
use ebb::daysoff::{
    calendar_contains, calendar_remove, calendar_upsert, count_half_days, filter_by_year,
    find_allowed_for_year,
};
use ebb::types::{Config, DayOffEntry, DayPortion, WorkingHours};

fn date(year: i32, month: u32, day: u32) -> Date {
    date_from_ymd(year, month, day).unwrap()
}

fn entry(description: &str, portion: DayPortion) -> DayOffEntry {
    DayOffEntry { description: description.to_string(), portion }
}

#[test]
fn allowance_uses_largest_starting_year_at_or_before_target() {
    let single = vec![(2000, 30)];
    assert_eq!(find_allowed_for_year(&single, 2024), 30);

    let table = vec![(2000, 30), (2010, 25)];
    assert_eq!(find_allowed_for_year(&table, 2024), 25);
    assert_eq!(find_allowed_for_year(&table, 2005), 30);
}

#[test]
fn allowance_is_zero_before_any_starting_year() {
    let table = vec![(2000, 30)];
    assert_eq!(find_allowed_for_year(&table, 1999), 0);
    let empty: Vec<(i32, i32)> = Vec::new();
    assert_eq!(find_allowed_for_year(&empty, 2024), 0);
}

#[test]
fn config_allowances_read_their_tables() {
    let config = Config {
        vacation_days_per_year: vec![(2000, 30), (2010, 25)],
        sick_days_per_year: vec![(2004, 28)],
        working_hours: WorkingHours {
            monday: 0,
            tuesday: 0,
            wednesday: 0,
            thursday: 0,
            friday: 0,
            saturday: 0,
            sunday: 0,
        },
    };
    assert_eq!(config.allowed_vacation_days(2024), 25);
    assert_eq!(config.allowed_sick_days(2024), 28);
    assert_eq!(config.allowed_sick_days(2003), 0);
}

#[test]
fn count_half_days_weighs_full_as_two_halves() {
    let cal = vec![
        (date(2024, 1, 1), entry("a", DayPortion::Full)),
        (date(2024, 2, 5), entry("b", DayPortion::Half)),
        (date(2024, 8, 12), entry("c", DayPortion::Full)),
    ];
    // 1.0 + 0.5 + 1.0 days = 5 half days.
    assert_eq!(count_half_days(&cal), 5);
}

#[test]
fn filter_by_year_keeps_only_that_year() {
    let mut cal = vec![
        (date(2003, 4, 1), entry("a", DayPortion::Full)),
        (date(2004, 2, 5), entry("b", DayPortion::Half)),
        (date(2004, 8, 12), entry("c", DayPortion::Full)),
        (date(2005, 6, 1), entry("d", DayPortion::Full)),
    ];
    filter_by_year(&mut cal, 2004);
    assert_eq!(cal.len(), 2);
    assert_eq!(cal[0].0, date(2004, 2, 5));
    assert_eq!(cal[1].0, date(2004, 8, 12));
}

#[test]
fn calendar_upsert_inserts_in_date_order_and_replaces() {
    let mut cal: Vec<(Date, DayOffEntry)> = Vec::new();
    calendar_upsert(&mut cal, date(2024, 3, 1), entry("b", DayPortion::Full));
    calendar_upsert(&mut cal, date(2024, 1, 1), entry("a", DayPortion::Full));
    calendar_upsert(&mut cal, date(2024, 5, 1), entry("c", DayPortion::Full));
    assert_eq!(cal.len(), 3);
    assert_eq!(cal[0].0, date(2024, 1, 1));
    assert_eq!(cal[1].0, date(2024, 3, 1));
    assert_eq!(cal[2].0, date(2024, 5, 1));

    assert!(calendar_contains(&cal, date(2024, 3, 1)));
    assert!(!calendar_contains(&cal, date(2024, 4, 1)));

    calendar_upsert(&mut cal, date(2024, 3, 1), entry("b2", DayPortion::Half));
    assert_eq!(cal.len(), 3);
    assert_eq!(cal[1].1.description, "b2");
    assert_eq!(cal[1].1.portion, DayPortion::Half);
}

#[test]
fn calendar_remove_returns_the_removed_entry() {
    let mut cal: Vec<(Date, DayOffEntry)> = Vec::new();
    calendar_upsert(&mut cal, date(2024, 1, 1), entry("a", DayPortion::Full));
    calendar_upsert(&mut cal, date(2024, 2, 1), entry("b", DayPortion::Half));

    let removed = calendar_remove(&mut cal, date(2024, 1, 1));
    assert_eq!(removed.map(|e| e.description), Some("a".to_string()));
    assert_eq!(cal.len(), 1);
    assert_eq!(cal[0].0, date(2024, 2, 1));

    let missing = calendar_remove(&mut cal, date(2024, 1, 1));
    assert!(missing.is_none());
}
