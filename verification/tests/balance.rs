use ebb::balance::{balance_summary, expected_duration};
use ebb::period::PeriodArgs;
use ebb::types::{Frame, Frames, State};
use ebb::date::{date_from_ymd, Date};
use ebb::types::{Config, DayOffEntry, DayPortion, Timespan, WorkingHours};

const SECONDS_PER_HOUR: u64 = 3600;

fn date(year: i32, month: u32, day: u32) -> Date {
    date_from_ymd(year, month, day).unwrap()
}

fn make_timespan(from_date: Date, to_date: Date) -> Timespan {
    Timespan { from: from_date.days * 86400, to: to_date.days * 86400 }
}

fn make_config(working_hours: WorkingHours) -> Config {
    Config {
        vacation_days_per_year: vec![(2000, 30)],
        sick_days_per_year: vec![(2000, 30)],
        working_hours,
    }
}

fn entry(description: &str, portion: DayPortion) -> DayOffEntry {
    DayOffEntry { description: description.to_string(), portion }
}

fn hours(h: u64) -> u64 {
    h * SECONDS_PER_HOUR
}

fn template(mon: u64, tue: u64, wed: u64) -> WorkingHours {
    WorkingHours {
        monday: hours(mon),
        tuesday: hours(tue),
        wednesday: hours(wed),
        thursday: 0,
        friday: 0,
        saturday: 0,
        sunday: 0,
    }
}

#[test]
fn test_counts_whole_end_date() {
    // Monday
    let start_date = date(2024, 1, 1);
    let config = make_config(template(8, 6, 0));

    let holidays: Vec<(Date, DayOffEntry)> = Vec::new();
    let sick_days: Vec<(Date, DayOffEntry)> = Vec::new();
    let vacations: Vec<(Date, DayOffEntry)> = Vec::new();

    let cases = [
        (date(2024, 1, 1), 8 * 60 * 60),
        (date(2024, 1, 2), 8 * 60 * 60 + 6 * 60 * 60),
        (date(2024, 1, 3), 8 * 60 * 60 + 6 * 60 * 60),
    ];

    for (end_date, expected_seconds) in cases {
        let timespan = make_timespan(start_date, end_date);
        let result = expected_duration(&config, &timespan, &holidays, &sick_days, &vacations, 0);
        assert_eq!(result, expected_seconds, "for end date {:?}", end_date);
    }
}

#[test]
fn test_covers_multiple_weeks() {
    // Monday
    let start_date = date(2024, 1, 1);
    let config = make_config(template(8, 6, 0));

    let holidays: Vec<(Date, DayOffEntry)> = Vec::new();
    let sick_days: Vec<(Date, DayOffEntry)> = Vec::new();
    let vacations: Vec<(Date, DayOffEntry)> = Vec::new();

    let end_date = date(2024, 1, 14);
    let expected_seconds = (8 * 60 * 60 + 6 * 60 * 60) * 2;

    let timespan = make_timespan(start_date, end_date);
    let result = expected_duration(&config, &timespan, &holidays, &sick_days, &vacations, 0);
    assert_eq!(result, expected_seconds, "for end date {:?}", end_date);
}

#[test]
fn test_handles_mid_week_end_date() {
    // Monday
    let start_date = date(2024, 1, 1);
    let config = make_config(template(8, 6, 5));

    let holidays: Vec<(Date, DayOffEntry)> = Vec::new();
    let sick_days: Vec<(Date, DayOffEntry)> = Vec::new();
    let vacations: Vec<(Date, DayOffEntry)> = Vec::new();

    let end_date = date(2024, 1, 16);
    let expected_seconds =
        (8 * 60 * 60 + 6 * 60 * 60 + 5 * 60 * 60) * 2 + (8 * 60 * 60 + 6 * 60 * 60);

    let timespan = make_timespan(start_date, end_date);
    let result = expected_duration(&config, &timespan, &holidays, &sick_days, &vacations, 0);
    assert_eq!(result, expected_seconds, "for end date {:?}", end_date);
}

#[test]
fn test_considers_vacation_days() {
    // Monday
    let start_date = date(2024, 1, 1);
    let config = make_config(template(8, 6, 5));

    let holidays: Vec<(Date, DayOffEntry)> = Vec::new();
    let sick_days: Vec<(Date, DayOffEntry)> = Vec::new();
    let vacations = vec![(date(2024, 1, 3), entry("Vacation", DayPortion::Full))];

    let end_date = date(2024, 1, 16);
    let expected_seconds = (8 * 60 * 60 + 6 * 60 * 60 + 5 * 60 * 60) * 2
        + (8 * 60 * 60 + 6 * 60 * 60)
        - 5 * 60 * 60;

    let timespan = make_timespan(start_date, end_date);
    let result = expected_duration(&config, &timespan, &holidays, &sick_days, &vacations, 0);
    assert_eq!(result, expected_seconds, "for end date {:?}", end_date);
}

#[test]
fn test_considers_half_vacation_days() {
    // Monday
    let start_date = date(2024, 1, 1);
    let config = make_config(template(8, 6, 5));

    let holidays: Vec<(Date, DayOffEntry)> = Vec::new();
    let sick_days: Vec<(Date, DayOffEntry)> = Vec::new();
    let vacations = vec![(date(2024, 1, 3), entry("Vacation", DayPortion::Half))];

    let end_date = date(2024, 1, 16);
    let expected_seconds = (8 * 60 * 60 + 6 * 60 * 60 + 5 * 60 * 60) * 2
        + (8 * 60 * 60 + 6 * 60 * 60)
        - (5 * 60 * 60 / 2);

    let timespan = make_timespan(start_date, end_date);
    let result = expected_duration(&config, &timespan, &holidays, &sick_days, &vacations, 0);
    assert_eq!(result, expected_seconds, "for end date {:?}", end_date);
}

#[test]
fn test_does_not_consider_vacation_days_out_of_range() {
    // Monday
    let start_date = date(2024, 1, 1);
    let config = make_config(template(8, 6, 5));

    let holidays: Vec<(Date, DayOffEntry)> = Vec::new();
    let sick_days: Vec<(Date, DayOffEntry)> = Vec::new();
    let vacations = vec![(date(2024, 1, 17), entry("Vacation", DayPortion::Full))];

    let end_date = date(2024, 1, 16);
    let expected_seconds =
        (8 * 60 * 60 + 6 * 60 * 60 + 5 * 60 * 60) * 2 + (8 * 60 * 60 + 6 * 60 * 60);

    let timespan = make_timespan(start_date, end_date);
    let result = expected_duration(&config, &timespan, &holidays, &sick_days, &vacations, 0);
    assert_eq!(result, expected_seconds, "for end date {:?}", end_date);
}

#[test]
fn test_considers_holidays() {
    // Monday
    let start_date = date(2024, 1, 1);
    let config = make_config(template(8, 6, 5));

    let holidays = vec![(date(2024, 1, 3), entry("Holiday", DayPortion::Full))];
    let sick_days: Vec<(Date, DayOffEntry)> = Vec::new();
    let vacations: Vec<(Date, DayOffEntry)> = Vec::new();

    let end_date = date(2024, 1, 16);
    let expected_seconds = (8 * 60 * 60 + 6 * 60 * 60 + 5 * 60 * 60) * 2
        + (8 * 60 * 60 + 6 * 60 * 60)
        - 5 * 60 * 60;

    let timespan = make_timespan(start_date, end_date);
    let result = expected_duration(&config, &timespan, &holidays, &sick_days, &vacations, 0);
    assert_eq!(result, expected_seconds, "for end date {:?}", end_date);
}

#[test]
fn test_considers_sickdays() {
    // Monday
    let start_date = date(2024, 1, 1);
    let config = make_config(template(8, 6, 5));

    let holidays: Vec<(Date, DayOffEntry)> = Vec::new();
    let sick_days = vec![(date(2024, 1, 3), entry("Sick Day", DayPortion::Full))];
    let vacations: Vec<(Date, DayOffEntry)> = Vec::new();

    let end_date = date(2024, 1, 16);
    let expected_seconds = (8 * 60 * 60 + 6 * 60 * 60 + 5 * 60 * 60) * 2
        + (8 * 60 * 60 + 6 * 60 * 60)
        - 5 * 60 * 60;

    let timespan = make_timespan(start_date, end_date);
    let result = expected_duration(&config, &timespan, &holidays, &sick_days, &vacations, 0);
    assert_eq!(result, expected_seconds, "for end date {:?}", end_date);
}

#[test]
fn test_does_not_count_days_off_twice() {
    // Monday
    let start_date = date(2024, 1, 1);
    let config = make_config(template(8, 6, 5));

    let holidays = vec![(date(2024, 1, 3), entry("Holiday", DayPortion::Full))];
    let sick_days = vec![(date(2024, 1, 3), entry("Sick", DayPortion::Full))];
    let vacations = vec![(date(2024, 1, 3), entry("Vacation", DayPortion::Full))];

    let end_date = date(2024, 1, 16);
    let expected_seconds = (8 * 60 * 60 + 6 * 60 * 60 + 5 * 60 * 60) * 2
        + (8 * 60 * 60 + 6 * 60 * 60)
        - 5 * 60 * 60;

    let timespan = make_timespan(start_date, end_date);
    let result = expected_duration(&config, &timespan, &holidays, &sick_days, &vacations, 0);
    assert_eq!(result, expected_seconds, "for end date {:?}", end_date);
}

#[test]
fn full_day_off_on_zero_template_day_subtracts_nothing() {
    // Wednesday has a zero template; a full day off there changes nothing.
    let start_date = date(2024, 1, 1);
    let config = make_config(template(8, 6, 0));

    let holidays: Vec<(Date, DayOffEntry)> = Vec::new();
    let sick_days: Vec<(Date, DayOffEntry)> = Vec::new();
    let vacations = vec![(date(2024, 1, 3), entry("Vacation", DayPortion::Full))];

    let end_date = date(2024, 1, 7);
    let timespan = make_timespan(start_date, end_date);
    let result = expected_duration(&config, &timespan, &holidays, &sick_days, &vacations, 0);
    assert_eq!(result, (8 * 60 * 60 + 6 * 60 * 60) as i64);
}

#[test]
fn full_day_off_subtracts_whole_template_half_subtracts_half() {
    // Monday has an 8h template.
    let start_date = date(2024, 1, 1);
    let config = make_config(template(8, 6, 0));
    let end_date = date(2024, 1, 7);
    let timespan = make_timespan(start_date, end_date);

    let holidays: Vec<(Date, DayOffEntry)> = Vec::new();
    let sick_days: Vec<(Date, DayOffEntry)> = Vec::new();

    let full = vec![(date(2024, 1, 1), entry("Vacation", DayPortion::Full))];
    let result = expected_duration(&config, &timespan, &holidays, &sick_days, &full, 0);
    assert_eq!(result, (6 * 60 * 60) as i64);

    let half = vec![(date(2024, 1, 1), entry("Vacation", DayPortion::Half))];
    let result = expected_duration(&config, &timespan, &holidays, &sick_days, &half, 0);
    assert_eq!(result, (4 * 60 * 60 + 6 * 60 * 60) as i64);
}

#[test]
fn half_of_odd_template_duration_truncates_only_at_the_end() {
    // A 3601-second Monday: a half day off leaves 1800.5 s, reported as
    // 1800 whole seconds.
    let start_date = date(2024, 1, 1);
    let config = make_config(WorkingHours {
        monday: 3601,
        tuesday: 0,
        wednesday: 0,
        thursday: 0,
        friday: 0,
        saturday: 0,
        sunday: 0,
    });
    let timespan = make_timespan(start_date, start_date);

    let holidays: Vec<(Date, DayOffEntry)> = Vec::new();
    let sick_days: Vec<(Date, DayOffEntry)> = Vec::new();
    let half = vec![(date(2024, 1, 1), entry("Vacation", DayPortion::Half))];

    let result = expected_duration(&config, &timespan, &holidays, &sick_days, &half, 0);
    assert_eq!(result, 1800);
}

#[test]
fn half_dominated_by_full_across_calendars() {
    let start_date = date(2024, 1, 1);
    let config = make_config(template(8, 6, 0));
    let timespan = make_timespan(start_date, date(2024, 1, 7));

    let holidays = vec![(date(2024, 1, 1), entry("Holiday", DayPortion::Half))];
    let sick_days: Vec<(Date, DayOffEntry)> = Vec::new();
    let vacations = vec![(date(2024, 1, 1), entry("Vacation", DayPortion::Full))];

    let result = expected_duration(&config, &timespan, &holidays, &sick_days, &vacations, 0);
    assert_eq!(result, (6 * 60 * 60) as i64);
}

#[test]
fn balance_compares_expected_and_actual() {
    // One 8h Monday and one 6h Tuesday expected; 1h recorded on Monday.
    let config = make_config(template(8, 6, 0));
    let monday = date(2024, 1, 1).days * 86400;
    let frames = Frames {
        frames: vec![Frame {
            start_time: monday + 9 * 3600,
            end_time: monday + 10 * 3600,
            project: "p".to_string(),
            tags: Vec::new(),
            updated_at: monday + 10 * 3600,
        }],
    };
    let state = State { current_frame: None };
    let args = PeriodArgs {
        from: Some(monday),
        to: Some(date(2024, 1, 2).days * 86400),
        day: false,
        week: false,
        month: false,
        year: false,
    };
    let now = date(2024, 1, 2).days * 86400;
    let out = balance_summary(
        &config,
        frames,
        &state,
        &Vec::new(),
        &Vec::new(),
        &Vec::new(),
        &args,
        now,
        0,
    );
    assert_eq!(out.expected_working_seconds, (14 * 3600) as i64);
    assert_eq!(out.actual_working_seconds, 3600);
    assert_eq!(out.remaining_working_seconds, (13 * 3600) as i64);
    assert_eq!(out.timespan.from, monday);
    assert_eq!(out.timespan.to, now);
}

#[test]
fn inverted_period_yields_zero_expected_duration() {
    let config = make_config(template(8, 6, 0));
    let holidays: Vec<(Date, DayOffEntry)> = Vec::new();
    let sick_days: Vec<(Date, DayOffEntry)> = Vec::new();
    let vacations: Vec<(Date, DayOffEntry)> = Vec::new();

    let timespan = Timespan { from: 1000, to: 999 };
    let result = expected_duration(&config, &timespan, &holidays, &sick_days, &vacations, 0);
    assert_eq!(result, 0);
}

#[test]
fn expected_duration_clamps_at_zero() {
    // One 8h Monday, with full days off on every day of the week.
    let start_date = date(2024, 1, 1);
    let config = make_config(template(8, 0, 0));
    let timespan = make_timespan(start_date, date(2024, 1, 7));

    let holidays: Vec<(Date, DayOffEntry)> = Vec::new();
    let sick_days: Vec<(Date, DayOffEntry)> = Vec::new();
    let mut vacations: Vec<(Date, DayOffEntry)> = Vec::new();
    for day in 1..=7 {
        vacations.push((date(2024, 1, day), entry("Vacation", DayPortion::Full)));
    }

    let result = expected_duration(&config, &timespan, &holidays, &sick_days, &vacations, 0);
    assert_eq!(result, 0);
}
