use ebb::date::date_from_ymd;
use ebb::period::{resolve_timespan, PeriodArgs};
use ebb::types::Frame;

fn day_number(year: i32, month: u32, day: u32) -> i64 {
    date_from_ymd(year, month, day).unwrap().days
}

fn no_selector() -> PeriodArgs {
    PeriodArgs { from: None, to: None, day: false, week: false, month: false, year: false }
}

fn frame(start: i64, end: i64) -> Frame {
    Frame {
        start_time: start,
        end_time: end,
        project: "p".to_string(),
        tags: Vec::new(),
        updated_at: end,
    }
}

#[test]
fn day_selector_starts_at_local_midnight() {
    // 2024-01-03 15:00:00 UTC.
    let now = day_number(2024, 1, 3) * 86400 + 15 * 3600;
    let args = PeriodArgs { day: true, ..no_selector() };
    let ts = resolve_timespan(&args, now, &Vec::new(), 0);
    assert_eq!(ts.from, day_number(2024, 1, 3) * 86400);
    assert_eq!(ts.to, now);
}

#[test]
fn week_selector_starts_on_monday() {
    // 2024-01-03 is a Wednesday; the week began Monday 2024-01-01.
    let now = day_number(2024, 1, 3) * 86400 + 15 * 3600;
    let args = PeriodArgs { week: true, ..no_selector() };
    let ts = resolve_timespan(&args, now, &Vec::new(), 0);
    assert_eq!(ts.from, day_number(2024, 1, 1) * 86400);
    assert_eq!(ts.to, now);
}

#[test]
fn month_selector_starts_on_the_first() {
    let now = day_number(2024, 2, 17) * 86400 + 3600;
    let args = PeriodArgs { month: true, ..no_selector() };
    let ts = resolve_timespan(&args, now, &Vec::new(), 0);
    assert_eq!(ts.from, day_number(2024, 2, 1) * 86400);
    assert_eq!(ts.to, now);
}

#[test]
fn year_selector_starts_on_january_first() {
    let now = day_number(2024, 2, 17) * 86400 + 3600;
    let args = PeriodArgs { year: true, ..no_selector() };
    let ts = resolve_timespan(&args, now, &Vec::new(), 0);
    assert_eq!(ts.from, day_number(2024, 1, 1) * 86400);
    assert_eq!(ts.to, now);
}

#[test]
fn local_offset_shifts_the_midnight() {
    // 2023-12-31 23:30:00 UTC is already 2024-01-01 00:30 at UTC+1.
    let now = day_number(2024, 1, 1) * 86400 - 1800;
    let args = PeriodArgs { day: true, ..no_selector() };
    let ts = resolve_timespan(&args, now, &Vec::new(), 3600);
    assert_eq!(ts.from, day_number(2024, 1, 1) * 86400 - 3600);
    assert_eq!(ts.to, now);
}

#[test]
fn explicit_bounds_are_used_as_given() {
    let args = PeriodArgs { from: Some(1000), to: Some(2000), ..no_selector() };
    let ts = resolve_timespan(&args, 5000, &Vec::new(), 0);
    assert_eq!(ts.from, 1000);
    assert_eq!(ts.to, 2000);
}

#[test]
fn default_from_is_the_first_frame_start() {
    let frames = vec![frame(700, 900), frame(1200, 1300)];
    let ts = resolve_timespan(&no_selector(), 5000, &frames, 0);
    assert_eq!(ts.from, 700);
    assert_eq!(ts.to, 5000);
}

#[test]
fn default_from_without_frames_is_the_epoch() {
    let ts = resolve_timespan(&no_selector(), 5000, &Vec::new(), 0);
    assert_eq!(ts.from, 0);
    assert_eq!(ts.to, 5000);
}
