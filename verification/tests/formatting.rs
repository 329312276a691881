use ebb::formatting::{format_duration, format_timerange, format_timestamp};

#[test]
fn test_format_seconds_as_duration_str() {
    let cases = [
        (0, "0s"),
        (1, "1s"),
        (59, "59s"),
        (60, "1m"),
        (61, "1m 1s"),
        (3599, "59m 59s"),
        (3600, "1h"),
        (3601, "1h 1s"),
        (3662, "1h 1m 2s"),
        (86400, "1d"),
        (88888, "1d 41m 28s"),
        (1440000, "16d 16h"),
    ];

    for (secs, expected_str) in cases {
        assert_eq!(format_duration(secs), expected_str, "for {secs} seconds")
    }
}

#[test]
fn negative_durations_take_a_leading_minus() {
    assert_eq!(format_duration(-1), "-1s");
    assert_eq!(format_duration(-3661), "-1h 1m 1s");
}

#[test]
fn timestamps_render_as_local_date_time_and_weekday() {
    assert_eq!(format_timestamp(0, 0), "1970-01-01 00:00:00 (Thu)");
    assert_eq!(format_timestamp(0, 3600), "1970-01-01 01:00:00 (Thu)");
    // 2024-01-01 is a Monday; 19723 days after the epoch.
    let jan1 = 19723 * 86400;
    assert_eq!(format_timestamp(jan1 + 12 * 3600 + 34 * 60 + 56, 0), "2024-01-01 12:34:56 (Mon)");
}

#[test]
fn timeranges_render_both_bounds() {
    let jan1 = 19723 * 86400;
    let expected = "From: 2024-01-01 00:00:00 (Mon)\nTo: 2024-01-01 12:00:00 (Mon)";
    assert_eq!(format_timerange(jan1, jan1 + 12 * 3600, 0), expected);
}

#[test]
fn years_are_zero_padded_to_four_digits() {
    // 0099-12-31 is day -683047 relative to the epoch.
    let d = ebb::date::date_from_ymd(99, 12, 31).unwrap();
    let ts = d.days * 86400;
    let rendered = format_timestamp(ts, 0);
    assert!(rendered.starts_with("0099-12-31 00:00:00"));
}
