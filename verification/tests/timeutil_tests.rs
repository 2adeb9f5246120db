use eventsync::schedule::build_session_request;
use eventsync::timeutil::{format_utc_minutes, zurich_local_to_utc};

#[test]
fn formats_the_epoch() {
    assert_eq!(format_utc_minutes(0), "1970-01-01 00:00");
}

#[test]
fn formats_a_modern_timestamp() {
    // 2021-06-01T10:00:00Z
    assert_eq!(format_utc_minutes(1_622_541_600), "2021-06-01 10:00");
}

#[test]
fn session_request_carries_the_formatted_start() {
    let request = build_session_request(1_622_541_600);
    assert_eq!(request.start, "2021-06-01 10:00");
    assert_eq!(request.duration, 240);
    assert!(request.include_players);
}

#[test]
fn zurich_summer_noon_is_ten_utc() {
    // 2021-06-01 12:00 in the region is UTC+2 in summer.
    assert_eq!(zurich_local_to_utc(2021, 6, 1, 12, 0), Some(1_622_541_600));
}

#[test]
fn zurich_winter_noon_is_eleven_utc() {
    // 2021-01-15 12:00 in the region is UTC+1 in winter: 11:00 UTC.
    assert_eq!(zurich_local_to_utc(2021, 1, 15, 12, 0), Some(1_610_708_400));
}

#[test]
fn ambiguous_wall_clock_reading_is_rejected() {
    // At the end of summer time the clock shows 02:30 twice.
    assert_eq!(zurich_local_to_utc(2021, 10, 31, 2, 30), None);
}

#[test]
fn nonexistent_wall_clock_reading_is_rejected() {
    // At the start of summer time the clock skips from 02:00 to 03:00.
    assert_eq!(zurich_local_to_utc(2021, 3, 28, 2, 30), None);
}

#[test]
fn invalid_dates_are_rejected() {
    assert_eq!(zurich_local_to_utc(2021, 2, 30, 10, 0), None);
    assert_eq!(zurich_local_to_utc(2021, 13, 1, 10, 0), None);
    assert_eq!(zurich_local_to_utc(2021, 6, 1, 24, 0), None);
}
