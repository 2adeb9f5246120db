use eventsync::text::{format_minutes_to_hhmm, parse_nonzero_u64, parse_u64, str_eq, u64_to_string};

#[test]
fn formats_minutes_with_padded_remainder() {
    assert_eq!(format_minutes_to_hhmm(&150), "2:30");
    assert_eq!(format_minutes_to_hhmm(&605), "10:05");
    assert_eq!(format_minutes_to_hhmm(&0), "0:00");
    assert_eq!(format_minutes_to_hhmm(&59), "0:59");
    assert_eq!(format_minutes_to_hhmm(&720), "12:00");
}

#[test]
fn renders_decimal() {
    assert_eq!(u64_to_string(0), "0");
    assert_eq!(u64_to_string(42), "42");
    assert_eq!(u64_to_string(u64::MAX), "18446744073709551615");
}

#[test]
fn parses_decimal() {
    assert_eq!(parse_u64("0"), Some(0));
    assert_eq!(parse_u64("007"), Some(7));
    assert_eq!(parse_u64("18446744073709551615"), Some(u64::MAX));
}

#[test]
fn rejects_bad_numbers() {
    assert_eq!(parse_u64(""), None);
    assert_eq!(parse_u64("12a"), None);
    assert_eq!(parse_u64("-3"), None);
    assert_eq!(parse_u64("18446744073709551616"), None);
}

#[test]
fn rejects_zero_person_identifier() {
    assert_eq!(parse_nonzero_u64("0"), None);
    assert_eq!(parse_nonzero_u64("000"), None);
    assert_eq!(parse_nonzero_u64("17"), Some(17));
}

#[test]
fn compares_strings_by_characters() {
    assert!(str_eq("abc", "abc"));
    assert!(!str_eq("abc", "abd"));
    assert!(!str_eq("abc", "ab"));
    assert!(str_eq("", ""));
}
