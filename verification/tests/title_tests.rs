use eventsync::flow::ScheduleSessionFlow;
use eventsync::title::{
    budgeted_session_title, next_session_title, split_session_title, SessionSuffix,
    MAX_EVENT_NAME_UTF16_LEN,
};

#[test]
fn increments_existing_session_number() {
    let next = ScheduleSessionFlow::increment_session_title("Curse of Strahd Session 3");
    assert_eq!(next, "Curse of Strahd Session 4");
}

#[test]
fn appends_session_two_when_no_suffix() {
    let next = ScheduleSessionFlow::increment_session_title("Homebrew Campaign");
    assert_eq!(next, "Homebrew Campaign Session 2");
}

#[test]
fn split_finds_trailing_suffix() {
    let (base, suffix) = split_session_title("Curse of Strahd Session 3");
    assert_eq!(base, "Curse of Strahd");
    assert_eq!(suffix, SessionSuffix::Number(3));
}

#[test]
fn split_is_case_insensitive_and_eats_whitespace() {
    let (base, suffix) = split_session_title("Tomb of Annihilation  sEsSiOn  12  ");
    assert_eq!(base, "Tomb of Annihilation");
    assert_eq!(suffix, SessionSuffix::Number(12));
}

#[test]
fn split_without_suffix_keeps_title() {
    let (base, suffix) = split_session_title("Dragon Heist");
    assert_eq!(base, "Dragon Heist");
    assert_eq!(suffix, SessionSuffix::Absent);
}

#[test]
fn split_rejects_oversized_session_number() {
    let (base, suffix) = split_session_title("Epic Session 99999999999");
    assert_eq!(base, "Epic");
    assert_eq!(suffix, SessionSuffix::TooLarge);
}

#[test]
fn huge_number_falls_back_to_session_two() {
    let next = next_session_title("Epic Session 99999999999");
    assert_eq!(next, "Epic Session 2");
}

#[test]
fn mid_title_session_word_is_not_a_suffix() {
    let (base, suffix) = split_session_title("Session 3 of the Elders");
    assert_eq!(base, "Session 3 of the Elders");
    assert_eq!(suffix, SessionSuffix::Absent);
}

#[test]
fn budget_keeps_short_titles_whole() {
    let title = budgeted_session_title("Curse of Strahd", 4);
    assert_eq!(title, "Curse of Strahd Session 4");
}

#[test]
fn budget_truncates_long_titles_with_ellipsis() {
    let base: String = "a".repeat(100);
    let title = budgeted_session_title(&base, 4);
    // " Session 4" is 10 UTF-16 units; the ellipsis one; the base gets 69.
    let expected = format!("{}\u{2026} Session 4", "a".repeat(69));
    assert_eq!(title, expected);
    assert_eq!(title.encode_utf16().count(), MAX_EVENT_NAME_UTF16_LEN);
}

#[test]
fn budget_counts_utf16_units_not_chars() {
    // Each emoji is two UTF-16 units.
    let base: String = "\u{1F409}".repeat(50);
    let title = budgeted_session_title(&base, 2);
    assert!(title.encode_utf16().count() <= MAX_EVENT_NAME_UTF16_LEN);
    assert!(title.ends_with(" Session 2"));
    assert!(title.contains('\u{2026}'));
}
