use eventsync::shortcode::{contains_code, rewrite_description, strip_code, CodeKind};

#[test]
fn strips_new_adventure_brackets_and_parens() {
    assert_eq!(strip_code("[new adventure] Fun", CodeKind::NewAdventure), " Fun");
    assert_eq!(strip_code("(new adventure) Fun", CodeKind::NewAdventure), " Fun");
    assert_eq!(strip_code("[ NEW  ADVENTURE ] Fun", CodeKind::NewAdventure), " Fun");
    assert_eq!(strip_code("[newadventure] Fun", CodeKind::NewAdventure), " Fun");
}

#[test]
fn strips_every_occurrence() {
    assert_eq!(strip_code("a[new campaign]b[new campaign]c", CodeKind::NewCampaign), "abc");
}

#[test]
fn leaves_other_text_alone() {
    assert_eq!(strip_code("plain text [campaign x]", CodeKind::NewAdventure), "plain text [campaign x]");
    assert_eq!(strip_code("[new adventures]", CodeKind::NewAdventure), "[new adventures]");
}

#[test]
fn strips_channel_with_number_only() {
    assert_eq!(strip_code("[channel 123] hello", CodeKind::Channel), " hello");
    assert_eq!(strip_code("[channel] hello", CodeKind::Channel), "[channel] hello");
}

#[test]
fn finds_campaign_marker() {
    assert!(contains_code("text [campaign abc123]", CodeKind::CampaignMarker));
    assert!(!contains_code("text [campaign ]", CodeKind::CampaignMarker));
    assert!(!contains_code("no marker here", CodeKind::CampaignMarker));
}

#[test]
fn rewrite_strips_codes_and_appends_marker() {
    let d = "[new adventure]Come play![channel 42]";
    let out = rewrite_description(d, "evt99", false);
    assert_eq!(out, "Come play!\n[campaign evt99]");
}

#[test]
fn rewrite_keeps_existing_marker() {
    let d = "Come play! [campaign old7]";
    let out = rewrite_description(d, "evt99", false);
    assert_eq!(out, "Come play! [campaign old7]");
}

#[test]
fn rewrite_strips_closed_only_for_open_events() {
    let d = "Come play! [closed]";
    let closed = rewrite_description(d, "e1", false);
    assert!(closed.contains("[closed]"));
    let open = rewrite_description(d, "e1", true);
    assert!(!open.contains("[closed]"));
}
