use eventsync::errors::Error;
use eventsync::meetup::{
    parse_leadership_role, parse_rsvp_response, parse_user_status, filter_yes_rsvps,
    CloneRSVPResult, LeadershipRole, RSVPResponse, UserStatus, RSVP, User,
};

fn member(id: u64) -> User {
    User { id, name: format!("user{}", id), photo: None, group_profile: None }
}

fn rsvp(id: u64, response: RSVPResponse) -> RSVP {
    RSVP { member: member(id), response }
}

#[test]
fn parses_user_statuses() {
    assert_eq!(parse_user_status("none"), Some(UserStatus::NoStatus));
    assert_eq!(parse_user_status("pending"), Some(UserStatus::Pending));
    assert_eq!(parse_user_status("pending_payment"), Some(UserStatus::PendingPayment));
    assert_eq!(parse_user_status("active"), Some(UserStatus::Active));
    assert_eq!(parse_user_status("blocked"), Some(UserStatus::Blocked));
    assert_eq!(parse_user_status("Active"), None);
    assert_eq!(parse_user_status(""), None);
}

#[test]
fn parses_leadership_roles() {
    assert_eq!(parse_leadership_role("assistant_organizer"), Some(LeadershipRole::AssistantOrganizer));
    assert_eq!(parse_leadership_role("coorganizer"), Some(LeadershipRole::Coorganizer));
    assert_eq!(parse_leadership_role("event_organizer"), Some(LeadershipRole::EventOrganizer));
    assert_eq!(parse_leadership_role("organizer"), Some(LeadershipRole::Organizer));
    assert_eq!(parse_leadership_role("member"), None);
}

#[test]
fn parses_rsvp_responses() {
    assert_eq!(parse_rsvp_response("yes"), Some(RSVPResponse::Yes));
    assert_eq!(parse_rsvp_response("no"), Some(RSVPResponse::No));
    assert_eq!(parse_rsvp_response("waitlist"), Some(RSVPResponse::Waitlist));
    assert_eq!(parse_rsvp_response("maybe"), None);
}

#[test]
fn keeps_only_yes_rsvps_in_order() {
    let rsvps = vec![
        rsvp(1, RSVPResponse::Yes),
        rsvp(2, RSVPResponse::No),
        rsvp(3, RSVPResponse::Waitlist),
        rsvp(4, RSVPResponse::Yes),
    ];
    let yes = filter_yes_rsvps(rsvps);
    let ids: Vec<u64> = yes.iter().map(|r| r.member.id).collect();
    assert_eq!(ids, vec![1, 4]);
}

#[test]
fn clone_tally_counts_successes_and_failures() {
    let mut tally = CloneRSVPResult::new();
    tally.record(Ok(rsvp(1, RSVPResponse::Yes)));
    tally.record(Err(Error::Authentication));
    tally.record(Ok(rsvp(2, RSVPResponse::Yes)));
    assert_eq!(tally.num_success, 2);
    assert_eq!(tally.num_failure, 1);
    assert_eq!(tally.cloned_rsvps.len(), 2);
    assert!(matches!(tally.latest_error, Some(Error::Authentication)));
}

#[test]
fn error_labels_are_stable() {
    assert_eq!(Error::FlowNotFound.kind_label(), "link expired");
    assert_eq!(Error::Authentication.kind_label(), "authentication failure");
    assert_eq!(Error::DataConflict.kind_label(), "data conflict");
}
