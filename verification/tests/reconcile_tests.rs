use eventsync::model::{Database, MeetupEventRow};
use eventsync::reconcile::{sync_event, ReconcileOutcome};
use eventsync::swissrpg::{free_spots_of, is_online_from_tags, Event, Session, Tag, User};

fn user(discord_id: &str, name: &str) -> User {
    User { discord_id: discord_id.to_string(), username: name.to_string() }
}

fn session(uuid: &str, start: i64, attendees: Vec<User>) -> Session {
    Session { uuid: uuid.to_string(), number: 1, start, attendees, rsvp_open: true, open_seats: 3 }
}

fn series(uuid: &str, title: &str, organisers: Vec<User>, legacy_id: Option<u64>) -> Event {
    Event {
        uuid: uuid.to_string(),
        title: title.to_string(),
        organisers,
        description: Some("An adventure. [new adventure]".to_string()),
        current_session: None,
        upcoming_sessions: Vec::new(),
        legacy_id,
        tags: Vec::new(),
        public_url: "https://example.org/e".to_string(),
    }
}

fn participant_discord_ids(db: &Database, event_id: i32) -> Vec<u64> {
    let mut ids: Vec<u64> = Vec::new();
    for p in &db.participants {
        if p.event_id == event_id {
            for m in &db.members {
                if m.id == p.member_id {
                    if let Some(d) = m.discord_id {
                        ids.push(d);
                    }
                }
            }
        }
    }
    ids.sort();
    ids
}

fn host_discord_ids(db: &Database, event_id: i32) -> Vec<u64> {
    let mut ids: Vec<u64> = Vec::new();
    for h in &db.hosts {
        if h.event_id == event_id {
            for m in &db.members {
                if m.id == h.member_id {
                    if let Some(d) = m.discord_id {
                        ids.push(d);
                    }
                }
            }
        }
    }
    ids.sort();
    ids
}

#[test]
fn reconciling_twice_is_idempotent() {
    let mut db = Database::new();
    let sr = series("series-1", "Night Below", vec![user("999", "gm")], None);
    let ss = session("sess-1", 1000, vec![user("111", "a"), user("222", "b")]);

    let first = sync_event(&mut db, &sr, &ss);
    let event_id = match first {
        ReconcileOutcome::Synced { event_id } => event_id,
        other => panic!("first pass did not sync: {:?}", other),
    };
    assert_eq!(db.events.len(), 1);
    assert_eq!(db.swissrpg_events.len(), 1);
    assert_eq!(db.series.len(), 1);
    assert_eq!(participant_discord_ids(&db, event_id), vec![111, 222]);
    assert_eq!(host_discord_ids(&db, event_id), vec![999]);

    let second = sync_event(&mut db, &sr, &ss);
    assert_eq!(second, ReconcileOutcome::Synced { event_id });
    assert_eq!(db.events.len(), 1);
    assert_eq!(db.swissrpg_events.len(), 1);
    assert_eq!(db.series.len(), 1);
    assert_eq!(participant_discord_ids(&db, event_id), vec![111, 222]);
    assert_eq!(host_discord_ids(&db, event_id), vec![999]);
}

#[test]
fn participants_mirror_the_latest_attendee_list() {
    let mut db = Database::new();
    let sr = series("series-1", "Night Below", vec![], None);
    let first = session("sess-1", 1000, vec![user("111", "a"), user("222", "b")]);
    let outcome = sync_event(&mut db, &sr, &first);
    let event_id = match outcome {
        ReconcileOutcome::Synced { event_id } => event_id,
        other => panic!("first pass did not sync: {:?}", other),
    };
    assert_eq!(participant_discord_ids(&db, event_id), vec![111, 222]);

    let second = session("sess-1", 1000, vec![user("222", "b"), user("333", "c")]);
    let outcome = sync_event(&mut db, &sr, &second);
    assert_eq!(outcome, ReconcileOutcome::Synced { event_id });
    assert_eq!(participant_discord_ids(&db, event_id), vec![222, 333]);
}

#[test]
fn malformed_person_identifiers_are_skipped_individually() {
    let mut db = Database::new();
    let sr = series("series-1", "Night Below", vec![user("not-a-number", "gm")], None);
    let ss = session("sess-1", 1000, vec![user("111", "a"), user("0", "zero"), user("", "blank")]);
    let outcome = sync_event(&mut db, &sr, &ss);
    let event_id = match outcome {
        ReconcileOutcome::Synced { event_id } => event_id,
        other => panic!("pass did not sync: {:?}", other),
    };
    assert_eq!(participant_discord_ids(&db, event_id), vec![111]);
    assert_eq!(host_discord_ids(&db, event_id), Vec::<u64>::new());
}

#[test]
fn dangling_legacy_reference_skips_without_touching_the_store() {
    let mut db = Database::new();
    let sr = series("series-1", "Night Below", vec![], Some(777));
    let ss = session("sess-1", 1000, vec![user("111", "a")]);
    let outcome = sync_event(&mut db, &sr, &ss);
    assert_eq!(outcome, ReconcileOutcome::SkippedDanglingLegacy);
    assert_eq!(db.events.len(), 0);
    assert_eq!(db.series.len(), 0);
    assert_eq!(db.members.len(), 0);
}

#[test]
fn legacy_conflict_skips_the_event_and_changes_nothing() {
    let mut db = Database::new();

    // One native event, creating series 0.
    let sr_a = series("series-a", "Alpha", vec![], None);
    let ss_a = session("sess-a", 1000, vec![]);
    let out_a = sync_event(&mut db, &sr_a, &ss_a);
    assert!(matches!(out_a, ReconcileOutcome::Synced { .. }));

    // Another native event, creating series 1, which we bind to legacy 777.
    let sr_b = series("series-b", "Beta", vec![], None);
    let ss_b = session("sess-b", 2000, vec![]);
    let out_b = sync_event(&mut db, &sr_b, &ss_b);
    let beta_event = match out_b {
        ReconcileOutcome::Synced { event_id } => event_id,
        other => panic!("pass did not sync: {:?}", other),
    };
    db.meetup_events.push(MeetupEventRow {
        id: db.next_binding_id,
        event_id: beta_event,
        meetup_id: "777".to_string(),
        urlname: "group".to_string(),
        url: "https://legacy.example/777".to_string(),
    });
    db.next_binding_id += 1;

    // The first event now claims legacy 777, which belongs to series 1,
    // while it is already bound to series 0: a conflict.
    let sr_conflict = series("series-a", "Alpha renamed", vec![user("999", "gm")], Some(777));
    let ss_conflict = session("sess-a", 1000, vec![user("111", "a")]);
    let before_events = db.events.len();
    let before_members = db.members.len();
    let outcome = sync_event(&mut db, &sr_conflict, &ss_conflict);
    assert_eq!(outcome, ReconcileOutcome::SkippedConflict);
    assert_eq!(db.events.len(), before_events);
    assert_eq!(db.members.len(), before_members);
    // The offending update was not applied: the title is unchanged.
    assert_eq!(db.events[0].title, "Alpha");
}

#[test]
fn legacy_link_adopts_the_linked_series() {
    let mut db = Database::new();

    let sr_a = series("series-a", "Alpha", vec![], None);
    let ss_a = session("sess-a", 1000, vec![]);
    let out_a = sync_event(&mut db, &sr_a, &ss_a);
    let alpha_event = match out_a {
        ReconcileOutcome::Synced { event_id } => event_id,
        other => panic!("pass did not sync: {:?}", other),
    };
    db.meetup_events.push(MeetupEventRow {
        id: db.next_binding_id,
        event_id: alpha_event,
        meetup_id: "777".to_string(),
        urlname: "group".to_string(),
        url: "https://legacy.example/777".to_string(),
    });
    db.next_binding_id += 1;
    let alpha_series = db.events[0].series_id;

    // A new native event that continues legacy event 777 joins its series.
    let sr_b = series("series-b", "Beta", vec![], Some(777));
    let ss_b = session("sess-b", 2000, vec![]);
    let out_b = sync_event(&mut db, &sr_b, &ss_b);
    let beta_event = match out_b {
        ReconcileOutcome::Synced { event_id } => event_id,
        other => panic!("pass did not sync: {:?}", other),
    };
    assert_ne!(beta_event, alpha_event);
    let beta_row = db.events.iter().find(|e| e.id == beta_event).unwrap();
    assert_eq!(beta_row.series_id, alpha_series);
    // No new series was allocated.
    assert_eq!(db.series.len(), 1);
}

#[test]
fn normalization_helpers_read_tags_and_seats() {
    let tags = vec![
        Tag { code: "zurich".to_string(), value: "city".to_string(), tag_type: "location".to_string() },
    ];
    assert!(!is_online_from_tags(&tags));
    let tags = vec![
        Tag { code: "online".to_string(), value: "Online".to_string(), tag_type: "location".to_string() },
    ];
    assert!(is_online_from_tags(&tags));
    assert_eq!(free_spots_of(3), 3);
    assert_eq!(free_spots_of(-2), 0);
}
