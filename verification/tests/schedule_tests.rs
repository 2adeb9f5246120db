use eventsync::model::{
    Database, EventRow, EventSeriesId, HostRow, MeetupEventRow, MemberRow, ParticipantRow,
    SeriesRow, SwissRpgEventRow,
};
use eventsync::schedule::{
    continuation_target, plan_schedule, SchedulePlan, ScheduleError,
    DEFAULT_SESSION_DURATION_MINUTES,
};

fn base_db() -> Database {
    let mut db = Database::new();
    db.series.push(SeriesRow {
        id: 0,
        series_type: "adventure".to_string(),
        swissrpg_series_id: None,
    });
    db.next_series_id = 1;
    db.events.push(EventRow {
        id: 0,
        series_id: 0,
        start_time: 5_000,
        title: "Night Below".to_string(),
        description: Some("desc".to_string()),
        is_online: false,
        discord_category_id: None,
    });
    db.events.push(EventRow {
        id: 1,
        series_id: 0,
        start_time: 9_000,
        title: "Night Below Session 2".to_string(),
        description: None,
        is_online: false,
        discord_category_id: None,
    });
    db.next_event_id = 2;
    db.members.push(MemberRow { id: 0, discord_id: Some(111), discord_nick: None });
    db.members.push(MemberRow { id: 1, discord_id: Some(999), discord_nick: None });
    db.next_member_id = 2;
    db.hosts.push(HostRow { event_id: 1, member_id: 1 });
    db.participants.push(ParticipantRow { event_id: 1, member_id: 0 });
    db
}

#[test]
fn legacy_series_without_link_is_migrated_then_continued() {
    let mut db = base_db();
    db.meetup_events.push(MeetupEventRow {
        id: 0,
        event_id: 1,
        meetup_id: "776655".to_string(),
        urlname: "group".to_string(),
        url: "https://legacy.example/776655".to_string(),
    });
    db.next_binding_id = 1;

    let plan = plan_schedule(&db, EventSeriesId(0), 1_700_000_000).expect("plan");
    match &plan {
        SchedulePlan::MigrateThenSchedule { migrate, request } => {
            assert_eq!(migrate.title, "Night Below Session 2");
            assert_eq!(migrate.legacy_id, 776655);
            assert_eq!(migrate.organisers, vec!["999".to_string()]);
            assert_eq!(migrate.attendees, vec!["111".to_string()]);
            assert!(migrate.end.is_none());
            assert_eq!(request.duration, DEFAULT_SESSION_DURATION_MINUTES);
            assert!(request.include_players);
        },
        other => panic!("expected a migration plan, got {:?}", other),
    }

    // The continuation call targets exactly the series the migration returned.
    let migrated = "uuid-new-series".to_string();
    let (target, request) = continuation_target(plan, &migrated);
    assert_eq!(target, "uuid-new-series");
    assert_eq!(request.duration, DEFAULT_SESSION_DURATION_MINUTES);
}

#[test]
fn native_series_is_continued_without_migration() {
    let mut db = base_db();
    db.series[0].swissrpg_series_id = Some("uuid-series-b".to_string());
    db.swissrpg_events.push(SwissRpgEventRow {
        id: 0,
        event_id: 1,
        swissrpg_id: "uuid-sess".to_string(),
        url: "https://native.example/e".to_string(),
    });
    db.next_binding_id = 1;

    let plan = plan_schedule(&db, EventSeriesId(0), 1_700_000_000).expect("plan");
    match &plan {
        SchedulePlan::ScheduleOnNative { series_uuid, request } => {
            assert_eq!(series_uuid, "uuid-series-b");
            assert_eq!(request.duration, DEFAULT_SESSION_DURATION_MINUTES);
            assert!(request.include_players);
        },
        other => panic!("expected a direct plan, got {:?}", other),
    }
}

#[test]
fn linked_legacy_series_is_continued_directly() {
    let mut db = base_db();
    db.series[0].swissrpg_series_id = Some("uuid-linked".to_string());
    db.meetup_events.push(MeetupEventRow {
        id: 0,
        event_id: 1,
        meetup_id: "776655".to_string(),
        urlname: "group".to_string(),
        url: "https://legacy.example/776655".to_string(),
    });
    db.next_binding_id = 1;

    let plan = plan_schedule(&db, EventSeriesId(0), 1_700_000_000).expect("plan");
    match plan {
        SchedulePlan::ScheduleOnNative { series_uuid, .. } => {
            assert_eq!(series_uuid, "uuid-linked");
        },
        other => panic!("expected a direct plan, got {:?}", other),
    }
}

#[test]
fn series_without_events_cannot_be_scheduled() {
    let db = Database::new();
    let err = plan_schedule(&db, EventSeriesId(0), 1_700_000_000).unwrap_err();
    assert_eq!(err, ScheduleError::NoExistingEvent);
}

#[test]
fn native_event_without_link_is_an_error() {
    let mut db = base_db();
    db.swissrpg_events.push(SwissRpgEventRow {
        id: 0,
        event_id: 1,
        swissrpg_id: "uuid-sess".to_string(),
        url: "https://native.example/e".to_string(),
    });
    db.next_binding_id = 1;

    let err = plan_schedule(&db, EventSeriesId(0), 1_700_000_000).unwrap_err();
    assert_eq!(err, ScheduleError::MissingNativeSeries);
}

#[test]
fn unbound_event_is_an_error() {
    let db = base_db();
    let err = plan_schedule(&db, EventSeriesId(0), 1_700_000_000).unwrap_err();
    assert_eq!(err, ScheduleError::UnknownSource);
}

#[test]
fn normalizes_a_submitted_form() {
    let (ts, duration) =
        eventsync::schedule::normalize_schedule_form("2021", "6", "1", "12", "0", Some("150"))
            .expect("a valid form");
    assert_eq!(ts, 1_622_541_600);
    assert_eq!(duration, 150);
}

#[test]
fn form_duration_defaults_and_caps() {
    let (_, d) = eventsync::schedule::normalize_schedule_form("2021", "6", "1", "12", "0", None)
        .expect("valid");
    assert_eq!(d, 240);
    let (_, d) =
        eventsync::schedule::normalize_schedule_form("2021", "6", "1", "12", "0", Some("junk"))
            .expect("valid");
    assert_eq!(d, 240);
    let (_, d) =
        eventsync::schedule::normalize_schedule_form("2021", "6", "1", "12", "0", Some("9999"))
            .expect("valid");
    assert_eq!(d, 720);
}

#[test]
fn malformed_forms_are_rejected() {
    assert!(eventsync::schedule::normalize_schedule_form("20x1", "6", "1", "12", "0", None).is_err());
    assert!(eventsync::schedule::normalize_schedule_form("2021", "13", "40", "12", "0", None).is_err());
    assert!(
        eventsync::schedule::normalize_schedule_form("2021", "10", "31", "2", "30", None).is_err()
    );
}
