//! Scheduling the next session of a series: resolve the latest event, decide
//! between a direct "continue session" call on the native source and a
//! migration of a legacy series, and build the exact request bodies.

use vstd::prelude::*;

use crate::errors::Error;
use crate::model::{Database, EventSeriesId};
use crate::swissrpg::{MigrateEventRequest, ScheduleSessionRequest};
use crate::text::{dec_rep, parse_u64, u64_to_string};
use crate::timeutil::{format_utc_minutes, utc_minutes_rep};

verus! {

/// The fixed default duration of a newly scheduled session, in minutes.
pub const DEFAULT_SESSION_DURATION_MINUTES: i32 = 240;

/// What the flow decided to do against the native source.
#[derive(Debug)]
pub enum SchedulePlan {
    /// The series already lives on the native source (or carries a legacy
    /// link to it): one "continue session" call on that series.
    ScheduleOnNative { series_uuid: String, request: ScheduleSessionRequest },
    /// The series must first be migrated; the "continue session" call then
    /// targets the series the migration returns.
    MigrateThenSchedule { migrate: MigrateEventRequest, request: ScheduleSessionRequest },
}

/// Why no plan could be made.
#[derive(PartialEq, Eq, Structural, Debug, Clone, Copy)]
pub enum ScheduleError {
    /// The series has no event to schedule a follow-up for.
    NoExistingEvent,
    /// The latest event is bound to neither source.
    UnknownSource,
    /// The latest event lives on the native source but the series carries no
    /// native series identity.
    MissingNativeSeries,
}

/// Event `i` is the latest event of series `s`: no event of the series
/// starts later.
pub open spec fn is_latest_in_series(db: Database, s: int, i: int) -> bool {
    &&& 0 <= i < db.events@.len()
    &&& db.events@[i].series_id == s
    &&& forall|j: int|
        0 <= j < db.events@.len() && (#[trigger] db.events@[j]).series_id == s
            ==> db.events@[j].start_time <= db.events@[i].start_time
}

/// The series has at least one event.
pub open spec fn series_has_event(db: Database, s: int) -> bool {
    exists|i: int| 0 <= i < db.events@.len() && (#[trigger] db.events@[i]).series_id == s
}

/// Some native binding names event `e`.
pub open spec fn sw_bound_event(db: Database, e: int) -> bool {
    exists|i: int|
        0 <= i < db.swissrpg_events@.len() && (#[trigger] db.swissrpg_events@[i]).event_id == e
}

/// Some legacy binding names event `e`.
pub open spec fn mu_bound_event(db: Database, e: int) -> bool {
    exists|i: int|
        0 <= i < db.meetup_events@.len() && (#[trigger] db.meetup_events@[i]).event_id == e
}

/// Series `s` carries the native legacy link `u`.
pub open spec fn series_linked(db: Database, s: int, u: Seq<char>) -> bool {
    exists|i: int|
        0 <= i < db.series@.len() && (#[trigger] db.series@[i]).id == s
            && (db.series@[i].swissrpg_series_id matches Some(link) && link@ == u)
}

/// Series `s` carries no native legacy link.
pub open spec fn series_unlinked(db: Database, s: int) -> bool {
    exists|i: int|
        0 <= i < db.series@.len() && (#[trigger] db.series@[i]).id == s
            && db.series@[i].swissrpg_series_id is None
}

/// The string names the identifier of some host of event `e`.
pub open spec fn names_a_host(s: Seq<char>, db: Database, e: int) -> bool {
    exists|d: u64| s == dec_rep(d as int) && db.is_host(e, d)
}

/// The string names the identifier of some participant of event `e`.
pub open spec fn names_a_participant(s: Seq<char>, db: Database, e: int) -> bool {
    exists|d: u64| s == dec_rep(d as int) && db.is_participant(e, d)
}

/// The identifier `d` is written among the strings.
pub open spec fn covered_id(strs: Seq<String>, d: u64) -> bool {
    exists|k: int| 0 <= k < strs.len() && (#[trigger] strs[k])@ == dec_rep(d as int)
}

/// The strings are exactly the identifiers of the hosts of `e`.
pub open spec fn mirrors_hosts(db: Database, e: int, strs: Seq<String>) -> bool {
    &&& forall|k: int| 0 <= k < strs.len() ==> names_a_host((#[trigger] strs[k])@, db, e)
    &&& forall|d: u64| db.is_host(e, d) ==> covered_id(strs, d)
}

/// The strings are exactly the identifiers of the participants of `e`.
pub open spec fn mirrors_participants(db: Database, e: int, strs: Seq<String>) -> bool {
    &&& forall|k: int| 0 <= k < strs.len() ==> names_a_participant((#[trigger] strs[k])@, db, e)
    &&& forall|d: u64| db.is_participant(e, d) ==> covered_id(strs, d)
}

/// Index of an event of the series with the greatest start time, if any.
pub fn find_latest_event(db: &Database, s: i32) -> (r: Option<usize>)
    ensures
        match r {
            Some(i) => is_latest_in_series(*db, s as int, i as int),
            None => !series_has_event(*db, s as int),
        },
{
    let n = db.events.len();
    let mut best: Option<usize> = None;
    let mut i: usize = 0;
    while i < n
        invariant
            n == db.events@.len(),
            0 <= i <= n,
            match best {
                Some(b) => b < i && db.events@[b as int].series_id == s && forall|j: int|
                    0 <= j < i && (#[trigger] db.events@[j]).series_id == s
                        ==> db.events@[j].start_time <= db.events@[b as int].start_time,
                None => forall|j: int|
                    0 <= j < i ==> (#[trigger] db.events@[j]).series_id != s,
            },
        decreases n - i,
    {
        if db.events[i].series_id == s {
            match best {
                Some(b) => {
                    if db.events[i].start_time > db.events[b].start_time {
                        best = Some(i);
                    }
                },
                None => {
                    best = Some(i);
                },
            }
        }
        i = i + 1;
    }
    best
}

/// The continue-session request for the chosen date: the formatted start,
/// the fixed default duration, players carried over.
pub fn build_session_request(date_time: i64) -> (r: ScheduleSessionRequest)
    ensures
        r.start@ == utc_minutes_rep(date_time),
        r.duration == DEFAULT_SESSION_DURATION_MINUTES,
        r.include_players == true,
{
    ScheduleSessionRequest {
        start: format_utc_minutes(date_time),
        duration: DEFAULT_SESSION_DURATION_MINUTES,
        include_players: true,
    }
}

/// The identifiers of the hosts of event `e`, written in decimal, one per
/// member that carries one.
fn host_id_strings(db: &Database, e: i32) -> (r: Vec<String>)
    requires
        db.wf(),
    ensures
        mirrors_hosts(*db, e as int, r@),
{
    let mut out: Vec<String> = Vec::new();
    let n = db.hosts.len();
    let mut i: usize = 0;
    while i < n
        invariant
            db.wf(),
            n == db.hosts@.len(),
            0 <= i <= n,
            forall|k: int| 0 <= k < out@.len() ==> names_a_host((#[trigger] out@[k])@, *db, e as int),
            forall|j: int, d: u64|
                #![trigger db.member_with_discord(db.hosts@[j].member_id as int, d)]
                0 <= j < i && db.hosts@[j].event_id == e && db.member_with_discord(
                    db.hosts@[j].member_id as int,
                    d,
                ) ==> covered_id(out@, d),
        decreases n - i,
    {
        let row = db.hosts[i];
        if row.event_id == e {
            proof {
                assert(db.member_exists(row.member_id as int));
            }
            let mi = db.find_member(row.member_id).unwrap();
            match db.members[mi].discord_id {
                Some(d) => {
                    let ghost pre = out@;
                    out.push(u64_to_string(d));
                    proof {
                        assert(forall|k: int| 0 <= k < pre.len() ==> #[trigger] out@[k] == pre[k]);
                        assert(out@[pre.len() as int]@ == dec_rep(d as int));
                        assert(db.host_pair(e as int, row.member_id as int));
                        assert(db.member_with_discord(row.member_id as int, d));
                        assert(names_a_host(out@[pre.len() as int]@, *db, e as int));
                        assert(covered_id(out@, d));
                        assert forall|j: int, d2: u64|
                            #![trigger db.member_with_discord(db.hosts@[j].member_id as int, d2)]
                            0 <= j < i + 1 && db.hosts@[j].event_id == e
                                && db.member_with_discord(
                                db.hosts@[j].member_id as int,
                                d2,
                            ) implies covered_id(out@, d2) by {
                            if j < i {
                                assert(covered_id(pre, d2));
                                let k = choose|k: int|
                                    0 <= k < pre.len() && (#[trigger] pre[k])@ == dec_rep(d2 as int);
                                assert(out@[k]@ == dec_rep(d2 as int));
                            } else {
                                crate::model::lemma_member_discord_unique(
                                    *db,
                                    row.member_id as int,
                                    d2,
                                    row.member_id as int,
                                    d,
                                );
                            }
                        }
                    }
                },
                None => {
                    proof {
                        assert forall|j: int, d2: u64|
                            #![trigger db.member_with_discord(db.hosts@[j].member_id as int, d2)]
                            0 <= j < i + 1 && db.hosts@[j].event_id == e
                                && db.member_with_discord(
                                db.hosts@[j].member_id as int,
                                d2,
                            ) implies covered_id(out@, d2) by {
                            if j == i as int {
                                let w = choose|w: int|
                                    0 <= w < db.members@.len() && (#[trigger] db.members@[w]).id
                                        == row.member_id && db.members@[w].discord_id == Some(d2);
                                if w != mi as int {
                                    assert(db.members@[w].id != db.members@[mi as int].id);
                                }
                            }
                        }
                    }
                },
            }
        }
        i = i + 1;
    }
    proof {
        assert forall|d: u64| db.is_host(e as int, d) implies covered_id(out@, d) by {
            let m = choose|m: int| db.host_pair(e as int, m) && db.member_with_discord(m, d);
            let j = choose|j: int|
                0 <= j < db.hosts@.len() && (#[trigger] db.hosts@[j]).event_id == e as int
                    && db.hosts@[j].member_id == m;
        }
    }
    out
}

/// The identifiers of the participants of event `e`, written in decimal.
fn participant_id_strings(db: &Database, e: i32) -> (r: Vec<String>)
    requires
        db.wf(),
    ensures
        mirrors_participants(*db, e as int, r@),
{
    let mut out: Vec<String> = Vec::new();
    let n = db.participants.len();
    let mut i: usize = 0;
    while i < n
        invariant
            db.wf(),
            n == db.participants@.len(),
            0 <= i <= n,
            forall|k: int|
                0 <= k < out@.len() ==> names_a_participant((#[trigger] out@[k])@, *db, e as int),
            forall|j: int, d: u64|
                #![trigger db.member_with_discord(db.participants@[j].member_id as int, d)]
                0 <= j < i && db.participants@[j].event_id == e && db.member_with_discord(
                    db.participants@[j].member_id as int,
                    d,
                ) ==> covered_id(out@, d),
        decreases n - i,
    {
        let row = db.participants[i];
        if row.event_id == e {
            proof {
                assert(db.member_exists(row.member_id as int));
            }
            let mi = db.find_member(row.member_id).unwrap();
            match db.members[mi].discord_id {
                Some(d) => {
                    let ghost pre = out@;
                    out.push(u64_to_string(d));
                    proof {
                        assert(forall|k: int| 0 <= k < pre.len() ==> #[trigger] out@[k] == pre[k]);
                        assert(out@[pre.len() as int]@ == dec_rep(d as int));
                        assert(db.participant_pair(e as int, row.member_id as int));
                        assert(db.member_with_discord(row.member_id as int, d));
                        assert(names_a_participant(out@[pre.len() as int]@, *db, e as int));
                        assert(covered_id(out@, d));
                        assert forall|j: int, d2: u64|
                            #![trigger db.member_with_discord(db.participants@[j].member_id as int, d2)]
                            0 <= j < i + 1 && db.participants@[j].event_id == e
                                && db.member_with_discord(
                                db.participants@[j].member_id as int,
                                d2,
                            ) implies covered_id(out@, d2) by {
                            if j < i {
                                assert(covered_id(pre, d2));
                                let k = choose|k: int|
                                    0 <= k < pre.len() && (#[trigger] pre[k])@ == dec_rep(d2 as int);
                                assert(out@[k]@ == dec_rep(d2 as int));
                            } else {
                                crate::model::lemma_member_discord_unique(
                                    *db,
                                    row.member_id as int,
                                    d2,
                                    row.member_id as int,
                                    d,
                                );
                            }
                        }
                    }
                },
                None => {
                    proof {
                        assert forall|j: int, d2: u64|
                            #![trigger db.member_with_discord(db.participants@[j].member_id as int, d2)]
                            0 <= j < i + 1 && db.participants@[j].event_id == e
                                && db.member_with_discord(
                                db.participants@[j].member_id as int,
                                d2,
                            ) implies covered_id(out@, d2) by {
                            if j == i as int {
                                let w = choose|w: int|
                                    0 <= w < db.members@.len() && (#[trigger] db.members@[w]).id
                                        == row.member_id && db.members@[w].discord_id == Some(d2);
                                if w != mi as int {
                                    assert(db.members@[w].id != db.members@[mi as int].id);
                                }
                            }
                        }
                    }
                },
            }
        }
        i = i + 1;
    }
    proof {
        assert forall|d: u64| db.is_participant(e as int, d) implies covered_id(out@, d) by {
            let m = choose|m: int| db.participant_pair(e as int, m) && db.member_with_discord(m, d);
            let j = choose|j: int|
                0 <= j < db.participants@.len() && (#[trigger] db.participants@[j]).event_id == e
                    as int && db.participants@[j].member_id == m;
        }
    }
    out
}

/// The legacy identifier carried into a migration: the decimal value of the
/// legacy event id when it fits a signed 64-bit number, and 0 otherwise.
pub open spec fn migrate_legacy_id(mid: Seq<char>) -> int {
    if mid.len() > 0 && crate::text::all_digits(mid) && crate::text::digits_value(mid)
        <= i64::MAX {
        crate::text::digits_value(mid)
    } else {
        0
    }
}

/// Decides how to schedule the next session of a series, per the resolution
/// order: an event on the native source, or a legacy-linked series, is
/// continued directly; a legacy series without a link is migrated first.
pub fn plan_schedule(db: &Database, series: EventSeriesId, date_time: i64) -> (r: Result<
    SchedulePlan,
    ScheduleError,
>)
    requires
        db.wf(),
    ensures
        (r is Err && r->Err_0 == ScheduleError::NoExistingEvent) <==> !series_has_event(
            *db,
            series.0 as int,
        ),
        series_has_event(*db, series.0 as int) ==> exists|i: int|
            {
                &&& #[trigger] is_latest_in_series(*db, series.0 as int, i)
                &&& match r {
                    Result::Ok(plan) => match plan {
                        SchedulePlan::ScheduleOnNative { series_uuid, request } => {
                            &&& series_linked(*db, series.0 as int, series_uuid@)
                            &&& sw_bound_event(*db, db.events@[i].id as int) || mu_bound_event(
                                *db,
                                db.events@[i].id as int,
                            )
                            &&& request.start@ == utc_minutes_rep(date_time)
                            &&& request.duration == DEFAULT_SESSION_DURATION_MINUTES
                            &&& request.include_players == true
                        },
                        SchedulePlan::MigrateThenSchedule { migrate, request } => {
                            &&& !sw_bound_event(*db, db.events@[i].id as int)
                            &&& mu_bound_event(*db, db.events@[i].id as int)
                            &&& series_unlinked(*db, series.0 as int)
                            &&& migrate.title@ == db.events@[i].title@
                            &&& migrate.start@ == utc_minutes_rep(db.events@[i].start_time)
                            &&& mirrors_hosts(*db, db.events@[i].id as int, migrate.organisers@)
                            &&& mirrors_participants(
                                *db,
                                db.events@[i].id as int,
                                migrate.attendees@,
                            )
                            &&& crate::reconcile::opt_string_eq(
                                migrate.description,
                                db.events@[i].description,
                            )
                            &&& exists|b: int|
                                0 <= b < db.meetup_events@.len() && (
                                #[trigger] db.meetup_events@[b]).event_id == db.events@[i].id
                                    && migrate.legacy_id as int == migrate_legacy_id(
                                    db.meetup_events@[b].meetup_id@,
                                )
                            &&& migrate.end is None
                            &&& request.start@ == utc_minutes_rep(date_time)
                            &&& request.duration == DEFAULT_SESSION_DURATION_MINUTES
                            &&& request.include_players == true
                        },
                    },
                    Result::Err(e) => match e {
                        ScheduleError::NoExistingEvent => false,
                        ScheduleError::UnknownSource => !sw_bound_event(
                            *db,
                            db.events@[i].id as int,
                        ) && !mu_bound_event(*db, db.events@[i].id as int),
                        ScheduleError::MissingNativeSeries => sw_bound_event(
                            *db,
                            db.events@[i].id as int,
                        ) && series_unlinked(*db, series.0 as int),
                    },
                }
            },
{
    let li = match find_latest_event(db, series.0) {
        Some(li) => li,
        None => {
            return Err(ScheduleError::NoExistingEvent);
        },
    };
    let event_id = db.events[li].id;
    let sw = db.find_sw_binding_for_event(event_id);
    let mu = db.find_mu_binding_for_event(event_id);
    let si = match db.find_series(series.0) {
        Some(si) => si,
        None => {
            proof {
                assert(db.series_exists(db.events@[li as int].series_id as int));
                assert(false);
            }
            return Err(ScheduleError::UnknownSource);
        },
    };
    let link: Option<String> = match &db.series[si].swissrpg_series_id {
        Some(u) => Some(u.clone()),
        None => None,
    };
    if sw.is_none() && mu.is_none() {
        return Err(ScheduleError::UnknownSource);
    }
    match link {
        Some(uuid) => {
            proof {
                assert(series_linked(*db, series.0 as int, uuid@));
            }
            Ok(SchedulePlan::ScheduleOnNative {
                series_uuid: uuid,
                request: build_session_request(date_time),
            })
        },
        None => {
            proof {
                assert(series_unlinked(*db, series.0 as int));
            }
            if sw.is_some() {
                return Err(ScheduleError::MissingNativeSeries);
            }
            let mui = mu.unwrap();
            let legacy_id: i64 = match parse_u64(db.meetup_events[mui].meetup_id.as_str()) {
                Some(v) => {
                    if v <= i64::MAX as u64 {
                        v as i64
                    } else {
                        0
                    }
                },
                None => {
                    proof {
                        if crate::text::all_digits(db.meetup_events@[mui as int].meetup_id@)
                            && db.meetup_events@[mui as int].meetup_id@.len() > 0 {
                            crate::text::lemma_digits_value_nonneg(
                                db.meetup_events@[mui as int].meetup_id@,
                            );
                        }
                    }
                    0
                },
            };
            let description: Option<String> = match &db.events[li].description {
                Some(s) => Some(s.clone()),
                None => None,
            };
            let migrate = MigrateEventRequest {
                title: db.events[li].title.clone(),
                start: format_utc_minutes(db.events[li].start_time),
                organisers: host_id_strings(db, event_id),
                attendees: participant_id_strings(db, event_id),
                legacy_id,
                description,
                end: None,
            };
            Ok(SchedulePlan::MigrateThenSchedule {
                migrate,
                request: build_session_request(date_time),
            })
        },
    }
}

/// The largest duration a submitted form may ask for, in minutes.
pub const MAX_SESSION_DURATION_MINUTES: u16 = 720;

/// The number a submitted form field denotes, when it is a decimal string
/// whose value is at most `max`.
pub open spec fn form_number(s: Seq<char>, max: int) -> Option<int> {
    if s.len() > 0 && crate::text::all_digits(s) && 0 <= crate::text::digits_value(s) <= max {
        Some(crate::text::digits_value(s))
    } else {
        None
    }
}

/// The duration a submitted form denotes: the requested minutes capped at
/// the maximum, and the default where the field is absent or unreadable.
pub open spec fn form_duration(duration: Option<Seq<char>>) -> int {
    match duration {
        Option::None => DEFAULT_SESSION_DURATION_MINUTES as int,
        Option::Some(s) => {
            if s.len() > 0 && crate::text::all_digits(s) && crate::text::digits_value(s)
                <= u16::MAX {
                if crate::text::digits_value(s) <= MAX_SESSION_DURATION_MINUTES as int {
                    crate::text::digits_value(s)
                } else {
                    MAX_SESSION_DURATION_MINUTES as int
                }
            } else {
                DEFAULT_SESSION_DURATION_MINUTES as int
            }
        },
    }
}

/// Normalizes a submitted scheduling form into one timezone-aware timestamp
/// and a duration: the civil fields are read as decimal numbers, interpreted
/// on the region's wall clock DST-aware, and rejected when the reading does
/// not exist or is ambiguous.
pub fn normalize_schedule_form(
    year: &str,
    month: &str,
    day: &str,
    hour: &str,
    minute: &str,
    duration: Option<&str>,
) -> (r: Result<(i64, u16), Error>)
    ensures
        r is Ok <==> {
            &&& form_number(year@, i32::MAX as int) is Some
            &&& form_number(month@, u32::MAX as int) is Some
            &&& form_number(day@, u32::MAX as int) is Some
            &&& form_number(hour@, u32::MAX as int) is Some
            &&& form_number(minute@, u32::MAX as int) is Some
            &&& crate::timeutil::zurich_utc_of(
                form_number(year@, i32::MAX as int)->0,
                form_number(month@, u32::MAX as int)->0,
                form_number(day@, u32::MAX as int)->0,
                form_number(hour@, u32::MAX as int)->0,
                form_number(minute@, u32::MAX as int)->0,
            ) is Some
        },
        r matches Ok(p) ==> {
            &&& p.0 == crate::timeutil::zurich_utc_of(
                form_number(year@, i32::MAX as int)->0,
                form_number(month@, u32::MAX as int)->0,
                form_number(day@, u32::MAX as int)->0,
                form_number(hour@, u32::MAX as int)->0,
                form_number(minute@, u32::MAX as int)->0,
            )->0
            &&& p.1 == form_duration(match duration {
                Option::Some(s) => Some(s@),
                Option::None => None,
            })
        },
{
    let dur: u16 = match duration {
        None => DEFAULT_SESSION_DURATION_MINUTES as u16,
        Some(s) => match parse_u64(s) {
            Some(v) => {
                if v > u16::MAX as u64 {
                    DEFAULT_SESSION_DURATION_MINUTES as u16
                } else if v as u16 > MAX_SESSION_DURATION_MINUTES {
                    MAX_SESSION_DURATION_MINUTES
                } else {
                    v as u16
                }
            },
            None => DEFAULT_SESSION_DURATION_MINUTES as u16,
        },
    };
    let y = match parse_form_number(year, i32::MAX as u64) {
        Some(v) => v as i32,
        None => {
            return Err(Error::Validation("the submitted date has an invalid format".to_owned()));
        },
    };
    let mo = match parse_form_number(month, u32::MAX as u64) {
        Some(v) => v as u32,
        None => {
            return Err(Error::Validation("the submitted date has an invalid format".to_owned()));
        },
    };
    let d = match parse_form_number(day, u32::MAX as u64) {
        Some(v) => v as u32,
        None => {
            return Err(Error::Validation("the submitted date has an invalid format".to_owned()));
        },
    };
    let h = match parse_form_number(hour, u32::MAX as u64) {
        Some(v) => v as u32,
        None => {
            return Err(Error::Validation("the submitted date has an invalid format".to_owned()));
        },
    };
    let mi = match parse_form_number(minute, u32::MAX as u64) {
        Some(v) => v as u32,
        None => {
            return Err(Error::Validation("the submitted date has an invalid format".to_owned()));
        },
    };
    match crate::timeutil::zurich_local_to_utc(y, mo, d, h, mi) {
        Some(ts) => Ok((ts, dur)),
        None => Err(Error::Validation(
            "the specified time is invalid, ambiguous or non-existent".to_owned(),
        )),
    }
}

/// Reads a form field as a number of at most `max`.
fn parse_form_number(s: &str, max: u64) -> (r: Option<u64>)
    ensures
        r is Some <==> form_number(s@, max as int) is Some,
        r is Some ==> r->0 == form_number(s@, max as int)->0,
{
    match parse_u64(s) {
        Some(v) => {
            if v <= max {
                Some(v)
            } else {
                None
            }
        },
        None => {
            proof {
                if s@.len() > 0 && crate::text::all_digits(s@) {
                    crate::text::lemma_digits_value_nonneg(s@);
                }
            }
            None
        },
    }
}

/// The target of the "continue session" call once any migration has
/// returned: the plan's own series, or the newly created one.
pub fn continuation_target(plan: SchedulePlan, migrated_series_uuid: &String) -> (r: (
    String,
    ScheduleSessionRequest,
))
    ensures
        match plan {
            SchedulePlan::ScheduleOnNative { series_uuid, request } => r.0@ == series_uuid@ && r.1
                == request,
            SchedulePlan::MigrateThenSchedule { migrate, request } => r.0@
                == migrated_series_uuid@ && r.1 == request,
        },
{
    match plan {
        SchedulePlan::ScheduleOnNative { series_uuid, request } => (series_uuid, request),
        SchedulePlan::MigrateThenSchedule { migrate: _, request } => (
            migrated_series_uuid.clone(),
            request,
        ),
    }
}

/// One remote call the plan prescribes, in order.
pub enum PlannedCall {
    /// A migrate-event call.
    Migrate,
    /// A continue-session call on the given series.
    ContinueSession { series_uuid: Seq<char> },
}

/// The calls a plan makes, in order, given the series a migration returned.
pub open spec fn plan_calls(plan: SchedulePlan, migrated_uuid: Seq<char>) -> Seq<PlannedCall> {
    match plan {
        SchedulePlan::ScheduleOnNative { series_uuid, request } => seq![
            PlannedCall::ContinueSession { series_uuid: series_uuid@ },
        ],
        SchedulePlan::MigrateThenSchedule { migrate, request } => seq![
            PlannedCall::Migrate,
            PlannedCall::ContinueSession { series_uuid: migrated_uuid },
        ],
    }
}

/// Law of migration path selection: a plan for a legacy series without a
/// link issues exactly one migration, followed by exactly one continuation
/// on the series the migration returned; any other plan issues exactly one
/// continuation and no migration.
pub proof fn lemma_migration_path(plan: SchedulePlan, migrated_uuid: Seq<char>)
    ensures
        plan matches SchedulePlan::MigrateThenSchedule { .. } ==> plan_calls(plan, migrated_uuid)
            =~= seq![
            PlannedCall::Migrate,
            PlannedCall::ContinueSession { series_uuid: migrated_uuid },
        ],
        plan matches SchedulePlan::ScheduleOnNative { series_uuid, .. } ==> plan_calls(
            plan,
            migrated_uuid,
        ) =~= seq![PlannedCall::ContinueSession { series_uuid: series_uuid@ }],
{
}

} // verus!
