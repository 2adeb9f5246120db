//! Normalized payloads reported by the native source: an event series with
//! its sessions, attendees and organisers, plus the request bodies the
//! source's API takes for scheduling and migration.
//!
//! External identifiers are carried as plain strings (the source uses UUID
//! strings); times are carried as Unix timestamps in seconds.

use vstd::prelude::*;

use crate::text::{all_digits, digits_value};

verus! {

/// A person as reported by the source: an external chat-platform identifier
/// (a decimal string) and a display name.
#[derive(Debug, Clone)]
pub struct User {
    pub discord_id: String,
    pub username: String,
}

/// A classification tag on an event series.
#[derive(Debug, Clone)]
pub struct Tag {
    pub code: String,
    pub value: String,
    pub tag_type: String,
}

/// One session of an event series.
#[derive(Debug, Clone)]
pub struct Session {
    pub uuid: String,
    pub number: i32,
    /// Start time, Unix seconds.
    pub start: i64,
    pub attendees: Vec<User>,
    pub rsvp_open: bool,
    pub open_seats: i32,
}

/// An event series with its current and upcoming sessions.
#[derive(Debug, Clone)]
pub struct Event {
    pub uuid: String,
    pub title: String,
    pub organisers: Vec<User>,
    pub description: Option<String>,
    pub current_session: Option<Session>,
    pub upcoming_sessions: Vec<Session>,
    /// The identifier of the legacy event on the other source that this
    /// series continues, when the source indicates one.
    pub legacy_id: Option<u64>,
    pub tags: Vec<Tag>,
    pub public_url: String,
}

/// Request body for migrating a legacy event into a new series on this
/// source.
#[derive(Debug, Clone)]
pub struct MigrateEventRequest {
    pub title: String,
    /// `YYYY-MM-DD HH:MM`
    pub start: String,
    pub organisers: Vec<String>,
    pub attendees: Vec<String>,
    pub legacy_id: i64,
    pub description: Option<String>,
    /// `YYYY-MM-DD HH:MM`
    pub end: Option<String>,
}

/// Request body for scheduling the next session of a series.
#[derive(Debug, Clone)]
pub struct ScheduleSessionRequest {
    /// `YYYY-MM-DD HH:MM`
    pub start: String,
    /// Duration in minutes.
    pub duration: i32,
    pub include_players: bool,
}

/// A generic envelope the source's API wraps responses in.
#[derive(Debug, Clone)]
pub struct ApiResponse<T> {
    pub data: T,
    pub success: bool,
    pub message: Option<String>,
}

/// Should the session be reconciled by this pass: only sessions that have
/// not started yet are.
pub fn session_is_upcoming(session: &Session, now: i64) -> (r: bool)
    ensures
        r == (session.start > now),
{
    session.start > now
}

/// The series is tagged as online: it carries a location tag whose code is
/// `online`.
pub open spec fn has_online_tag(tags: Seq<Tag>) -> bool {
    exists|i: int|
        0 <= i < tags.len() && (#[trigger] tags[i]).tag_type@ == "location"@ && tags[i].code@
            == "online"@
}

/// Does a location tag mark the series as online?
pub fn is_online_from_tags(tags: &Vec<Tag>) -> (r: bool)
    ensures
        r == has_online_tag(tags@),
{
    let n = tags.len();
    let mut i: usize = 0;
    while i < n
        invariant
            n == tags@.len(),
            0 <= i <= n,
            forall|j: int|
                0 <= j < i ==> !((#[trigger] tags@[j]).tag_type@ == "location"@ && tags@[j].code@
                    == "online"@),
        decreases n - i,
    {
        if crate::text::str_eq(tags[i].tag_type.as_str(), "location") && crate::text::str_eq(
            tags[i].code.as_str(),
            "online",
        ) {
            return true;
        }
        i = i + 1;
    }
    false
}

/// The number of free spots a session offers: its open seats, floored at
/// zero.
pub fn free_spots_of(open_seats: i32) -> (r: u32)
    ensures
        open_seats >= 0 ==> r == open_seats,
        open_seats < 0 ==> r == 0,
{
    if open_seats > 0 {
        open_seats as u32
    } else {
        0
    }
}

/// The external person identifier a reported user denotes: `Some` exactly
/// when the string is a non-empty decimal number that is positive and fits
/// 64 bits.
pub open spec fn discord_id_of(s: Seq<char>) -> Option<u64> {
    if s.len() > 0 && all_digits(s) && 0 < digits_value(s) <= u64::MAX {
        Some(digits_value(s) as u64)
    } else {
        None
    }
}

/// `d` is the valid identifier of one of the reported users.
pub open spec fn valid_id_in(users: Seq<User>, d: u64) -> bool {
    exists|k: int| 0 <= k < users.len() && discord_id_of(#[trigger] users[k].discord_id@) == Some(d)
}

/// `d` is the identifier of some attendee of the session.
pub open spec fn has_attendee(session: Session, d: u64) -> bool {
    valid_id_in(session.attendees@, d)
}

/// `d` is the identifier of some organiser of the series.
pub open spec fn has_organiser(series: Event, d: u64) -> bool {
    valid_id_in(series.organisers@, d)
}

} // verus!
