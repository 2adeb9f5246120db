//! Normalized data reported by the legacy source: users, groups, events and
//! RSVPs, with the pure decision logic around them (status parsing,
//! yes-RSVP filtering, and the bookkeeping of an RSVP-cloning pass).

use vstd::prelude::*;

use crate::errors::Error;
use crate::text::str_eq;

verus! {

/// A user's avatar.
#[derive(Debug, Clone)]
pub struct Photo {
    pub thumb_link: String,
}

/// A user's standing within one group.
#[derive(Debug, Clone, Copy)]
pub struct GroupProfile {
    pub role: Option<LeadershipRole>,
    pub status: UserStatus,
}

/// A person on the legacy source.
#[derive(Debug, Clone)]
pub struct User {
    pub id: u64,
    pub name: String,
    pub photo: Option<Photo>,
    pub group_profile: Option<GroupProfile>,
}

/// A group on the legacy source.
#[derive(Debug, Clone)]
pub struct Group {
    pub urlname: String,
}

/// A member's status within a group.
#[derive(Debug, Copy, Clone, PartialEq, Eq, Structural)]
pub enum UserStatus {
    /// The person is not a member of the group.
    NoStatus,
    Pending,
    PendingPayment,
    Active,
    Blocked,
}

/// A member's leadership role within a group.
#[derive(Debug, Copy, Clone, PartialEq, Eq, Structural)]
pub enum LeadershipRole {
    AssistantOrganizer,
    Coorganizer,
    EventOrganizer,
    Organizer,
}

/// Status and role as reported for one member.
#[derive(Debug, Clone)]
pub struct UserInfo {
    pub status: UserStatus,
    pub role: Option<String>,
}

/// A member's answer to an event.
#[derive(Debug, Copy, Clone, PartialEq, Eq, Structural)]
pub enum RSVPResponse {
    Yes,
    No,
    Waitlist,
}

/// One RSVP to an event.
#[derive(Debug, Clone)]
pub struct RSVP {
    pub member: User,
    pub response: RSVPResponse,
}

/// An upcoming event as reported by the legacy source.
#[derive(Debug, Clone)]
pub struct Event {
    pub id: String,
    pub name: String,
    /// Start time, Unix seconds.
    pub time: i64,
    pub event_hosts: Vec<User>,
    pub link: String,
    pub group: Group,
    pub description: String,
}

/// The body of a session about to be published as a continuation.
#[derive(Debug, Clone)]
pub struct NewEvent {
    pub title: String,
    pub description: String,
    /// Start time, Unix seconds.
    pub start_time: i64,
}

/// An equal copy of a reported user.
pub fn clone_user(u: &User) -> (c: User)
    ensures
        c == *u,
{
    User {
        id: u.id,
        name: u.name.clone(),
        photo: match &u.photo {
            Some(p) => Some(Photo { thumb_link: p.thumb_link.clone() }),
            None => None,
        },
        group_profile: u.group_profile,
    }
}

/// An equal copy of a reported RSVP.
pub fn clone_rsvp(r: &RSVP) -> (c: RSVP)
    ensures
        c == *r,
{
    RSVP { member: clone_user(&r.member), response: r.response }
}

/// The status a reported word denotes, if any.
pub open spec fn spec_user_status(s: Seq<char>) -> Option<UserStatus> {
    if s == "none"@ {
        Some(UserStatus::NoStatus)
    } else if s == "pending"@ {
        Some(UserStatus::Pending)
    } else if s == "pending_payment"@ {
        Some(UserStatus::PendingPayment)
    } else if s == "active"@ {
        Some(UserStatus::Active)
    } else if s == "blocked"@ {
        Some(UserStatus::Blocked)
    } else {
        None
    }
}

/// Reads a reported member status; an unknown word is rejected.
pub fn parse_user_status(s: &str) -> (r: Option<UserStatus>)
    ensures
        r == spec_user_status(s@),
{
    if str_eq(s, "none") {
        Some(UserStatus::NoStatus)
    } else if str_eq(s, "pending") {
        Some(UserStatus::Pending)
    } else if str_eq(s, "pending_payment") {
        Some(UserStatus::PendingPayment)
    } else if str_eq(s, "active") {
        Some(UserStatus::Active)
    } else if str_eq(s, "blocked") {
        Some(UserStatus::Blocked)
    } else {
        None
    }
}

/// The leadership role a reported word denotes, if any.
pub open spec fn spec_leadership_role(s: Seq<char>) -> Option<LeadershipRole> {
    if s == "assistant_organizer"@ {
        Some(LeadershipRole::AssistantOrganizer)
    } else if s == "coorganizer"@ {
        Some(LeadershipRole::Coorganizer)
    } else if s == "event_organizer"@ {
        Some(LeadershipRole::EventOrganizer)
    } else if s == "organizer"@ {
        Some(LeadershipRole::Organizer)
    } else {
        None
    }
}

/// Reads a reported leadership role; an unknown word is rejected.
pub fn parse_leadership_role(s: &str) -> (r: Option<LeadershipRole>)
    ensures
        r == spec_leadership_role(s@),
{
    if str_eq(s, "assistant_organizer") {
        Some(LeadershipRole::AssistantOrganizer)
    } else if str_eq(s, "coorganizer") {
        Some(LeadershipRole::Coorganizer)
    } else if str_eq(s, "event_organizer") {
        Some(LeadershipRole::EventOrganizer)
    } else if str_eq(s, "organizer") {
        Some(LeadershipRole::Organizer)
    } else {
        None
    }
}

/// The RSVP answer a reported word denotes, if any.
pub open spec fn spec_rsvp_response(s: Seq<char>) -> Option<RSVPResponse> {
    if s == "yes"@ {
        Some(RSVPResponse::Yes)
    } else if s == "no"@ {
        Some(RSVPResponse::No)
    } else if s == "waitlist"@ {
        Some(RSVPResponse::Waitlist)
    } else {
        None
    }
}

/// Reads a reported RSVP answer; an unknown word is rejected.
pub fn parse_rsvp_response(s: &str) -> (r: Option<RSVPResponse>)
    ensures
        r == spec_rsvp_response(s@),
{
    if str_eq(s, "yes") {
        Some(RSVPResponse::Yes)
    } else if str_eq(s, "no") {
        Some(RSVPResponse::No)
    } else if str_eq(s, "waitlist") {
        Some(RSVPResponse::Waitlist)
    } else {
        None
    }
}

/// Keeps exactly the RSVPs whose answer is yes, in order.
pub fn filter_yes_rsvps(rsvps: Vec<RSVP>) -> (r: Vec<RSVP>)
    ensures
        r@ == rsvps@.filter(|x: RSVP| x.response == RSVPResponse::Yes),
{
    let ghost all = rsvps@;
    let mut out: Vec<RSVP> = Vec::new();
    let n = rsvps.len();
    let mut i: usize = 0;
    while i < n
        invariant
            n == all.len(),
            rsvps@ == all,
            0 <= i <= n,
            out@ == all.take(i as int).filter(|x: RSVP| x.response == RSVPResponse::Yes),
        decreases n - i,
    {
        let yes = match rsvps[i].response {
            RSVPResponse::Yes => true,
            _ => false,
        };
        proof {
            reveal(Seq::filter);
            assert(all.take(i as int + 1).drop_last() =~= all.take(i as int));
            assert(all.take(i as int + 1).last() == all[i as int]);
        }
        if yes {
            out.push(clone_rsvp(&rsvps[i]));
            proof {
                assert(out@ =~= all.take(i as int + 1).filter(
                    |x: RSVP| x.response == RSVPResponse::Yes,
                ));
            }
        }
        i = i + 1;
    }
    proof {
        assert(all.take(n as int) =~= all);
    }
    out
}

/// The outcome of cloning RSVPs from one event to another, member by member.
#[derive(Debug)]
pub struct CloneRSVPResult {
    pub cloned_rsvps: Vec<RSVP>,
    pub num_success: u16,
    pub num_failure: u16,
    pub latest_error: Option<Error>,
}

impl CloneRSVPResult {
    /// An empty tally.
    pub fn new() -> (r: CloneRSVPResult)
        ensures
            r.cloned_rsvps@.len() == 0,
            r.num_success == 0,
            r.num_failure == 0,
            r.latest_error is None,
    {
        CloneRSVPResult { cloned_rsvps: Vec::new(), num_success: 0, num_failure: 0, latest_error: None }
    }

    /// Records one member's cloning outcome: a success appends the new RSVP,
    /// a failure is counted and remembered, and the pass continues.
    pub fn record(&mut self, outcome: Result<RSVP, Error>)
        requires
            old(self).num_success < u16::MAX,
            old(self).num_failure < u16::MAX,
        ensures
            match outcome {
                Result::Ok(rsvp) => {
                    &&& final(self).cloned_rsvps@ == old(self).cloned_rsvps@.push(rsvp)
                    &&& final(self).num_success == old(self).num_success + 1
                    &&& final(self).num_failure == old(self).num_failure
                    &&& final(self).latest_error == old(self).latest_error
                },
                Result::Err(err) => {
                    &&& final(self).cloned_rsvps@ == old(self).cloned_rsvps@
                    &&& final(self).num_success == old(self).num_success
                    &&& final(self).num_failure == old(self).num_failure + 1
                    &&& final(self).latest_error == Some(err)
                },
            },
    {
        match outcome {
            Ok(rsvp) => {
                self.cloned_rsvps.push(rsvp);
                self.num_success = self.num_success + 1;
            },
            Err(err) => {
                self.num_failure = self.num_failure + 1;
                self.latest_error = Some(err);
            },
        }
    }
}

} // verus!
