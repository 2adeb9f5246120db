//! The canonical relational model: event series, events, per-source
//! bindings, members, hosts and participants, with the invariants the
//! reconciler maintains.

use vstd::prelude::*;

verus! {

/// Identity of an event series.
#[derive(PartialEq, Eq, Structural, Clone, Copy, Debug)]
pub struct EventSeriesId(pub i32);

/// Identity of a member.
#[derive(PartialEq, Eq, Structural, Clone, Copy, Debug)]
pub struct MemberId(pub i32);

/// A recurring campaign or adventure.
#[derive(Debug, Clone)]
pub struct SeriesRow {
    pub id: i32,
    pub series_type: String,
    /// The series on the native source that continues this one, once set:
    /// the cross-source legacy link.
    pub swissrpg_series_id: Option<String>,
}

/// One canonical occurrence (a session) of a series.
#[derive(Debug, Clone)]
pub struct EventRow {
    pub id: i32,
    pub series_id: i32,
    /// Start time, Unix seconds.
    pub start_time: i64,
    pub title: String,
    pub description: Option<String>,
    pub is_online: bool,
    pub discord_category_id: Option<i64>,
}

/// Binding of a canonical event to its legacy-source representation.
#[derive(Debug, Clone)]
pub struct MeetupEventRow {
    pub id: i32,
    pub event_id: i32,
    pub meetup_id: String,
    pub urlname: String,
    pub url: String,
}

/// Binding of a canonical event to its native-source representation.
#[derive(Debug, Clone)]
pub struct SwissRpgEventRow {
    pub id: i32,
    pub event_id: i32,
    pub swissrpg_id: String,
    pub url: String,
}

/// A person, created lazily the first time they are referenced.
#[derive(Debug, Clone)]
pub struct MemberRow {
    pub id: i32,
    pub discord_id: Option<u64>,
    pub discord_nick: Option<String>,
}

/// A host relationship between an event and a member.
#[derive(PartialEq, Eq, Structural, Debug, Clone, Copy)]
pub struct HostRow {
    pub event_id: i32,
    pub member_id: i32,
}

/// A participation relationship between an event and a member.
#[derive(PartialEq, Eq, Structural, Debug, Clone, Copy)]
pub struct ParticipantRow {
    pub event_id: i32,
    pub member_id: i32,
}

/// The canonical store the reconciler converges towards remote state.
#[derive(Debug, Clone)]
pub struct Database {
    pub series: Vec<SeriesRow>,
    pub events: Vec<EventRow>,
    pub meetup_events: Vec<MeetupEventRow>,
    pub swissrpg_events: Vec<SwissRpgEventRow>,
    pub members: Vec<MemberRow>,
    pub hosts: Vec<HostRow>,
    pub participants: Vec<ParticipantRow>,
    pub next_series_id: i32,
    pub next_event_id: i32,
    pub next_binding_id: i32,
    pub next_member_id: i32,
}

impl Database {
    /// A series row with this id exists.
    pub open spec fn series_exists(self, s: int) -> bool {
        exists|i: int| 0 <= i < self.series@.len() && (#[trigger] self.series@[i]).id == s
    }

    /// An event row with this id exists.
    pub open spec fn event_exists(self, e: int) -> bool {
        exists|i: int| 0 <= i < self.events@.len() && (#[trigger] self.events@[i]).id == e
    }

    /// A member row with this id exists.
    pub open spec fn member_exists(self, m: int) -> bool {
        exists|i: int| 0 <= i < self.members@.len() && (#[trigger] self.members@[i]).id == m
    }

    /// Event `e` belongs to series `s`.
    pub open spec fn event_in_series(self, e: int, s: int) -> bool {
        exists|i: int|
            0 <= i < self.events@.len() && (#[trigger] self.events@[i]).id == e
                && self.events@[i].series_id == s
    }

    /// A native-source binding maps external id `sid` to event `e`.
    pub open spec fn binds_sw(self, sid: Seq<char>, e: int) -> bool {
        exists|i: int|
            0 <= i < self.swissrpg_events@.len() && (
            #[trigger] self.swissrpg_events@[i]).swissrpg_id@ == sid
                && self.swissrpg_events@[i].event_id == e
    }

    /// A legacy-source binding maps external id `mid` to event `e`.
    pub open spec fn binds_mu(self, mid: Seq<char>, e: int) -> bool {
        exists|i: int|
            0 <= i < self.meetup_events@.len() && (#[trigger] self.meetup_events@[i]).meetup_id@
                == mid && self.meetup_events@[i].event_id == e
    }

    /// Some event is bound to native external id `sid`.
    pub open spec fn sw_bound(self, sid: Seq<char>) -> bool {
        exists|e: int| self.binds_sw(sid, e)
    }

    /// Some event is bound to legacy external id `mid`.
    pub open spec fn mu_bound(self, mid: Seq<char>) -> bool {
        exists|e: int| self.binds_mu(mid, e)
    }

    /// The event bound to native external id `sid` belongs to series `s`.
    pub open spec fn sw_bound_series(self, sid: Seq<char>, s: int) -> bool {
        exists|e: int| self.binds_sw(sid, e) && self.event_in_series(e, s)
    }

    /// The event bound to legacy external id `mid` belongs to series `s`.
    pub open spec fn mu_bound_series(self, mid: Seq<char>, s: int) -> bool {
        exists|e: int| self.binds_mu(mid, e) && self.event_in_series(e, s)
    }

    /// Member `m` carries external person identifier `d`.
    pub open spec fn member_with_discord(self, m: int, d: u64) -> bool {
        exists|i: int|
            0 <= i < self.members@.len() && (#[trigger] self.members@[i]).id == m
                && self.members@[i].discord_id == Some(d)
    }

    /// A host row links event `e` and member `m`.
    pub open spec fn host_pair(self, e: int, m: int) -> bool {
        exists|i: int|
            0 <= i < self.hosts@.len() && (#[trigger] self.hosts@[i]).event_id == e
                && self.hosts@[i].member_id == m
    }

    /// A participant row links event `e` and member `m`.
    pub open spec fn participant_pair(self, e: int, m: int) -> bool {
        exists|i: int|
            0 <= i < self.participants@.len() && (#[trigger] self.participants@[i]).event_id == e
                && self.participants@[i].member_id == m
    }

    /// A person with identifier `d` hosts event `e`.
    pub open spec fn is_host(self, e: int, d: u64) -> bool {
        exists|m: int| self.host_pair(e, m) && self.member_with_discord(m, d)
    }

    /// A person with identifier `d` participates in event `e`.
    pub open spec fn is_participant(self, e: int, d: u64) -> bool {
        exists|m: int| self.participant_pair(e, m) && self.member_with_discord(m, d)
    }

    /// Well-formedness: unique identities, identities below the allocation
    /// counters, at most one binding per external id and per (event, source),
    /// and referential integrity of every relationship row.
    pub open spec fn wf(self) -> bool {
        &&& 0 <= self.next_series_id
        &&& 0 <= self.next_event_id
        &&& 0 <= self.next_binding_id
        &&& 0 <= self.next_member_id
        &&& forall|i: int, j: int|
            0 <= i < j < self.series@.len() ==> (#[trigger] self.series@[i]).id != (
            #[trigger] self.series@[j]).id
        &&& forall|i: int|
            0 <= i < self.series@.len() ==> 0 <= (#[trigger] self.series@[i]).id
                < self.next_series_id
        &&& forall|i: int, j: int|
            0 <= i < j < self.events@.len() ==> (#[trigger] self.events@[i]).id != (
            #[trigger] self.events@[j]).id
        &&& forall|i: int|
            0 <= i < self.events@.len() ==> 0 <= (#[trigger] self.events@[i]).id
                < self.next_event_id
        &&& forall|i: int|
            0 <= i < self.events@.len() ==> self.series_exists(
                (#[trigger] self.events@[i]).series_id as int,
            )
        &&& forall|i: int, j: int|
            0 <= i < j < self.meetup_events@.len() ==> (
            #[trigger] self.meetup_events@[i]).meetup_id@ != (
            #[trigger] self.meetup_events@[j]).meetup_id@
        &&& forall|i: int, j: int|
            0 <= i < j < self.meetup_events@.len() ==> (
            #[trigger] self.meetup_events@[i]).event_id != (
            #[trigger] self.meetup_events@[j]).event_id
        &&& forall|i: int|
            0 <= i < self.meetup_events@.len() ==> self.event_exists(
                (#[trigger] self.meetup_events@[i]).event_id as int,
            )
        &&& forall|i: int, j: int|
            0 <= i < j < self.swissrpg_events@.len() ==> (
            #[trigger] self.swissrpg_events@[i]).swissrpg_id@ != (
            #[trigger] self.swissrpg_events@[j]).swissrpg_id@
        &&& forall|i: int, j: int|
            0 <= i < j < self.swissrpg_events@.len() ==> (
            #[trigger] self.swissrpg_events@[i]).event_id != (
            #[trigger] self.swissrpg_events@[j]).event_id
        &&& forall|i: int|
            0 <= i < self.swissrpg_events@.len() ==> self.event_exists(
                (#[trigger] self.swissrpg_events@[i]).event_id as int,
            )
        &&& forall|i: int, j: int|
            0 <= i < j < self.members@.len() ==> (#[trigger] self.members@[i]).id != (
            #[trigger] self.members@[j]).id
        &&& forall|i: int|
            0 <= i < self.members@.len() ==> 0 <= (#[trigger] self.members@[i]).id
                < self.next_member_id
        &&& forall|i: int, j: int|
            0 <= i < j < self.members@.len() && (#[trigger] self.members@[i]).discord_id is Some
                && (#[trigger] self.members@[j]).discord_id is Some ==> self.members@[i].discord_id
                != self.members@[j].discord_id
        &&& forall|i: int, j: int|
            0 <= i < j < self.hosts@.len() ==> #[trigger] self.hosts@[i] != #[trigger] self.hosts@[j]
        &&& forall|i: int|
            0 <= i < self.hosts@.len() ==> self.event_exists((#[trigger] self.hosts@[i]).event_id as int)
                && self.member_exists(self.hosts@[i].member_id as int)
        &&& forall|i: int, j: int|
            0 <= i < j < self.participants@.len() ==> #[trigger] self.participants@[i]
                != #[trigger] self.participants@[j]
        &&& forall|i: int|
            0 <= i < self.participants@.len() ==> self.event_exists(
                (#[trigger] self.participants@[i]).event_id as int,
            ) && self.member_exists(self.participants@[i].member_id as int)
    }

    /// An empty store, well-formed by construction.
    pub fn new() -> (db: Database)
        ensures
            db.wf(),
            db.series@.len() == 0,
            db.events@.len() == 0,
            db.meetup_events@.len() == 0,
            db.swissrpg_events@.len() == 0,
            db.members@.len() == 0,
            db.hosts@.len() == 0,
            db.participants@.len() == 0,
            db.next_series_id == 0,
            db.next_event_id == 0,
            db.next_member_id == 0,
            db.next_binding_id == 0,
    {
        Database {
            series: Vec::new(),
            events: Vec::new(),
            meetup_events: Vec::new(),
            swissrpg_events: Vec::new(),
            members: Vec::new(),
            hosts: Vec::new(),
            participants: Vec::new(),
            next_series_id: 0,
            next_event_id: 0,
            next_binding_id: 0,
            next_member_id: 0,
        }
    }
}

impl Database {
    /// Index of the native-source binding row for `sid`, if one exists.
    pub fn find_sw_binding(&self, sid: &String) -> (r: Option<usize>)
        ensures
            match r {
                Some(i) => i < self.swissrpg_events@.len()
                    && self.swissrpg_events@[i as int].swissrpg_id@ == sid@,
                None => !self.sw_bound(sid@),
            },
    {
        let n = self.swissrpg_events.len();
        let mut i: usize = 0;
        while i < n
            invariant
                n == self.swissrpg_events@.len(),
                0 <= i <= n,
                forall|j: int|
                    0 <= j < i ==> (#[trigger] self.swissrpg_events@[j]).swissrpg_id@ != sid@,
            decreases n - i,
        {
            if self.swissrpg_events[i].swissrpg_id == *sid {
                return Some(i);
            }
            i = i + 1;
        }
        None
    }

    /// Index of the legacy-source binding row for `mid`, if one exists.
    pub fn find_mu_binding(&self, mid: &String) -> (r: Option<usize>)
        ensures
            match r {
                Some(i) => i < self.meetup_events@.len()
                    && self.meetup_events@[i as int].meetup_id@ == mid@,
                None => !self.mu_bound(mid@),
            },
    {
        let n = self.meetup_events.len();
        let mut i: usize = 0;
        while i < n
            invariant
                n == self.meetup_events@.len(),
                0 <= i <= n,
                forall|j: int| 0 <= j < i ==> (#[trigger] self.meetup_events@[j]).meetup_id@ != mid@,
            decreases n - i,
        {
            if self.meetup_events[i].meetup_id == *mid {
                return Some(i);
            }
            i = i + 1;
        }
        None
    }

    /// Index of the event row with id `e`, if one exists.
    pub fn find_event(&self, e: i32) -> (r: Option<usize>)
        ensures
            match r {
                Some(i) => i < self.events@.len() && self.events@[i as int].id == e,
                None => !self.event_exists(e as int),
            },
    {
        let n = self.events.len();
        let mut i: usize = 0;
        while i < n
            invariant
                n == self.events@.len(),
                0 <= i <= n,
                forall|j: int| 0 <= j < i ==> (#[trigger] self.events@[j]).id != e,
            decreases n - i,
        {
            if self.events[i].id == e {
                return Some(i);
            }
            i = i + 1;
        }
        None
    }

    /// Index of the series row with id `s`, if one exists.
    pub fn find_series(&self, s: i32) -> (r: Option<usize>)
        ensures
            match r {
                Some(i) => i < self.series@.len() && self.series@[i as int].id == s,
                None => !self.series_exists(s as int),
            },
    {
        let n = self.series.len();
        let mut i: usize = 0;
        while i < n
            invariant
                n == self.series@.len(),
                0 <= i <= n,
                forall|j: int| 0 <= j < i ==> (#[trigger] self.series@[j]).id != s,
            decreases n - i,
        {
            if self.series[i].id == s {
                return Some(i);
            }
            i = i + 1;
        }
        None
    }

    /// Index of the member row with id `m`, if one exists.
    pub fn find_member(&self, m: i32) -> (r: Option<usize>)
        ensures
            match r {
                Some(i) => i < self.members@.len() && self.members@[i as int].id == m,
                None => !self.member_exists(m as int),
            },
    {
        let n = self.members.len();
        let mut i: usize = 0;
        while i < n
            invariant
                n == self.members@.len(),
                0 <= i <= n,
                forall|j: int| 0 <= j < i ==> (#[trigger] self.members@[j]).id != m,
            decreases n - i,
        {
            if self.members[i].id == m {
                return Some(i);
            }
            i = i + 1;
        }
        None
    }

    /// Index of the native binding row naming event `e`, if one exists.
    pub fn find_sw_binding_for_event(&self, e: i32) -> (r: Option<usize>)
        ensures
            match r {
                Some(i) => i < self.swissrpg_events@.len()
                    && self.swissrpg_events@[i as int].event_id == e,
                None => forall|i: int|
                    0 <= i < self.swissrpg_events@.len() ==> (
                    #[trigger] self.swissrpg_events@[i]).event_id != e,
            },
    {
        let n = self.swissrpg_events.len();
        let mut i: usize = 0;
        while i < n
            invariant
                n == self.swissrpg_events@.len(),
                0 <= i <= n,
                forall|j: int|
                    0 <= j < i ==> (#[trigger] self.swissrpg_events@[j]).event_id != e,
            decreases n - i,
        {
            if self.swissrpg_events[i].event_id == e {
                return Some(i);
            }
            i = i + 1;
        }
        None
    }

    /// Index of the legacy binding row naming event `e`, if one exists.
    pub fn find_mu_binding_for_event(&self, e: i32) -> (r: Option<usize>)
        ensures
            match r {
                Some(i) => i < self.meetup_events@.len()
                    && self.meetup_events@[i as int].event_id == e,
                None => forall|i: int|
                    0 <= i < self.meetup_events@.len() ==> (
                    #[trigger] self.meetup_events@[i]).event_id != e,
            },
    {
        let n = self.meetup_events.len();
        let mut i: usize = 0;
        while i < n
            invariant
                n == self.meetup_events@.len(),
                0 <= i <= n,
                forall|j: int| 0 <= j < i ==> (#[trigger] self.meetup_events@[j]).event_id != e,
            decreases n - i,
        {
            if self.meetup_events[i].event_id == e {
                return Some(i);
            }
            i = i + 1;
        }
        None
    }

    /// Index of the member row carrying external person identifier `d`,
    /// if one exists.
    pub fn find_member_by_discord(&self, d: u64) -> (r: Option<usize>)
        ensures
            match r {
                Some(i) => i < self.members@.len() && self.members@[i as int].discord_id == Some(
                    d,
                ),
                None => forall|j: int|
                    0 <= j < self.members@.len() ==> (#[trigger] self.members@[j]).discord_id
                        != Some(d),
            },
    {
        let n = self.members.len();
        let mut i: usize = 0;
        while i < n
            invariant
                n == self.members@.len(),
                0 <= i <= n,
                forall|j: int| 0 <= j < i ==> (#[trigger] self.members@[j]).discord_id != Some(d),
            decreases n - i,
        {
            match self.members[i].discord_id {
                Some(existing) => {
                    if existing == d {
                        return Some(i);
                    }
                },
                None => {},
            }
            i = i + 1;
        }
        None
    }

    /// Looks up the member with external person identifier `d`, creating the
    /// row on first sight.
    ///
    /// Everything but the member table is untouched; at most one member row
    /// is appended.
    pub fn get_or_create_member_for_discord_id(&mut self, d: u64) -> (m: MemberId)
        requires
            old(self).wf(),
            old(self).next_member_id < i32::MAX,
        ensures
            final(self).wf(),
            final(self).member_with_discord(m.0 as int, d),
            final(self).series@ == old(self).series@,
            final(self).events@ == old(self).events@,
            final(self).meetup_events@ == old(self).meetup_events@,
            final(self).swissrpg_events@ == old(self).swissrpg_events@,
            final(self).hosts@ == old(self).hosts@,
            final(self).participants@ == old(self).participants@,
            final(self).next_series_id == old(self).next_series_id,
            final(self).next_event_id == old(self).next_event_id,
            final(self).next_binding_id == old(self).next_binding_id,
            old(self).next_member_id <= final(self).next_member_id <= old(self).next_member_id + 1,
            forall|m2: int, d2: u64|
                #[trigger] final(self).member_with_discord(m2, d2) <==> (old(
                    self,
                ).member_with_discord(m2, d2) || (m2 == m.0 as int && d2 == d)),
            forall|m2: int|
                #[trigger] final(self).member_exists(m2) <==> (old(self).member_exists(m2) || m2
                    == m.0 as int),
            old(self).member_with_discord(m.0 as int, d) || m.0 == old(self).next_member_id,
            final(self).member_exists(m.0 as int),
    {
        match self.find_member_by_discord(d) {
            Some(i) => {
                let m = self.members[i].id;
                proof {
                    assert(self.member_with_discord(m as int, d));
                    assert(self.member_exists(m as int));
                }
                MemberId(m)
            },
            None => {
                let id = self.next_member_id;
                let row = MemberRow { id, discord_id: Some(d), discord_nick: None };
                self.members.push(row);
                self.next_member_id = self.next_member_id + 1;
                proof {
                    let n = old(self).members@.len() as int;
                    assert(self.members@ == old(self).members@.push(row));
                    assert(self.members@[n] == row);
                    assert(self.member_with_discord(id as int, d));
                    assert(forall|i: int|
                        0 <= i < n ==> #[trigger] self.members@[i] == old(self).members@[i]);
                    assert forall|i: int|
                        0 <= i < self.members@.len() implies 0 <= (
                    #[trigger] self.members@[i]).id < self.next_member_id by {
                        if i < n {
                            assert(self.members@[i] == old(self).members@[i]);
                            assert(old(self).members@[i].id < old(self).next_member_id);
                        }
                    }
                    assert forall|m2: int, d2: u64|
                        old(self).member_with_discord(m2, d2) implies #[trigger] self.member_with_discord(
                        m2,
                        d2,
                    ) by {
                        let i = choose|i: int|
                            0 <= i < old(self).members@.len() && (
                            #[trigger] old(self).members@[i]).id == m2
                                && old(self).members@[i].discord_id == Some(d2);
                        assert(self.members@[i] == old(self).members@[i]);
                    }
                    assert forall|m2: int|
                        old(self).member_exists(m2) implies #[trigger] self.member_exists(m2) by {
                        let i = choose|i: int|
                            0 <= i < old(self).members@.len() && (
                            #[trigger] old(self).members@[i]).id == m2;
                        assert(self.members@[i] == old(self).members@[i]);
                    }
                    assert forall|i: int, j: int|
                        0 <= i < j < self.members@.len() && (
                        #[trigger] self.members@[i]).discord_id is Some && (
                        #[trigger] self.members@[j]).discord_id is Some implies self.members@[i].discord_id
                        != self.members@[j].discord_id by {
                        if j == n {
                            assert(self.members@[i] == old(self).members@[i]);
                            assert(old(self).members@[i].discord_id != Some(d));
                        }
                    }
                    assert forall|m2: int, d2: u64|
                        #[trigger] self.member_with_discord(m2, d2) implies (old(
                        self,
                    ).member_with_discord(m2, d2) || (m2 == id as int && d2 == d)) by {
                        let i = choose|i: int|
                            0 <= i < self.members@.len() && (#[trigger] self.members@[i]).id == m2
                                && self.members@[i].discord_id == Some(d2);
                        if i < n {
                            assert(old(self).members@[i] == self.members@[i]);
                        }
                    }
                    assert forall|m2: int| #[trigger] self.member_exists(m2) implies (old(
                        self,
                    ).member_exists(m2) || m2 == id as int) by {
                        let i = choose|i: int|
                            0 <= i < self.members@.len() && (#[trigger] self.members@[i]).id == m2;
                        if i < n {
                            assert(old(self).members@[i] == self.members@[i]);
                        }
                    }
                    assert forall|i: int, j: int|
                        0 <= i < j < self.members@.len() implies (#[trigger] self.members@[i]).id
                        != (#[trigger] self.members@[j]).id by {
                        if j < n {
                            assert(old(self).members@[i] == self.members@[i]);
                        }
                    }
                }
                MemberId(id)
            },
        }
    }

    /// Records member `m` as a host of event `e`, if not recorded already.
    ///
    /// The host relation only ever grows here, and only by this one pair.
    pub fn add_host_if_absent(&mut self, e: i32, m: MemberId)
        requires
            old(self).wf(),
            old(self).event_exists(e as int),
            old(self).member_exists(m.0 as int),
        ensures
            final(self).wf(),
            final(self).series@ == old(self).series@,
            final(self).events@ == old(self).events@,
            final(self).meetup_events@ == old(self).meetup_events@,
            final(self).swissrpg_events@ == old(self).swissrpg_events@,
            final(self).members@ == old(self).members@,
            final(self).participants@ == old(self).participants@,
            final(self).next_series_id == old(self).next_series_id,
            final(self).next_event_id == old(self).next_event_id,
            final(self).next_binding_id == old(self).next_binding_id,
            final(self).next_member_id == old(self).next_member_id,
            forall|e2: int, m2: int|
                #[trigger] final(self).host_pair(e2, m2) <==> (old(self).host_pair(e2, m2) || (e2
                    == e as int && m2 == m.0 as int)),
    {
        let n = self.hosts.len();
        let mut i: usize = 0;
        while i < n
            invariant
                n == self.hosts@.len(),
                0 <= i <= n,
                forall|j: int|
                    0 <= j < i ==> !((#[trigger] self.hosts@[j]).event_id == e
                        && self.hosts@[j].member_id == m.0),
            decreases n - i,
        {
            if self.hosts[i].event_id == e && self.hosts[i].member_id == m.0 {
                proof {
                    assert(self.host_pair(e as int, m.0 as int));
                }
                return ;
            }
            i = i + 1;
        }
        let row = HostRow { event_id: e, member_id: m.0 };
        self.hosts.push(row);
        proof {
            let hn = old(self).hosts@.len() as int;
            assert(self.hosts@ == old(self).hosts@.push(row));
            assert(self.hosts@[hn] == row);
            assert(self.host_pair(e as int, m.0 as int));
            assert(forall|j: int|
                0 <= j < hn ==> #[trigger] self.hosts@[j] == old(self).hosts@[j]);
            assert forall|e2: int, m2: int|
                old(self).host_pair(e2, m2) implies #[trigger] self.host_pair(e2, m2) by {
                let j = choose|j: int|
                    0 <= j < old(self).hosts@.len() && (#[trigger] old(self).hosts@[j]).event_id
                        == e2 && old(self).hosts@[j].member_id == m2;
                assert(self.hosts@[j] == old(self).hosts@[j]);
            }
            assert forall|e2: int, m2: int| #[trigger] self.host_pair(e2, m2) implies (old(
                self,
            ).host_pair(e2, m2) || (e2 == e as int && m2 == m.0 as int)) by {
                let j = choose|j: int|
                    0 <= j < self.hosts@.len() && (#[trigger] self.hosts@[j]).event_id == e2
                        && self.hosts@[j].member_id == m2;
                if j < hn {
                    assert(old(self).hosts@[j] == self.hosts@[j]);
                }
            }
            assert forall|i2: int, j2: int|
                0 <= i2 < j2 < self.hosts@.len() implies #[trigger] self.hosts@[i2]
                != #[trigger] self.hosts@[j2] by {
                if j2 < hn {
                    assert(old(self).hosts@[i2] == self.hosts@[i2]);
                } else {
                    if i2 < hn {
                        assert(self.hosts@[j2] == row);
                        assert(old(self).hosts@[i2] == self.hosts@[i2]);
                    }
                }
            }
        }
    }
}

/// A participant row for event `e` and member `m` occurs in the sequence.
pub open spec fn pair_in(s: Seq<ParticipantRow>, e: int, m: int) -> bool {
    exists|t: int| 0 <= t < s.len() && (#[trigger] s[t]).event_id == e && s[t].member_id == m
}

/// Does the vector hold a participant row for `(e, m)`?
fn contains_pair(v: &Vec<ParticipantRow>, e: i32, m: i32) -> (r: bool)
    ensures
        r == pair_in(v@, e as int, m as int),
{
    let n = v.len();
    let mut t: usize = 0;
    while t < n
        invariant
            n == v@.len(),
            0 <= t <= n,
            forall|q: int| 0 <= q < t ==> !((#[trigger] v@[q]).event_id == e && v@[q].member_id == m),
        decreases n - t,
    {
        if v[t].event_id == e && v[t].member_id == m {
            return true;
        }
        t = t + 1;
    }
    false
}

impl Database {
    /// Creates a new series row with a fresh identity and no legacy link.
    pub fn create_series(&mut self, series_type: String) -> (s: i32)
        requires
            old(self).wf(),
            old(self).next_series_id < i32::MAX,
        ensures
            final(self).wf(),
            s == old(self).next_series_id,
            final(self).series_exists(s as int),
            final(self).events@ == old(self).events@,
            final(self).meetup_events@ == old(self).meetup_events@,
            final(self).swissrpg_events@ == old(self).swissrpg_events@,
            final(self).members@ == old(self).members@,
            final(self).hosts@ == old(self).hosts@,
            final(self).participants@ == old(self).participants@,
            final(self).next_event_id == old(self).next_event_id,
            final(self).next_binding_id == old(self).next_binding_id,
            final(self).next_member_id == old(self).next_member_id,
            final(self).next_series_id == old(self).next_series_id + 1,
            final(self).series@.len() == old(self).series@.len() + 1,
            forall|i: int|
                0 <= i < old(self).series@.len() ==> #[trigger] final(self).series@[i] == old(
                    self,
                ).series@[i],
            forall|s2: int|
                #[trigger] final(self).series_exists(s2) <==> (old(self).series_exists(s2) || s2
                    == s as int),
    {
        let id = self.next_series_id;
        let row = SeriesRow { id, series_type, swissrpg_series_id: None };
        self.series.push(row);
        self.next_series_id = self.next_series_id + 1;
        proof {
            let n = old(self).series@.len() as int;
            assert(self.series@[n].id == id);
            assert(forall|i: int|
                0 <= i < n ==> #[trigger] self.series@[i] == old(self).series@[i]);
            assert forall|s2: int| #[trigger] self.series_exists(s2) implies (old(
                self,
            ).series_exists(s2) || s2 == id as int) by {
                let i = choose|i: int|
                    0 <= i < self.series@.len() && (#[trigger] self.series@[i]).id == s2;
                if i < n {
                    assert(old(self).series@[i] == self.series@[i]);
                }
            }
            assert forall|s2: int| old(self).series_exists(s2) implies #[trigger] self.series_exists(
                s2,
            ) by {
                let i = choose|i: int|
                    0 <= i < old(self).series@.len() && (#[trigger] old(self).series@[i]).id == s2;
                assert(self.series@[i] == old(self).series@[i]);
            }
            assert forall|i: int, j: int|
                0 <= i < j < self.series@.len() implies (#[trigger] self.series@[i]).id != (
            #[trigger] self.series@[j]).id by {
                if j == n {
                    assert(self.series@[i] == old(self).series@[i]);
                }
            }
        }
        id
    }

    /// Inserts a new event row with a fresh identity.
    pub fn insert_event(
        &mut self,
        series_id: i32,
        start_time: i64,
        title: String,
        description: Option<String>,
    ) -> (e: i32)
        requires
            old(self).wf(),
            old(self).series_exists(series_id as int),
            old(self).next_event_id < i32::MAX,
        ensures
            final(self).wf(),
            e == old(self).next_event_id,
            final(self).events@ == old(self).events@.push(
                EventRow {
                    id: e,
                    series_id,
                    start_time,
                    title,
                    description,
                    is_online: false,
                    discord_category_id: None,
                },
            ),
            final(self).series@ == old(self).series@,
            final(self).meetup_events@ == old(self).meetup_events@,
            final(self).swissrpg_events@ == old(self).swissrpg_events@,
            final(self).members@ == old(self).members@,
            final(self).hosts@ == old(self).hosts@,
            final(self).participants@ == old(self).participants@,
            final(self).next_series_id == old(self).next_series_id,
            final(self).next_binding_id == old(self).next_binding_id,
            final(self).next_member_id == old(self).next_member_id,
            final(self).next_event_id == old(self).next_event_id + 1,
            final(self).event_exists(e as int),
            final(self).event_in_series(e as int, series_id as int),
            forall|e2: int|
                #[trigger] final(self).event_exists(e2) <==> (old(self).event_exists(e2) || e2 == e
                    as int),
            forall|e2: int, s2: int|
                #[trigger] final(self).event_in_series(e2, s2) <==> (old(self).event_in_series(
                    e2,
                    s2,
                ) || (e2 == e as int && s2 == series_id as int)),
    {
        let id = self.next_event_id;
        let row = EventRow {
            id,
            series_id,
            start_time,
            title,
            description,
            is_online: false,
            discord_category_id: None,
        };
        self.events.push(row);
        self.next_event_id = self.next_event_id + 1;
        proof {
            let n = old(self).events@.len() as int;
            assert(self.events@[n].id == id);
            assert(forall|i: int|
                0 <= i < n ==> #[trigger] self.events@[i] == old(self).events@[i]);
            assert forall|e2: int| #[trigger] self.event_exists(e2) implies (old(
                self,
            ).event_exists(e2) || e2 == id as int) by {
                let i = choose|i: int|
                    0 <= i < self.events@.len() && (#[trigger] self.events@[i]).id == e2;
                if i < n {
                    assert(old(self).events@[i] == self.events@[i]);
                }
            }
            assert forall|e2: int| old(self).event_exists(e2) implies #[trigger] self.event_exists(
                e2,
            ) by {
                let i = choose|i: int|
                    0 <= i < old(self).events@.len() && (#[trigger] old(self).events@[i]).id == e2;
                assert(self.events@[i] == old(self).events@[i]);
            }
            assert forall|e2: int, s2: int| #[trigger] self.event_in_series(e2, s2) implies (old(
                self,
            ).event_in_series(e2, s2) || (e2 == id as int && s2 == series_id as int)) by {
                let i = choose|i: int|
                    0 <= i < self.events@.len() && (#[trigger] self.events@[i]).id == e2
                        && self.events@[i].series_id == s2;
                if i < n {
                    assert(old(self).events@[i] == self.events@[i]);
                }
            }
            assert forall|e2: int, s2: int|
                old(self).event_in_series(e2, s2) implies #[trigger] self.event_in_series(
                e2,
                s2,
            ) by {
                let i = choose|i: int|
                    0 <= i < old(self).events@.len() && (#[trigger] old(self).events@[i]).id == e2
                        && old(self).events@[i].series_id == s2;
                assert(self.events@[i] == old(self).events@[i]);
            }
            assert forall|i: int, j: int|
                0 <= i < j < self.events@.len() implies (#[trigger] self.events@[i]).id != (
            #[trigger] self.events@[j]).id by {
                if j == n {
                    assert(self.events@[i] == old(self).events@[i]);
                }
            }
        }
        id
    }

    /// Rewrites the mutable fields of the event row at index `i`, keeping its
    /// identity.
    pub fn update_event(
        &mut self,
        i: usize,
        series_id: i32,
        start_time: i64,
        title: String,
        description: Option<String>,
    )
        requires
            old(self).wf(),
            i < old(self).events@.len(),
            old(self).series_exists(series_id as int),
        ensures
            final(self).wf(),
            final(self).events@ == old(self).events@.update(
                i as int,
                EventRow {
                    id: old(self).events@[i as int].id,
                    series_id,
                    start_time,
                    title,
                    description,
                    is_online: false,
                    discord_category_id: None,
                },
            ),
            final(self).series@ == old(self).series@,
            final(self).meetup_events@ == old(self).meetup_events@,
            final(self).swissrpg_events@ == old(self).swissrpg_events@,
            final(self).members@ == old(self).members@,
            final(self).hosts@ == old(self).hosts@,
            final(self).participants@ == old(self).participants@,
            final(self).next_series_id == old(self).next_series_id,
            final(self).next_event_id == old(self).next_event_id,
            final(self).next_binding_id == old(self).next_binding_id,
            final(self).next_member_id == old(self).next_member_id,
            forall|e2: int|
                #[trigger] final(self).event_exists(e2) <==> old(self).event_exists(e2),
            final(self).event_in_series(old(self).events@[i as int].id as int, series_id as int),
            forall|e2: int, s2: int|
                e2 != old(self).events@[i as int].id as int ==> (
                #[trigger] final(self).event_in_series(e2, s2) <==> old(self).event_in_series(
                    e2,
                    s2,
                )),
    {
        let id = self.events[i].id;
        let row = EventRow {
            id,
            series_id,
            start_time,
            title,
            description,
            is_online: false,
            discord_category_id: None,
        };
        self.events[i] = row;
        proof {
            let n = self.events@.len() as int;
            assert(forall|j: int|
                0 <= j < n && j != i as int ==> #[trigger] self.events@[j] == old(
                    self,
                ).events@[j]);
            assert(self.events@[i as int].id == id);
            assert forall|e2: int| #[trigger] self.event_exists(e2) implies old(
                self,
            ).event_exists(e2) by {
                let j = choose|j: int|
                    0 <= j < self.events@.len() && (#[trigger] self.events@[j]).id == e2;
                assert(old(self).events@[j].id == e2);
            }
            assert forall|e2: int| old(self).event_exists(e2) implies #[trigger] self.event_exists(
                e2,
            ) by {
                let j = choose|j: int|
                    0 <= j < old(self).events@.len() && (#[trigger] old(self).events@[j]).id == e2;
                assert(self.events@[j].id == e2);
            }
            assert forall|e2: int, s2: int|
                e2 != id as int && #[trigger] self.event_in_series(e2, s2) implies old(
                self,
            ).event_in_series(e2, s2) by {
                let j = choose|j: int|
                    0 <= j < self.events@.len() && (#[trigger] self.events@[j]).id == e2
                        && self.events@[j].series_id == s2;
                assert(old(self).events@[j] == self.events@[j]);
            }
            assert forall|e2: int, s2: int|
                e2 != id as int && old(self).event_in_series(e2, s2) implies
                #[trigger] self.event_in_series(e2, s2) by {
                let j = choose|j: int|
                    0 <= j < old(self).events@.len() && (#[trigger] old(self).events@[j]).id == e2
                        && old(self).events@[j].series_id == s2;
                assert(self.events@[j] == old(self).events@[j]);
            }
            assert forall|j: int, k: int|
                0 <= j < k < self.events@.len() implies (#[trigger] self.events@[j]).id != (
            #[trigger] self.events@[k]).id by {
                assert(old(self).events@[j].id == self.events@[j].id);
                assert(old(self).events@[k].id == self.events@[k].id);
            }
        }
    }

    /// Inserts a binding row mapping native external id `sid` to event `e`.
    ///
    /// A binding is insert-only: it is never re-pointed, so the external id
    /// and the event must both be unbound.
    pub fn insert_sw_binding(&mut self, e: i32, sid: String, url: String)
        requires
            old(self).wf(),
            old(self).event_exists(e as int),
            !old(self).sw_bound(sid@),
            forall|i: int|
                0 <= i < old(self).swissrpg_events@.len() ==> (
                #[trigger] old(self).swissrpg_events@[i]).event_id != e,
            old(self).next_binding_id < i32::MAX,
        ensures
            final(self).wf(),
            final(self).binds_sw(sid@, e as int),
            final(self).series@ == old(self).series@,
            final(self).events@ == old(self).events@,
            final(self).meetup_events@ == old(self).meetup_events@,
            final(self).members@ == old(self).members@,
            final(self).hosts@ == old(self).hosts@,
            final(self).participants@ == old(self).participants@,
            final(self).next_series_id == old(self).next_series_id,
            final(self).next_event_id == old(self).next_event_id,
            final(self).next_member_id == old(self).next_member_id,
            forall|sid2: Seq<char>, e2: int|
                #[trigger] final(self).binds_sw(sid2, e2) <==> (old(self).binds_sw(sid2, e2) || (
                sid2 == sid@ && e2 == e as int)),
    {
        let id = self.next_binding_id;
        let ghost sidv = sid@;
        let row = SwissRpgEventRow { id, event_id: e, swissrpg_id: sid, url };
        self.swissrpg_events.push(row);
        self.next_binding_id = self.next_binding_id + 1;
        proof {
            let n = old(self).swissrpg_events@.len() as int;
            assert(self.swissrpg_events@[n] == row);
            assert(forall|i: int|
                0 <= i < n ==> #[trigger] self.swissrpg_events@[i] == old(
                    self,
                ).swissrpg_events@[i]);
            assert(self.binds_sw(sidv, e as int));
            assert forall|sid2: Seq<char>, e2: int| #[trigger] self.binds_sw(sid2, e2) implies (old(
                self,
            ).binds_sw(sid2, e2) || (sid2 == sidv && e2 == e as int)) by {
                let i = choose|i: int|
                    0 <= i < self.swissrpg_events@.len() && (
                    #[trigger] self.swissrpg_events@[i]).swissrpg_id@ == sid2
                        && self.swissrpg_events@[i].event_id == e2;
                if i < n {
                    assert(old(self).swissrpg_events@[i] == self.swissrpg_events@[i]);
                }
            }
            assert forall|sid2: Seq<char>, e2: int|
                old(self).binds_sw(sid2, e2) implies #[trigger] self.binds_sw(sid2, e2) by {
                let i = choose|i: int|
                    0 <= i < old(self).swissrpg_events@.len() && (
                    #[trigger] old(self).swissrpg_events@[i]).swissrpg_id@ == sid2 && old(
                        self,
                    ).swissrpg_events@[i].event_id == e2;
                assert(self.swissrpg_events@[i] == old(self).swissrpg_events@[i]);
            }
            assert forall|i: int, j: int|
                0 <= i < j < self.swissrpg_events@.len() implies (
            #[trigger] self.swissrpg_events@[i]).swissrpg_id@ != (
            #[trigger] self.swissrpg_events@[j]).swissrpg_id@ by {
                if j == n {
                    assert(self.swissrpg_events@[i] == old(self).swissrpg_events@[i]);
                    assert(!old(self).binds_sw(sidv, old(self).swissrpg_events@[i].event_id as int)
                        || old(self).swissrpg_events@[i].swissrpg_id@ != sidv);
                    if old(self).swissrpg_events@[i].swissrpg_id@ == sidv {
                        assert(old(self).binds_sw(
                            sidv,
                            old(self).swissrpg_events@[i].event_id as int,
                        ));
                    }
                }
            }
            assert forall|i: int, j: int|
                0 <= i < j < self.swissrpg_events@.len() implies (
            #[trigger] self.swissrpg_events@[i]).event_id != (
            #[trigger] self.swissrpg_events@[j]).event_id by {
                if j == n {
                    assert(self.swissrpg_events@[i] == old(self).swissrpg_events@[i]);
                }
            }
        }
    }

    /// Replaces the participant set of event `e` with exactly the given
    /// members: rows of other events stay, rows of `e` not listed are
    /// removed, missing ones are inserted.
    pub fn set_participants(&mut self, e: i32, member_ids: &Vec<MemberId>)
        requires
            old(self).wf(),
            old(self).event_exists(e as int),
            forall|k: int|
                0 <= k < member_ids@.len() ==> old(self).member_exists(
                    (#[trigger] member_ids@[k]).0 as int,
                ),
        ensures
            final(self).wf(),
            final(self).series@ == old(self).series@,
            final(self).events@ == old(self).events@,
            final(self).meetup_events@ == old(self).meetup_events@,
            final(self).swissrpg_events@ == old(self).swissrpg_events@,
            final(self).members@ == old(self).members@,
            final(self).hosts@ == old(self).hosts@,
            final(self).next_series_id == old(self).next_series_id,
            final(self).next_event_id == old(self).next_event_id,
            final(self).next_binding_id == old(self).next_binding_id,
            final(self).next_member_id == old(self).next_member_id,
            forall|m2: int|
                #[trigger] final(self).participant_pair(e as int, m2) <==> (exists|k: int|
                    0 <= k < member_ids@.len() && (#[trigger] member_ids@[k]).0 as int == m2),
            forall|e2: int, m2: int|
                e2 != e as int ==> (#[trigger] final(self).participant_pair(e2, m2) <==> old(
                    self,
                ).participant_pair(e2, m2)),
    {
        let ghost parts0 = self.participants@;
        let n = self.participants.len();
        let mut out: Vec<ParticipantRow> = Vec::new();
        let mut i: usize = 0;
        while i < n
            invariant
                n == parts0.len(),
                0 <= i <= n,
                forall|t: int| 0 <= t < out@.len() ==> (#[trigger] out@[t]).event_id != e,
                forall|t: int|
                    0 <= t < out@.len() ==> exists|j: int|
                        0 <= j < i && parts0[j] == #[trigger] out@[t],
                forall|j: int|
                    0 <= j < i && (#[trigger] parts0[j]).event_id != e ==> pair_in(
                        out@,
                        parts0[j].event_id as int,
                        parts0[j].member_id as int,
                    ),
                forall|t1: int, t2: int| 0 <= t1 < t2 < out@.len() ==> out@[t1] != out@[t2],
                self == old(self),
            decreases n - i,
        {
            let row = self.participants[i];
            if row.event_id != e {
                proof {
                    assert forall|t: int| 0 <= t < out@.len() implies #[trigger] out@[t]
                        != parts0[i as int] by {
                        let j = choose|j: int| 0 <= j < i && parts0[j] == out@[t];
                        assert(parts0[j] != parts0[i as int]);
                    }
                }
                let ghost pre = out@;
                out.push(row);
                proof {
                    assert(out@ == pre.push(row));
                    assert(forall|t: int| 0 <= t < pre.len() ==> #[trigger] out@[t] == pre[t]);
                    assert(out@[pre.len() as int] == parts0[i as int]);
                    assert forall|j: int|
                        0 <= j < i + 1 && (#[trigger] parts0[j]).event_id != e implies pair_in(
                        out@,
                        parts0[j].event_id as int,
                        parts0[j].member_id as int,
                    ) by {
                        if j < i {
                            assert(pair_in(pre, parts0[j].event_id as int, parts0[j].member_id as int));
                            let t = choose|t: int|
                                0 <= t < pre.len() && (#[trigger] pre[t]).event_id
                                    == parts0[j].event_id as int && pre[t].member_id
                                    == parts0[j].member_id as int;
                            assert(out@[t] == pre[t]);
                            assert(pair_in(
                                out@,
                                parts0[j].event_id as int,
                                parts0[j].member_id as int,
                            ));
                        } else {
                            assert(out@[pre.len() as int] == parts0[j]);
                            assert(pair_in(
                                out@,
                                parts0[j].event_id as int,
                                parts0[j].member_id as int,
                            ));
                        }
                    }
                }
            }
            i = i + 1;
        }
        // Insert the listed members, skipping duplicates.
        let kn = member_ids.len();
        let mut k: usize = 0;
        while k < kn
            invariant
                kn == member_ids@.len(),
                0 <= k <= kn,
                forall|t: int|
                    0 <= t < out@.len() && (#[trigger] out@[t]).event_id != e ==> pair_in(
                        parts0,
                        out@[t].event_id as int,
                        out@[t].member_id as int,
                    ),
                forall|j: int|
                    0 <= j < parts0.len() && (#[trigger] parts0[j]).event_id != e ==> pair_in(
                        out@,
                        parts0[j].event_id as int,
                        parts0[j].member_id as int,
                    ),
                forall|m2: int|
                    #[trigger] pair_in(out@, e as int, m2) <==> (exists|k2: int|
                        0 <= k2 < k && (#[trigger] member_ids@[k2]).0 as int == m2),
                forall|t: int|
                    0 <= t < out@.len() && (#[trigger] out@[t]).event_id == e ==> old(
                        self,
                    ).member_exists(out@[t].member_id as int),
                forall|t1: int, t2: int| 0 <= t1 < t2 < out@.len() ==> out@[t1] != out@[t2],
                self == old(self),
            decreases kn - k,
        {
            let m = member_ids[k].0;
            if !contains_pair(&out, e, m) {
                let row = ParticipantRow { event_id: e, member_id: m };
                proof {
                    assert forall|t: int| 0 <= t < out@.len() implies #[trigger] out@[t] != row by {
                        if out@[t].event_id == e && out@[t].member_id == m {
                            assert(pair_in(out@, e as int, m as int));
                        }
                    }
                }
                let ghost pre = out@;
                out.push(row);
                proof {
                    assert(out@ == pre.push(row));
                    assert(forall|t: int| 0 <= t < pre.len() ==> #[trigger] out@[t] == pre[t]);
                    assert(out@[pre.len() as int] == row);
                    assert forall|m2: int| #[trigger] pair_in(out@, e as int, m2) implies (exists|
                        k2: int,
                    |
                        0 <= k2 < k + 1 && (#[trigger] member_ids@[k2]).0 as int == m2) by {
                        let t = choose|t: int|
                            0 <= t < out@.len() && (#[trigger] out@[t]).event_id == e as int
                                && out@[t].member_id == m2;
                        if t < pre.len() {
                            assert(pre[t].event_id == e as int && pre[t].member_id == m2);
                            assert(pair_in(pre, e as int, m2));
                        } else {
                            assert(member_ids@[k as int].0 as int == m2);
                        }
                    }
                    assert forall|j: int|
                        0 <= j < parts0.len() && (#[trigger] parts0[j]).event_id != e implies pair_in(
                        out@,
                        parts0[j].event_id as int,
                        parts0[j].member_id as int,
                    ) by {
                        assert(pair_in(pre, parts0[j].event_id as int, parts0[j].member_id as int));
                        let t = choose|t: int|
                            0 <= t < pre.len() && (#[trigger] pre[t]).event_id
                                == parts0[j].event_id as int && pre[t].member_id
                                == parts0[j].member_id as int;
                        assert(out@[t] == pre[t]);
                        assert(pair_in(out@, parts0[j].event_id as int, parts0[j].member_id as int));
                    }
                    assert forall|m2: int|
                        (exists|k2: int|
                            0 <= k2 < k + 1 && (#[trigger] member_ids@[k2]).0 as int
                                == m2) implies #[trigger] pair_in(out@, e as int, m2) by {
                        let k2 = choose|k2: int|
                            0 <= k2 < k + 1 && (#[trigger] member_ids@[k2]).0 as int == m2;
                        if k2 < k {
                            assert(pair_in(pre, e as int, m2));
                            let t = choose|t: int|
                                0 <= t < pre.len() && (#[trigger] pre[t]).event_id == e as int
                                    && pre[t].member_id == m2;
                            assert(out@[t] == pre[t]);
                            assert(pair_in(out@, e as int, m2));
                        } else {
                            assert(out@[pre.len() as int].member_id as int == m2);
                            assert(pair_in(out@, e as int, m2));
                        }
                    }
                }
            } else {
                proof {
                    assert(pair_in(out@, e as int, m as int));
                }
            }
            k = k + 1;
        }
        let ghost outv = out@;
        self.participants = out;
        proof {
            assert(self.participants@ == outv);
            assert forall|m2: int|
                #[trigger] self.participant_pair(e as int, m2) implies (exists|k: int|
                0 <= k < member_ids@.len() && (#[trigger] member_ids@[k]).0 as int == m2) by {
                let t = choose|t: int|
                    0 <= t < self.participants@.len() && (
                    #[trigger] self.participants@[t]).event_id == e as int
                        && self.participants@[t].member_id == m2;
                assert(outv[t].event_id == e as int && outv[t].member_id == m2);
                assert(pair_in(outv, e as int, m2));
            }
            assert forall|m2: int|
                (exists|k: int|
                    0 <= k < member_ids@.len() && (#[trigger] member_ids@[k]).0 as int
                        == m2) implies #[trigger] self.participant_pair(e as int, m2) by {
                assert(pair_in(outv, e as int, m2));
                let t = choose|t: int|
                    0 <= t < outv.len() && (#[trigger] outv[t]).event_id == e as int
                        && outv[t].member_id == m2;
                assert(self.participants@[t].event_id == e as int && self.participants@[t].member_id
                    == m2);
            }
            assert forall|e2: int, m2: int|
                e2 != e as int && #[trigger] self.participant_pair(e2, m2) implies old(
                self,
            ).participant_pair(e2, m2) by {
                let t = choose|t: int|
                    0 <= t < self.participants@.len() && (
                    #[trigger] self.participants@[t]).event_id == e2
                        && self.participants@[t].member_id == m2;
                assert(pair_in(parts0, e2, m2));
            }
            assert forall|e2: int, m2: int|
                e2 != e as int && old(self).participant_pair(e2, m2) implies
                #[trigger] self.participant_pair(e2, m2) by {
                let j = choose|j: int|
                    0 <= j < parts0.len() && (#[trigger] parts0[j]).event_id == e2
                        && parts0[j].member_id == m2;
                assert(pair_in(self.participants@, e2, m2));
            }
            assert forall|t: int|
                0 <= t < self.participants@.len() implies self.event_exists(
                (#[trigger] self.participants@[t]).event_id as int,
            ) && self.member_exists(self.participants@[t].member_id as int) by {
                let r = self.participants@[t];
                if r.event_id != e {
                    assert(pair_in(parts0, r.event_id as int, r.member_id as int));
                    let j = choose|j: int|
                        0 <= j < parts0.len() && (#[trigger] parts0[j]).event_id as int
                            == r.event_id as int && parts0[j].member_id as int == r.member_id as int;
                    assert(old(self).event_exists(parts0[j].event_id as int));
                    assert(old(self).member_exists(parts0[j].member_id as int));
                }
            }
        }
    }
}

/// Two stores with the same member table agree on every member relation.
pub proof fn lemma_same_members(a: Database, b: Database)
    requires
        a.members@ == b.members@,
    ensures
        forall|m: int, d: u64|
            #[trigger] a.member_with_discord(m, d) <==> #[trigger] b.member_with_discord(m, d),
        forall|m: int| #[trigger] a.member_exists(m) <==> #[trigger] b.member_exists(m),
{
    assert forall|m: int, d: u64| #[trigger] a.member_with_discord(m, d) implies b.member_with_discord(
        m,
        d,
    ) by {
        let i = choose|i: int|
            0 <= i < a.members@.len() && (#[trigger] a.members@[i]).id == m
                && a.members@[i].discord_id == Some(d);
        assert(b.members@[i] == a.members@[i]);
    }
    assert forall|m: int, d: u64| #[trigger] b.member_with_discord(m, d) implies a.member_with_discord(
        m,
        d,
    ) by {
        let i = choose|i: int|
            0 <= i < b.members@.len() && (#[trigger] b.members@[i]).id == m
                && b.members@[i].discord_id == Some(d);
        assert(a.members@[i] == b.members@[i]);
    }
    assert forall|m: int| #[trigger] a.member_exists(m) implies b.member_exists(m) by {
        let i = choose|i: int| 0 <= i < a.members@.len() && (#[trigger] a.members@[i]).id == m;
        assert(b.members@[i] == a.members@[i]);
    }
    assert forall|m: int| #[trigger] b.member_exists(m) implies a.member_exists(m) by {
        let i = choose|i: int| 0 <= i < b.members@.len() && (#[trigger] b.members@[i]).id == m;
        assert(a.members@[i] == b.members@[i]);
    }
}

/// Two stores with the same host table agree on every host pair.
pub proof fn lemma_same_hosts(a: Database, b: Database)
    requires
        a.hosts@ == b.hosts@,
    ensures
        forall|e: int, m: int| #[trigger] a.host_pair(e, m) <==> #[trigger] b.host_pair(e, m),
{
    assert forall|e: int, m: int| #[trigger] a.host_pair(e, m) implies b.host_pair(e, m) by {
        let i = choose|i: int|
            0 <= i < a.hosts@.len() && (#[trigger] a.hosts@[i]).event_id == e
                && a.hosts@[i].member_id == m;
        assert(b.hosts@[i] == a.hosts@[i]);
    }
    assert forall|e: int, m: int| #[trigger] b.host_pair(e, m) implies a.host_pair(e, m) by {
        let i = choose|i: int|
            0 <= i < b.hosts@.len() && (#[trigger] b.hosts@[i]).event_id == e
                && b.hosts@[i].member_id == m;
        assert(a.hosts@[i] == b.hosts@[i]);
    }
}

/// Two stores with the same participant table agree on every participant
/// pair.
pub proof fn lemma_same_participants(a: Database, b: Database)
    requires
        a.participants@ == b.participants@,
    ensures
        forall|e: int, m: int|
            #[trigger] a.participant_pair(e, m) <==> #[trigger] b.participant_pair(e, m),
{
    assert forall|e: int, m: int| #[trigger] a.participant_pair(e, m) implies b.participant_pair(
        e,
        m,
    ) by {
        let i = choose|i: int|
            0 <= i < a.participants@.len() && (#[trigger] a.participants@[i]).event_id == e
                && a.participants@[i].member_id == m;
        assert(b.participants@[i] == a.participants@[i]);
    }
    assert forall|e: int, m: int| #[trigger] b.participant_pair(e, m) implies a.participant_pair(
        e,
        m,
    ) by {
        let i = choose|i: int|
            0 <= i < b.participants@.len() && (#[trigger] b.participants@[i]).event_id == e
                && b.participants@[i].member_id == m;
        assert(a.participants@[i] == b.participants@[i]);
    }
}

/// Two stores with the same event table agree on event existence and
/// series membership.
pub proof fn lemma_same_events(a: Database, b: Database)
    requires
        a.events@ == b.events@,
    ensures
        forall|e: int| #[trigger] a.event_exists(e) <==> #[trigger] b.event_exists(e),
        forall|e: int, s: int|
            #[trigger] a.event_in_series(e, s) <==> #[trigger] b.event_in_series(e, s),
{
    assert forall|e: int| #[trigger] a.event_exists(e) implies b.event_exists(e) by {
        let i = choose|i: int| 0 <= i < a.events@.len() && (#[trigger] a.events@[i]).id == e;
        assert(b.events@[i] == a.events@[i]);
    }
    assert forall|e: int| #[trigger] b.event_exists(e) implies a.event_exists(e) by {
        let i = choose|i: int| 0 <= i < b.events@.len() && (#[trigger] b.events@[i]).id == e;
        assert(a.events@[i] == b.events@[i]);
    }
    assert forall|e: int, s: int| #[trigger] a.event_in_series(e, s) implies b.event_in_series(
        e,
        s,
    ) by {
        let i = choose|i: int|
            0 <= i < a.events@.len() && (#[trigger] a.events@[i]).id == e && a.events@[i].series_id
                == s;
        assert(b.events@[i] == a.events@[i]);
    }
    assert forall|e: int, s: int| #[trigger] b.event_in_series(e, s) implies a.event_in_series(
        e,
        s,
    ) by {
        let i = choose|i: int|
            0 <= i < b.events@.len() && (#[trigger] b.events@[i]).id == e && b.events@[i].series_id
                == s;
        assert(a.events@[i] == b.events@[i]);
    }
}

/// Two stores with the same series table agree on series existence.
pub proof fn lemma_same_series(a: Database, b: Database)
    requires
        a.series@ == b.series@,
    ensures
        forall|s: int| #[trigger] a.series_exists(s) <==> #[trigger] b.series_exists(s),
{
    assert forall|s: int| #[trigger] a.series_exists(s) implies b.series_exists(s) by {
        let i = choose|i: int| 0 <= i < a.series@.len() && (#[trigger] a.series@[i]).id == s;
        assert(b.series@[i] == a.series@[i]);
    }
    assert forall|s: int| #[trigger] b.series_exists(s) implies a.series_exists(s) by {
        let i = choose|i: int| 0 <= i < b.series@.len() && (#[trigger] b.series@[i]).id == s;
        assert(a.series@[i] == b.series@[i]);
    }
}

/// Two stores with the same native binding table agree on every binding.
pub proof fn lemma_same_sw_bindings(a: Database, b: Database)
    requires
        a.swissrpg_events@ == b.swissrpg_events@,
    ensures
        forall|sid: Seq<char>, e: int|
            #[trigger] a.binds_sw(sid, e) <==> #[trigger] b.binds_sw(sid, e),
{
    assert forall|sid: Seq<char>, e: int| #[trigger] a.binds_sw(sid, e) implies b.binds_sw(
        sid,
        e,
    ) by {
        let i = choose|i: int|
            0 <= i < a.swissrpg_events@.len() && (#[trigger] a.swissrpg_events@[i]).swissrpg_id@
                == sid && a.swissrpg_events@[i].event_id == e;
        assert(b.swissrpg_events@[i] == a.swissrpg_events@[i]);
    }
    assert forall|sid: Seq<char>, e: int| #[trigger] b.binds_sw(sid, e) implies a.binds_sw(
        sid,
        e,
    ) by {
        let i = choose|i: int|
            0 <= i < b.swissrpg_events@.len() && (#[trigger] b.swissrpg_events@[i]).swissrpg_id@
                == sid && b.swissrpg_events@[i].event_id == e;
        assert(a.swissrpg_events@[i] == b.swissrpg_events@[i]);
    }
}

/// Two stores with the same legacy binding table agree on every binding.
pub proof fn lemma_same_mu_bindings(a: Database, b: Database)
    requires
        a.meetup_events@ == b.meetup_events@,
    ensures
        forall|mid: Seq<char>, e: int|
            #[trigger] a.binds_mu(mid, e) <==> #[trigger] b.binds_mu(mid, e),
{
    assert forall|mid: Seq<char>, e: int| #[trigger] a.binds_mu(mid, e) implies b.binds_mu(
        mid,
        e,
    ) by {
        let i = choose|i: int|
            0 <= i < a.meetup_events@.len() && (#[trigger] a.meetup_events@[i]).meetup_id@ == mid
                && a.meetup_events@[i].event_id == e;
        assert(b.meetup_events@[i] == a.meetup_events@[i]);
    }
    assert forall|mid: Seq<char>, e: int| #[trigger] b.binds_mu(mid, e) implies a.binds_mu(
        mid,
        e,
    ) by {
        let i = choose|i: int|
            0 <= i < b.meetup_events@.len() && (#[trigger] b.meetup_events@[i]).meetup_id@ == mid
                && b.meetup_events@[i].event_id == e;
        assert(a.meetup_events@[i] == b.meetup_events@[i]);
    }
}

/// When the host pairs of one event are unchanged and the member table has
/// only grown by fresh members, who hosts that event is unchanged.
pub proof fn lemma_is_host_frame(a: Database, b: Database, e2: int)
    requires
        a.wf(),
        forall|m: int| #[trigger] a.host_pair(e2, m) <==> #[trigger] b.host_pair(e2, m),
        forall|m: int, d: u64|
            a.member_with_discord(m, d) ==> #[trigger] b.member_with_discord(m, d),
        forall|m: int, d: u64|
            #[trigger] b.member_with_discord(m, d) ==> (a.member_with_discord(m, d) || m
                >= a.next_member_id),
    ensures
        forall|d: u64| #[trigger] a.is_host(e2, d) <==> #[trigger] b.is_host(e2, d),
{
    assert forall|d: u64| #[trigger] a.is_host(e2, d) implies b.is_host(e2, d) by {
        let m = choose|m: int| a.host_pair(e2, m) && a.member_with_discord(m, d);
        assert(b.host_pair(e2, m));
        assert(b.member_with_discord(m, d));
    }
    assert forall|d: u64| #[trigger] b.is_host(e2, d) implies a.is_host(e2, d) by {
        let m = choose|m: int| b.host_pair(e2, m) && b.member_with_discord(m, d);
        assert(a.host_pair(e2, m));
        let i = choose|i: int|
            0 <= i < a.hosts@.len() && (#[trigger] a.hosts@[i]).event_id == e2
                && a.hosts@[i].member_id == m;
        assert(a.member_exists(a.hosts@[i].member_id as int));
        let j = choose|j: int| 0 <= j < a.members@.len() && (#[trigger] a.members@[j]).id == m;
        assert(a.members@[j].id < a.next_member_id);
        assert(a.member_with_discord(m, d));
    }
}

/// When the participant pairs of one event are unchanged and the member
/// table has only grown by fresh members, who participates is unchanged.
pub proof fn lemma_is_participant_frame(a: Database, b: Database, e2: int)
    requires
        a.wf(),
        forall|m: int| #[trigger] a.participant_pair(e2, m) <==> #[trigger] b.participant_pair(
            e2,
            m,
        ),
        forall|m: int, d: u64|
            a.member_with_discord(m, d) ==> #[trigger] b.member_with_discord(m, d),
        forall|m: int, d: u64|
            #[trigger] b.member_with_discord(m, d) ==> (a.member_with_discord(m, d) || m
                >= a.next_member_id),
    ensures
        forall|d: u64| #[trigger] a.is_participant(e2, d) <==> #[trigger] b.is_participant(e2, d),
{
    assert forall|d: u64| #[trigger] a.is_participant(e2, d) implies b.is_participant(e2, d) by {
        let m = choose|m: int| a.participant_pair(e2, m) && a.member_with_discord(m, d);
        assert(b.participant_pair(e2, m));
        assert(b.member_with_discord(m, d));
    }
    assert forall|d: u64| #[trigger] b.is_participant(e2, d) implies a.is_participant(e2, d) by {
        let m = choose|m: int| b.participant_pair(e2, m) && b.member_with_discord(m, d);
        assert(a.participant_pair(e2, m));
        let i = choose|i: int|
            0 <= i < a.participants@.len() && (#[trigger] a.participants@[i]).event_id == e2
                && a.participants@[i].member_id == m;
        assert(a.member_exists(a.participants@[i].member_id as int));
        let j = choose|j: int| 0 <= j < a.members@.len() && (#[trigger] a.members@[j]).id == m;
        assert(a.members@[j].id < a.next_member_id);
        assert(a.member_with_discord(m, d));
    }
}

/// A well-formed store binds a native external id to at most one event.
pub proof fn lemma_binds_sw_unique(db: Database, sid: Seq<char>, e1: int, e2: int)
    requires
        db.wf(),
        db.binds_sw(sid, e1),
        db.binds_sw(sid, e2),
    ensures
        e1 == e2,
{
    let i1 = choose|i: int|
        0 <= i < db.swissrpg_events@.len() && (#[trigger] db.swissrpg_events@[i]).swissrpg_id@
            == sid && db.swissrpg_events@[i].event_id == e1;
    let i2 = choose|i: int|
        0 <= i < db.swissrpg_events@.len() && (#[trigger] db.swissrpg_events@[i]).swissrpg_id@
            == sid && db.swissrpg_events@[i].event_id == e2;
    if i1 != i2 {
        assert(db.swissrpg_events@[i1].swissrpg_id@ != db.swissrpg_events@[i2].swissrpg_id@);
    }
}

/// A well-formed store binds a legacy external id to at most one event.
pub proof fn lemma_binds_mu_unique(db: Database, mid: Seq<char>, e1: int, e2: int)
    requires
        db.wf(),
        db.binds_mu(mid, e1),
        db.binds_mu(mid, e2),
    ensures
        e1 == e2,
{
    let i1 = choose|i: int|
        0 <= i < db.meetup_events@.len() && (#[trigger] db.meetup_events@[i]).meetup_id@ == mid
            && db.meetup_events@[i].event_id == e1;
    let i2 = choose|i: int|
        0 <= i < db.meetup_events@.len() && (#[trigger] db.meetup_events@[i]).meetup_id@ == mid
            && db.meetup_events@[i].event_id == e2;
    if i1 != i2 {
        assert(db.meetup_events@[i1].meetup_id@ != db.meetup_events@[i2].meetup_id@);
    }
}

/// In a well-formed store an event belongs to at most one series.
pub proof fn lemma_event_series_unique(db: Database, e: int, s1: int, s2: int)
    requires
        db.wf(),
        db.event_in_series(e, s1),
        db.event_in_series(e, s2),
    ensures
        s1 == s2,
{
    let i1 = choose|i: int|
        0 <= i < db.events@.len() && (#[trigger] db.events@[i]).id == e && db.events@[i].series_id
            == s1;
    let i2 = choose|i: int|
        0 <= i < db.events@.len() && (#[trigger] db.events@[i]).id == e && db.events@[i].series_id
            == s2;
    if i1 != i2 {
        assert(db.events@[i1].id != db.events@[i2].id);
    }
}

/// In a well-formed store a member carries at most one person identifier,
/// and a person identifier belongs to at most one member.
pub proof fn lemma_member_discord_unique(db: Database, m1: int, d1: u64, m2: int, d2: u64)
    requires
        db.wf(),
        db.member_with_discord(m1, d1),
        db.member_with_discord(m2, d2),
    ensures
        m1 == m2 ==> d1 == d2,
        d1 == d2 ==> m1 == m2,
{
    let i1 = choose|i: int|
        0 <= i < db.members@.len() && (#[trigger] db.members@[i]).id == m1
            && db.members@[i].discord_id == Some(d1);
    let i2 = choose|i: int|
        0 <= i < db.members@.len() && (#[trigger] db.members@[i]).id == m2
            && db.members@[i].discord_id == Some(d2);
    if i1 != i2 {
        assert(db.members@[i1].id != db.members@[i2].id);
        assert(db.members@[i1].discord_id != db.members@[i2].discord_id);
    }
}

} // verus!
