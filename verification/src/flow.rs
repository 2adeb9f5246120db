//! The one-shot "schedule next session" flow: an ephemeral token bound to an
//! event series, held in a key-value store with a time-to-live, deleted on
//! completion, and expiring on its own as the failure-safe cleanup.

use vstd::prelude::*;

use crate::errors::Error;
use crate::meetup::NewEvent;
use crate::model::EventSeriesId;
use crate::shortcode::{rewrite_description, rewrite_description_rep};
use crate::timeutil::random_u64;
use crate::title::{
    budgeted_session_title, budgeted_title_rep, next_session_title, next_title_rep, split_base,
    split_number, split_session_title, split_suffix, utf16_len, SessionSuffix,
    MAX_EVENT_NAME_UTF16_LEN,
};

verus! {

/// How long a flow token lives, in seconds.
pub const FLOW_TTL_SECONDS: i64 = 600;

/// What a completed scheduling flow produced: the new session, on whichever
/// source it was created.
#[derive(Debug)]
pub enum ScheduleSessionResult {
    Meetup(crate::meetup::Event),
    SwissRPG(crate::swissrpg::Event),
}

/// One stored flow token.
#[derive(PartialEq, Eq, Structural, Clone, Copy, Debug)]
pub struct FlowEntry {
    pub id: u64,
    pub event_series_id: i32,
    /// Unix seconds after which the token no longer exists.
    pub expires_at: i64,
}

/// The key-value store holding flow tokens: the sole source of truth for
/// flow existence.
#[derive(Debug, Clone)]
pub struct FlowStore {
    pub entries: Vec<FlowEntry>,
}

impl FlowStore {
    /// At most one entry per token.
    pub open spec fn wf(self) -> bool {
        forall|i: int, j: int|
            0 <= i < j < self.entries@.len() ==> (#[trigger] self.entries@[i]).id != (
            #[trigger] self.entries@[j]).id
    }

    /// Token `id` is bound to series `series` and alive at time `now`.
    pub open spec fn live(self, id: u64, series: int, now: int) -> bool {
        exists|i: int|
            0 <= i < self.entries@.len() && (#[trigger] self.entries@[i]).id == id
                && self.entries@[i].event_series_id == series && now < self.entries@[i].expires_at
    }

    /// An empty store.
    pub fn new() -> (r: FlowStore)
        ensures
            r.wf(),
            r.entries@.len() == 0,
    {
        FlowStore { entries: Vec::new() }
    }

    /// Index of the entry for `id`, if any.
    fn find(&self, id: u64) -> (r: Option<usize>)
        ensures
            match r {
                Some(i) => i < self.entries@.len() && self.entries@[i as int].id == id,
                None => forall|i: int|
                    0 <= i < self.entries@.len() ==> (#[trigger] self.entries@[i]).id != id,
            },
    {
        let n = self.entries.len();
        let mut i: usize = 0;
        while i < n
            invariant
                n == self.entries@.len(),
                0 <= i <= n,
                forall|j: int| 0 <= j < i ==> (#[trigger] self.entries@[j]).id != id,
            decreases n - i,
        {
            if self.entries[i].id == id {
                return Some(i);
            }
            i = i + 1;
        }
        None
    }

    /// Stores `{event_series_id}` under token `id` with the full TTL from
    /// `now`, replacing any previous entry for the token.
    pub fn put(&mut self, id: u64, series: EventSeriesId, now: i64)
        requires
            old(self).wf(),
            now + FLOW_TTL_SECONDS <= i64::MAX,
        ensures
            final(self).wf(),
            forall|s2: int, n2: int|
                #[trigger] final(self).live(id, s2, n2) <==> (s2 == series.0 as int && n2 < now
                    + FLOW_TTL_SECONDS),
            forall|id2: u64, s2: int, n2: int|
                id2 != id ==> (#[trigger] final(self).live(id2, s2, n2) <==> old(self).live(
                    id2,
                    s2,
                    n2,
                )),
    {
        let ghost pre = *self;
        match self.find(id) {
            Some(i) => {
                let _ = self.entries.remove(i);
                proof {
                    assert forall|i2: int, j2: int|
                        0 <= i2 < j2 < self.entries@.len() implies (
                    #[trigger] self.entries@[i2]).id != (#[trigger] self.entries@[j2]).id by {
                        if i2 < i as int {
                            assert(self.entries@[i2] == pre.entries@[i2]);
                        } else {
                            assert(self.entries@[i2] == pre.entries@[i2 + 1]);
                        }
                        if j2 < i as int {
                            assert(self.entries@[j2] == pre.entries@[j2]);
                        } else {
                            assert(self.entries@[j2] == pre.entries@[j2 + 1]);
                        }
                    }
                    assert forall|j: int|
                        0 <= j < self.entries@.len() implies (#[trigger] self.entries@[j]).id
                        != id by {
                        if j < i as int {
                            assert(self.entries@[j] == pre.entries@[j]);
                            assert(pre.entries@[j].id != pre.entries@[i as int].id);
                        } else {
                            assert(self.entries@[j] == pre.entries@[j + 1]);
                            assert(pre.entries@[j + 1].id != pre.entries@[i as int].id);
                        }
                    }
                    assert forall|id2: u64, s2: int, n2: int|
                        id2 != id && old(self).live(id2, s2, n2) implies #[trigger] self.live(
                        id2,
                        s2,
                        n2,
                    ) by {
                        let j = choose|j: int|
                            0 <= j < pre.entries@.len() && (#[trigger] pre.entries@[j]).id == id2
                                && pre.entries@[j].event_series_id == s2 && n2
                                < pre.entries@[j].expires_at;
                        if j < i as int {
                            assert(self.entries@[j] == pre.entries@[j]);
                        } else {
                            assert(self.entries@[j - 1] == pre.entries@[j]);
                        }
                    }
                    assert forall|id2: u64, s2: int, n2: int|
                        id2 != id && #[trigger] self.live(id2, s2, n2) implies old(self).live(
                        id2,
                        s2,
                        n2,
                    ) by {
                        let j = choose|j: int|
                            0 <= j < self.entries@.len() && (#[trigger] self.entries@[j]).id == id2
                                && self.entries@[j].event_series_id == s2 && n2
                                < self.entries@[j].expires_at;
                        if j < i as int {
                            assert(self.entries@[j] == pre.entries@[j]);
                        } else {
                            assert(self.entries@[j] == pre.entries@[j + 1]);
                        }
                    }
                }
            },
            None => {},
        }
        let ghost mid = *self;
        let entry = FlowEntry { id, event_series_id: series.0, expires_at: now + FLOW_TTL_SECONDS };
        self.entries.push(entry);
        proof {
            let n = mid.entries@.len() as int;
            assert(self.entries@ == mid.entries@.push(entry));
            assert(forall|j: int|
                0 <= j < n ==> #[trigger] self.entries@[j] == mid.entries@[j]);
            assert(self.entries@[n] == entry);
            assert forall|s2: int, n2: int| #[trigger] self.live(id, s2, n2) implies (s2
                == series.0 as int && n2 < now + FLOW_TTL_SECONDS) by {
                let j = choose|j: int|
                    0 <= j < self.entries@.len() && (#[trigger] self.entries@[j]).id == id
                        && self.entries@[j].event_series_id == s2 && n2
                        < self.entries@[j].expires_at;
                if j < n {
                    assert(mid.entries@[j].id != id);
                }
            }
            assert forall|s2: int, n2: int|
                s2 == series.0 as int && n2 < now + FLOW_TTL_SECONDS implies #[trigger] self.live(
                id,
                s2,
                n2,
            ) by {
                assert(self.entries@[n].id == id);
            }
            assert forall|id2: u64, s2: int, n2: int|
                id2 != id && mid.live(id2, s2, n2) implies #[trigger] self.live(id2, s2, n2) by {
                let j = choose|j: int|
                    0 <= j < mid.entries@.len() && (#[trigger] mid.entries@[j]).id == id2
                        && mid.entries@[j].event_series_id == s2 && n2 < mid.entries@[j].expires_at;
                assert(self.entries@[j] == mid.entries@[j]);
            }
            assert forall|id2: u64, s2: int, n2: int|
                id2 != id && #[trigger] self.live(id2, s2, n2) implies mid.live(id2, s2, n2) by {
                let j = choose|j: int|
                    0 <= j < self.entries@.len() && (#[trigger] self.entries@[j]).id == id2
                        && self.entries@[j].event_series_id == s2 && n2
                        < self.entries@[j].expires_at;
                assert(j < n);
                assert(mid.entries@[j] == self.entries@[j]);
            }
            assert forall|i2: int, j2: int|
                0 <= i2 < j2 < self.entries@.len() implies (#[trigger] self.entries@[i2]).id != (
            #[trigger] self.entries@[j2]).id by {
                if j2 == n {
                    assert(self.entries@[i2] == mid.entries@[i2]);
                    assert(mid.entries@[i2].id != id);
                } else {
                    assert(self.entries@[i2] == mid.entries@[i2]);
                    assert(self.entries@[j2] == mid.entries@[j2]);
                }
            }
        }
    }

    /// Reads the series bound to a token, when the token is alive at `now`.
    pub fn get(&self, id: u64, now: i64) -> (r: Option<EventSeriesId>)
        requires
            self.wf(),
        ensures
            match r {
                Some(s) => self.live(id, s.0 as int, now as int),
                None => forall|s2: int| !self.live(id, s2, now as int),
            },
    {
        match self.find(id) {
            Some(i) => {
                let e = self.entries[i];
                if now < e.expires_at {
                    proof {
                        assert(self.live(id, e.event_series_id as int, now as int));
                    }
                    Some(EventSeriesId(e.event_series_id))
                } else {
                    proof {
                        assert forall|s2: int| !self.live(id, s2, now as int) by {
                            if self.live(id, s2, now as int) {
                                let j = choose|j: int|
                                    0 <= j < self.entries@.len() && (
                                    #[trigger] self.entries@[j]).id == id
                                        && self.entries@[j].event_series_id == s2 && (now as int)
                                        < self.entries@[j].expires_at;
                                if j != i as int {
                                    assert(self.entries@[j].id != self.entries@[i as int].id);
                                }
                            }
                        }
                    }
                    None
                }
            },
            None => {
                proof {
                    assert forall|s2: int| !self.live(id, s2, now as int) by {
                        if self.live(id, s2, now as int) {
                            let j = choose|j: int|
                                0 <= j < self.entries@.len() && (#[trigger] self.entries@[j]).id
                                    == id && self.entries@[j].event_series_id == s2 && (
                                    now as int) < self.entries@[j].expires_at;
                        }
                    }
                }
                None
            },
        }
    }

    /// Deletes a token. Afterwards no retrieval at any time finds it.
    pub fn remove_token(&mut self, id: u64)
        requires
            old(self).wf(),
        ensures
            final(self).wf(),
            forall|s2: int, n2: int| !final(self).live(id, s2, n2),
            forall|id2: u64, s2: int, n2: int|
                id2 != id ==> (#[trigger] final(self).live(id2, s2, n2) <==> old(self).live(
                    id2,
                    s2,
                    n2,
                )),
    {
        let ghost pre = *self;
        match self.find(id) {
            Some(i) => {
                let _ = self.entries.remove(i);
                proof {
                    assert forall|i2: int, j2: int|
                        0 <= i2 < j2 < self.entries@.len() implies (
                    #[trigger] self.entries@[i2]).id != (#[trigger] self.entries@[j2]).id by {
                        if i2 < i as int {
                            assert(self.entries@[i2] == pre.entries@[i2]);
                        } else {
                            assert(self.entries@[i2] == pre.entries@[i2 + 1]);
                        }
                        if j2 < i as int {
                            assert(self.entries@[j2] == pre.entries@[j2]);
                        } else {
                            assert(self.entries@[j2] == pre.entries@[j2 + 1]);
                        }
                    }
                    assert forall|s2: int, n2: int| !self.live(id, s2, n2) by {
                        if self.live(id, s2, n2) {
                            let j = choose|j: int|
                                0 <= j < self.entries@.len() && (#[trigger] self.entries@[j]).id
                                    == id && self.entries@[j].event_series_id == s2 && n2
                                    < self.entries@[j].expires_at;
                            if j < i as int {
                                assert(self.entries@[j] == pre.entries@[j]);
                                assert(pre.entries@[j].id != pre.entries@[i as int].id);
                            } else {
                                assert(self.entries@[j] == pre.entries@[j + 1]);
                                assert(pre.entries@[j + 1].id != pre.entries@[i as int].id);
                            }
                        }
                    }
                    assert forall|id2: u64, s2: int, n2: int|
                        id2 != id && old(self).live(id2, s2, n2) implies #[trigger] self.live(
                        id2,
                        s2,
                        n2,
                    ) by {
                        let j = choose|j: int|
                            0 <= j < pre.entries@.len() && (#[trigger] pre.entries@[j]).id == id2
                                && pre.entries@[j].event_series_id == s2 && n2
                                < pre.entries@[j].expires_at;
                        if j < i as int {
                            assert(self.entries@[j] == pre.entries@[j]);
                        } else {
                            assert(self.entries@[j - 1] == pre.entries@[j]);
                        }
                    }
                    assert forall|id2: u64, s2: int, n2: int|
                        id2 != id && #[trigger] self.live(id2, s2, n2) implies old(self).live(
                        id2,
                        s2,
                        n2,
                    ) by {
                        let j = choose|j: int|
                            0 <= j < self.entries@.len() && (#[trigger] self.entries@[j]).id == id2
                                && self.entries@[j].event_series_id == s2 && n2
                                < self.entries@[j].expires_at;
                        if j < i as int {
                            assert(self.entries@[j] == pre.entries@[j]);
                        } else {
                            assert(self.entries@[j] == pre.entries@[j + 1]);
                        }
                    }
                }
            },
            None => {
                proof {
                    assert forall|s2: int, n2: int| !self.live(id, s2, n2) by {
                        if self.live(id, s2, n2) {
                            let j = choose|j: int|
                                0 <= j < self.entries@.len() && (#[trigger] self.entries@[j]).id
                                    == id && self.entries@[j].event_series_id == s2 && n2
                                    < self.entries@[j].expires_at;
                        }
                    }
                }
            },
        }
    }
}

/// Law: one token is bound to at most one series, so every retrieval before
/// expiry and completion yields the same series.
pub proof fn lemma_flow_single_series(
    store: FlowStore,
    id: u64,
    s1: int,
    s2: int,
    n1: int,
    n2: int,
)
    requires
        store.wf(),
        store.live(id, s1, n1),
        store.live(id, s2, n2),
    ensures
        s1 == s2,
{
    let i1 = choose|i: int|
        0 <= i < store.entries@.len() && (#[trigger] store.entries@[i]).id == id
            && store.entries@[i].event_series_id == s1 && n1 < store.entries@[i].expires_at;
    let i2 = choose|i: int|
        0 <= i < store.entries@.len() && (#[trigger] store.entries@[i]).id == id
            && store.entries@[i].event_series_id == s2 && n2 < store.entries@[i].expires_at;
    if i1 != i2 {
        assert(store.entries@[i1].id != store.entries@[i2].id);
    }
}

/// An in-flight "schedule the next session of series S" action, represented
/// by a random token the user holds as a link.
#[derive(Debug, Clone, Copy)]
pub struct ScheduleSessionFlow {
    pub id: u64,
    pub event_series_id: EventSeriesId,
}

impl ScheduleSessionFlow {
    /// Opens a flow: generates a random token and stores the series under it
    /// with the full TTL.
    pub fn new(store: &mut FlowStore, event_series_id: EventSeriesId, now: i64) -> (flow:
        ScheduleSessionFlow)
        requires
            old(store).wf(),
            now + FLOW_TTL_SECONDS <= i64::MAX,
        ensures
            final(store).wf(),
            flow.event_series_id == event_series_id,
            forall|s2: int, n2: int|
                #[trigger] final(store).live(flow.id, s2, n2) <==> (s2 == event_series_id.0 as int
                    && n2 < now + FLOW_TTL_SECONDS),
            forall|id2: u64, s2: int, n2: int|
                id2 != flow.id ==> (#[trigger] final(store).live(id2, s2, n2) <==> old(store).live(
                    id2,
                    s2,
                    n2,
                )),
    {
        let id = random_u64();
        store.put(id, event_series_id, now);
        ScheduleSessionFlow { id, event_series_id }
    }

    /// Looks a flow up by its token; `None` means unknown or expired, and the
    /// caller shows "link expired".
    pub fn retrieve(store: &FlowStore, id: u64, now: i64) -> (r: Option<ScheduleSessionFlow>)
        requires
            store.wf(),
        ensures
            match r {
                Some(flow) => flow.id == id && store.live(
                    id,
                    flow.event_series_id.0 as int,
                    now as int,
                ),
                None => forall|s2: int| !store.live(id, s2, now as int),
            },
    {
        match store.get(id, now) {
            Some(series) => Some(ScheduleSessionFlow { id, event_series_id: series }),
            None => None,
        }
    }

    /// Completes or abandons the flow: the token is deleted, and no later
    /// retrieval finds it.
    pub fn delete(self, store: &mut FlowStore)
        requires
            old(store).wf(),
        ensures
            final(store).wf(),
            forall|s2: int, n2: int| !final(store).live(self.id, s2, n2),
            forall|id2: u64, s2: int, n2: int|
                id2 != self.id ==> (#[trigger] final(store).live(id2, s2, n2) <==> old(store).live(
                    id2,
                    s2,
                    n2,
                )),
    {
        store.remove_token(self.id);
    }

    /// The next session's title: the trailing session number is incremented,
    /// or `" Session 2"` is appended when no suffix is recognized.
    pub fn increment_session_title(title: &str) -> (r: String)
        ensures
            r@ == next_title_rep(title@),
    {
        next_session_title(title)
    }

    /// Prepares a cloned session for publishing: strips stale shortcodes from
    /// the description, marks the campaign it continues, increments the
    /// session number within the title-length budget, and sets the start.
    ///
    /// A title whose session number cannot be read as a 32-bit value is
    /// rejected.
    pub fn new_event_hook(
        new_event: NewEvent,
        new_date_time: i64,
        old_event_id: &str,
        is_open_event: bool,
    ) -> (r: Result<NewEvent, Error>)
        ensures
            r is Ok <==> split_suffix(new_event.title@) != SessionSuffix::TooLarge,
            r matches Ok(ev) ==> {
                &&& ev.title@ == budgeted_title_rep(
                    split_base(new_event.title@),
                    split_number(new_event.title@) + 1,
                )
                &&& utf16_len(ev.title@) <= MAX_EVENT_NAME_UTF16_LEN
                &&& ev.description@ == rewrite_description_rep(
                    new_event.description@,
                    old_event_id@,
                    is_open_event,
                )
                &&& ev.start_time == new_date_time
            },
    {
        let (base, suffix) = split_session_title(new_event.title.as_str());
        let n: u64 = match suffix {
            SessionSuffix::Number(v) => v,
            SessionSuffix::Absent => 1,
            SessionSuffix::TooLarge => {
                return Err(Error::Validation("session number out of range".to_owned()));
            },
        };
        let title = budgeted_session_title(base.as_str(), n + 1);
        let description = rewrite_description(
            new_event.description.as_str(),
            old_event_id,
            is_open_event,
        );
        Ok(NewEvent { title, description, start_time: new_date_time })
    }
}

} // verus!
