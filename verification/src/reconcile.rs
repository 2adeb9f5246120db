//! The event reconciler: merges one reported event series/session pair into
//! the canonical store, idempotently, resolving which series the event
//! belongs to and mirroring hosts and participants.

use vstd::prelude::*;

use crate::model::{Database, MemberId};
use crate::swissrpg::{discord_id_of, has_attendee, has_organiser, valid_id_in, Event, Session, User};
use crate::text::{dec_rep, parse_nonzero_u64, u64_to_string};

verus! {

/// How one reconciliation attempt ended.
#[derive(PartialEq, Eq, Structural, Clone, Copy, Debug)]
pub enum ReconcileOutcome {
    /// The canonical model now mirrors the payload; `event_id` is the
    /// canonical event.
    Synced { event_id: i32 },
    /// The payload names a legacy event this store has never seen: a
    /// dangling reference, skipped without touching the store.
    SkippedDanglingLegacy,
    /// The payload indicates a legacy series that disagrees with the series
    /// the event is already bound to: skipped without touching the store.
    SkippedConflict,
}

/// The external id of the legacy event a series payload points back to,
/// written in decimal.
pub open spec fn legacy_mid(series: Event) -> Seq<char> {
    dec_rep(series.legacy_id->0 as int)
}

/// The payload names a legacy event that no binding in the store knows.
pub open spec fn dangling_legacy(db: Database, series: Event) -> bool {
    series.legacy_id is Some && !db.mu_bound(legacy_mid(series))
}

/// The payload's legacy link indicates one series while the session is
/// already bound to a different one.
pub open spec fn indicated_conflict(db: Database, series: Event, session: Session) -> bool {
    &&& series.legacy_id is Some
    &&& exists|s: int, l: int|
        #![auto]
        db.sw_bound_series(session.uuid@, s) && db.mu_bound_series(legacy_mid(series), l) && s != l
}

/// The series the payload resolves to, by precedence: the series the session
/// is already bound to; else the legacy-linked series; else a brand-new one.
pub open spec fn resolved_series(db: Database, series: Event, session: Session, s: int) -> bool {
    if db.sw_bound(session.uuid@) {
        db.sw_bound_series(session.uuid@, s)
    } else if series.legacy_id is Some {
        db.mu_bound_series(legacy_mid(series), s)
    } else {
        s == db.next_series_id
    }
}

/// Optional strings that read the same.
pub open spec fn opt_string_eq(a: Option<String>, b: Option<String>) -> bool {
    match (a, b) {
        (Option::None, Option::None) => true,
        (Option::Some(x), Option::Some(y)) => x@ == y@,
        _ => false,
    }
}

/// The canonical event `e` carries exactly the payload's fields, in series
/// `s`.
pub open spec fn event_matches(db: Database, e: int, series: Event, session: Session, s: int) -> bool {
    exists|i: int|
        0 <= i < db.events@.len() && (#[trigger] db.events@[i]).id == e && db.events@[i].series_id
            == s && db.events@[i].start_time == session.start && db.events@[i].title@
            == series.title@ && opt_string_eq(db.events@[i].description, series.description)
            && db.events@[i].is_online == false && db.events@[i].discord_category_id is None
}

/// Registers every organiser with a readable identifier as a host of the
/// event: get-or-create the member, insert-if-absent the host row.
/// Malformed identifiers are skipped one by one.
fn sync_hosts(db: &mut Database, event_id: i32, organisers: &Vec<User>)
    requires
        old(db).wf(),
        old(db).event_exists(event_id as int),
        old(db).next_member_id + organisers@.len() <= i32::MAX,
    ensures
        final(db).wf(),
        final(db).series@ == old(db).series@,
        final(db).events@ == old(db).events@,
        final(db).meetup_events@ == old(db).meetup_events@,
        final(db).swissrpg_events@ == old(db).swissrpg_events@,
        final(db).participants@ == old(db).participants@,
        final(db).next_series_id == old(db).next_series_id,
        final(db).next_event_id == old(db).next_event_id,
        final(db).next_binding_id == old(db).next_binding_id,
        old(db).next_member_id <= final(db).next_member_id <= old(db).next_member_id + organisers@.len(),
        forall|m2: int, d2: u64|
            old(db).member_with_discord(m2, d2) ==> #[trigger] final(db).member_with_discord(m2, d2),
        forall|m2: int, d2: u64|
            #[trigger] final(db).member_with_discord(m2, d2) ==> (old(db).member_with_discord(m2, d2)
                || m2 >= old(db).next_member_id),
        forall|m2: int|
            #[trigger] final(db).member_exists(m2) ==> (old(db).member_exists(m2) || m2 >= old(
                db,
            ).next_member_id),
        forall|m2: int| old(db).member_exists(m2) ==> #[trigger] final(db).member_exists(m2),
        forall|e2: int, m2: int|
            e2 != event_id as int ==> (#[trigger] final(db).host_pair(e2, m2) <==> old(db).host_pair(
                e2,
                m2,
            )),
        forall|d: u64|
            #[trigger] final(db).is_host(event_id as int, d) <==> (old(db).is_host(event_id as int, d)
                || valid_id_in(organisers@, d)),
{
    let n = organisers.len();
    let mut k: usize = 0;
    while k < n
        invariant
            db.wf(),
            n == organisers@.len(),
            0 <= k <= n,
            db.event_exists(event_id as int),
            db.series@ == old(db).series@,
            db.events@ == old(db).events@,
            db.meetup_events@ == old(db).meetup_events@,
            db.swissrpg_events@ == old(db).swissrpg_events@,
            db.participants@ == old(db).participants@,
            db.next_series_id == old(db).next_series_id,
            db.next_event_id == old(db).next_event_id,
            db.next_binding_id == old(db).next_binding_id,
            old(db).next_member_id <= db.next_member_id <= old(db).next_member_id + k,
            forall|m2: int, d2: u64|
                old(db).member_with_discord(m2, d2) ==> #[trigger] db.member_with_discord(m2, d2),
            forall|m2: int, d2: u64|
                #[trigger] db.member_with_discord(m2, d2) ==> (old(db).member_with_discord(m2, d2)
                    || m2 >= old(db).next_member_id),
            forall|m2: int|
                #[trigger] db.member_exists(m2) ==> (old(db).member_exists(m2) || m2 >= old(
                    db,
                ).next_member_id),
            forall|m2: int| old(db).member_exists(m2) ==> #[trigger] db.member_exists(m2),
            forall|e2: int, m2: int|
                e2 != event_id as int ==> (#[trigger] db.host_pair(e2, m2) <==> old(db).host_pair(
                    e2,
                    m2,
                )),
            forall|d: u64|
                #[trigger] db.is_host(event_id as int, d) <==> (old(db).is_host(event_id as int, d)
                    || (exists|q: int|
                    0 <= q < k && discord_id_of(#[trigger] organisers@[q].discord_id@) == Some(d))),
        decreases n - k,
    {
        let ghost prev = *db;
        match parse_nonzero_u64(organisers[k].discord_id.as_str()) {
            Some(d) => {
                let m = db.get_or_create_member_for_discord_id(d);
                let ghost mid = *db;
                db.add_host_if_absent(event_id, m);
                proof {
                    assert(discord_id_of(organisers@[k as int].discord_id@) == Some(d));
                    crate::model::lemma_same_members(mid, *db);
                    crate::model::lemma_same_hosts(mid, prev);
                    assert(db.member_with_discord(m.0 as int, d));
                    assert forall|m2: int, d2: u64|
                        old(db).member_with_discord(m2, d2) implies
                        #[trigger] db.member_with_discord(m2, d2) by {
                        assert(prev.member_with_discord(m2, d2));
                        assert(mid.member_with_discord(m2, d2));
                    }
                    assert forall|m2: int, d2: u64|
                        #[trigger] db.member_with_discord(m2, d2) implies (old(
                        db,
                    ).member_with_discord(m2, d2) || m2 >= old(db).next_member_id) by {
                        assert(mid.member_with_discord(m2, d2));
                        if !prev.member_with_discord(m2, d2) {
                            assert(m2 == m.0 as int && d2 == d);
                            assert(m.0 == prev.next_member_id);
                        }
                    }
                    assert forall|m2: int| #[trigger] db.member_exists(m2) implies (old(
                        db,
                    ).member_exists(m2) || m2 >= old(db).next_member_id) by {
                        assert(mid.member_exists(m2));
                        if !prev.member_exists(m2) {
                            assert(m2 == m.0 as int);
                            assert(m.0 == prev.next_member_id) by {
                                if prev.member_with_discord(m.0 as int, d) {
                                    assert(prev.member_exists(m.0 as int));
                                }
                            }
                        }
                    }
                    assert forall|m2: int|
                        old(db).member_exists(m2) implies #[trigger] db.member_exists(m2) by {
                        assert(prev.member_exists(m2));
                        assert(mid.member_exists(m2));
                    }
                    assert(db.is_host(event_id as int, d)) by {
                        assert(db.host_pair(event_id as int, m.0 as int));
                    }
                    assert forall|d2: u64| #[trigger] db.is_host(event_id as int, d2) implies (
                    prev.is_host(event_id as int, d2) || d2 == d) by {
                        let m2 = choose|m2: int|
                            db.host_pair(event_id as int, m2) && db.member_with_discord(m2, d2);
                        if m2 == m.0 as int {
                            crate::model::lemma_member_discord_unique(*db, m2, d2, m.0 as int, d);
                        } else {
                            assert(mid.host_pair(event_id as int, m2));
                            assert(prev.host_pair(event_id as int, m2));
                            assert(mid.member_with_discord(m2, d2));
                            assert(prev.member_with_discord(m2, d2)) by {
                                if !prev.member_with_discord(m2, d2) {
                                    assert(m2 == m.0 as int);
                                }
                            }
                        }
                    }
                    assert forall|d2: u64|
                        prev.is_host(event_id as int, d2) || d2 == d implies #[trigger] db.is_host(
                        event_id as int,
                        d2,
                    ) by {
                        if prev.is_host(event_id as int, d2) {
                            let m2 = choose|m2: int|
                                prev.host_pair(event_id as int, m2) && prev.member_with_discord(
                                    m2,
                                    d2,
                                );
                            assert(mid.member_with_discord(m2, d2));
                            assert(db.member_with_discord(m2, d2));
                            assert(mid.host_pair(event_id as int, m2));
                            assert(db.host_pair(event_id as int, m2));
                        }
                    }
                    assert forall|e2: int, m2: int|
                        e2 != event_id as int implies (#[trigger] db.host_pair(e2, m2)
                        <==> prev.host_pair(e2, m2)) by {
                        if db.host_pair(e2, m2) {
                            assert(prev.host_pair(e2, m2));
                        }
                        if prev.host_pair(e2, m2) {
                            assert(mid.host_pair(e2, m2));
                            assert(db.host_pair(e2, m2));
                        }
                    }
                }
            },
            None => {
                proof {
                    assert(discord_id_of(organisers@[k as int].discord_id@) is None);
                }
            },
        }
        k = k + 1;
    }
}

/// Extending the scanned prefix by one user keeps, or adds, a valid
/// identifier.
proof fn lemma_valid_id_take_step(users: Seq<User>, k: int, d: u64)
    requires
        0 <= k < users.len(),
        valid_id_in(users.take(k), d) || discord_id_of(users[k].discord_id@) == Some(d),
    ensures
        valid_id_in(users.take(k + 1), d),
{
    if valid_id_in(users.take(k), d) {
        let q = choose|q: int|
            0 <= q < users.take(k).len() && discord_id_of(
                #[trigger] users.take(k)[q].discord_id@,
            ) == Some(d);
        assert(users.take(k)[q] == users[q]);
        assert(users.take(k + 1)[q] == users[q]);
        assert(discord_id_of(users.take(k + 1)[q].discord_id@) == Some(d));
    } else {
        assert(users.take(k + 1)[k] == users[k]);
        assert(discord_id_of(users.take(k + 1)[k].discord_id@) == Some(d));
    }
}

/// A valid identifier of the scanned prefix is a valid identifier of one of
/// the first `k` users.
proof fn lemma_valid_id_take_shrink(users: Seq<User>, k: int, d: u64)
    requires
        0 <= k <= users.len(),
        valid_id_in(users.take(k), d),
        k > 0 ==> discord_id_of(users[k - 1].discord_id@) != Some(d),
    ensures
        k > 0 ==> valid_id_in(users.take(k - 1), d),
        k == 0 ==> false,
{
    let q = choose|q: int|
        0 <= q < users.take(k).len() && discord_id_of(#[trigger] users.take(k)[q].discord_id@)
            == Some(d);
    assert(users.take(k)[q] == users[q]);
    if q < k - 1 {
        assert(users.take(k - 1)[q] == users[q]);
        assert(discord_id_of(users.take(k - 1)[q].discord_id@) == Some(d));
    }
}

/// Looks up or creates a member for every attendee with a readable
/// identifier, in order; malformed identifiers are skipped one by one.
/// The member stands for some valid identifier among the given users.
pub open spec fn tracks_valid_id(db: Database, m: MemberId, users: Seq<User>) -> bool {
    exists|d: u64| db.member_with_discord(m.0 as int, d) && valid_id_in(users, d)
}

/// Some collected member stands for the identifier `d`.
pub open spec fn covered_by_ids(db: Database, ids: Seq<MemberId>, d: u64) -> bool {
    exists|t: int| 0 <= t < ids.len() && db.member_with_discord((#[trigger] ids[t]).0 as int, d)
}

/// One step of the attendee pass: the user at position `k` is looked up or
/// created when their identifier is readable, and recorded; otherwise the
/// record is skipped.
#[verifier::rlimit(60)]
fn collect_step(db: &mut Database, ids: &mut Vec<MemberId>, users: &Vec<User>, k: usize)
    requires
        old(db).wf(),
        k < users@.len(),
        old(db).next_member_id < i32::MAX,
        forall|t: int|
            0 <= t < old(ids)@.len() ==> old(db).member_exists(
                (#[trigger] old(ids)@[t]).0 as int,
            ),
        forall|t: int|
            0 <= t < old(ids)@.len() ==> #[trigger] tracks_valid_id(
                *old(db),
                old(ids)@[t],
                users@.take(k as int),
            ),
        forall|d: u64|
            #[trigger] valid_id_in(users@.take(k as int), d) ==> covered_by_ids(
                *old(db),
                old(ids)@,
                d,
            ),
    ensures
        final(db).wf(),
        final(db).series@ == old(db).series@,
        final(db).events@ == old(db).events@,
        final(db).meetup_events@ == old(db).meetup_events@,
        final(db).swissrpg_events@ == old(db).swissrpg_events@,
        final(db).hosts@ == old(db).hosts@,
        final(db).participants@ == old(db).participants@,
        final(db).next_series_id == old(db).next_series_id,
        final(db).next_event_id == old(db).next_event_id,
        final(db).next_binding_id == old(db).next_binding_id,
        old(db).next_member_id <= final(db).next_member_id <= old(db).next_member_id + 1,
        forall|m2: int, d2: u64|
            old(db).member_with_discord(m2, d2) ==> #[trigger] final(db).member_with_discord(
                m2,
                d2,
            ),
        forall|m2: int, d2: u64|
            #[trigger] final(db).member_with_discord(m2, d2) ==> (old(db).member_with_discord(
                m2,
                d2,
            ) || m2 >= old(db).next_member_id),
        forall|m2: int|
            #[trigger] final(db).member_exists(m2) ==> (old(db).member_exists(m2) || m2 >= old(
                db,
            ).next_member_id),
        forall|m2: int| old(db).member_exists(m2) ==> #[trigger] final(db).member_exists(m2),
        forall|t: int|
            0 <= t < final(ids)@.len() ==> final(db).member_exists(
                (#[trigger] final(ids)@[t]).0 as int,
            ),
        forall|t: int|
            0 <= t < final(ids)@.len() ==> #[trigger] tracks_valid_id(
                *final(db),
                final(ids)@[t],
                users@.take(k as int + 1),
            ),
        forall|d: u64|
            #[trigger] valid_id_in(users@.take(k as int + 1), d) ==> covered_by_ids(
                *final(db),
                final(ids)@,
                d,
            ),
{
    let ghost ids0 = ids@;
    match parse_nonzero_u64(users[k].discord_id.as_str()) {
        Some(d) => {
            let m = db.get_or_create_member_for_discord_id(d);
            ids.push(m);
            proof {
                assert(discord_id_of(users@[k as int].discord_id@) == Some(d));
                assert(ids@ == ids0.push(m));
                assert(forall|t: int| 0 <= t < ids0.len() ==> #[trigger] ids@[t] == ids0[t]);
                assert(ids@[ids0.len() as int] == m);
                assert(db.member_with_discord(m.0 as int, d));
                assert forall|m2: int| #[trigger] db.member_exists(m2) implies (old(
                    db,
                ).member_exists(m2) || m2 >= old(db).next_member_id) by {
                    if !old(db).member_exists(m2) {
                        assert(m2 == m.0 as int);
                        assert(m.0 == old(db).next_member_id) by {
                            if old(db).member_with_discord(m.0 as int, d) {
                                assert(old(db).member_exists(m.0 as int));
                            }
                        }
                    }
                }
                assert forall|t: int| 0 <= t < ids@.len() implies #[trigger] tracks_valid_id(
                    *db,
                    ids@[t],
                    users@.take(k as int + 1),
                ) by {
                    if t < ids0.len() {
                        assert(tracks_valid_id(*old(db), ids0[t], users@.take(k as int)));
                        let d2 = choose|d2: u64|
                            old(db).member_with_discord((ids0[t]).0 as int, d2) && valid_id_in(
                                users@.take(k as int),
                                d2,
                            );
                        lemma_valid_id_take_step(users@, k as int, d2);
                        assert(db.member_with_discord(ids@[t].0 as int, d2));
                    } else {
                        lemma_valid_id_take_step(users@, k as int, d);
                        assert(db.member_with_discord(ids@[t].0 as int, d));
                    }
                }
                assert forall|d2: u64| #![trigger valid_id_in(users@.take(k as int + 1), d2)]
                    valid_id_in(users@.take(k as int + 1), d2) implies covered_by_ids(
                    *db,
                    ids@,
                    d2,
                ) by {
                    let q = choose|q: int|
                        0 <= q < users@.take(k as int + 1).len() && discord_id_of(
                            #[trigger] users@.take(k as int + 1)[q].discord_id@,
                        ) == Some(d2);
                    assert(users@.take(k as int + 1)[q] == users@[q]);
                    if q < k {
                        assert(users@.take(k as int)[q] == users@[q]);
                        assert(valid_id_in(users@.take(k as int), d2));
                        assert(covered_by_ids(*old(db), ids0, d2));
                        let t = choose|t: int|
                            0 <= t < ids0.len() && old(db).member_with_discord(
                                (#[trigger] ids0[t]).0 as int,
                                d2,
                            );
                        assert(ids@[t] == ids0[t]);
                        assert(db.member_with_discord(ids@[t].0 as int, d2));
                    } else {
                        assert(db.member_with_discord(ids@[ids0.len() as int].0 as int, d2));
                    }
                }
            }
        },
        None => {
            proof {
                assert(discord_id_of(users@[k as int].discord_id@) is None);
                assert forall|t: int| 0 <= t < ids@.len() implies #[trigger] tracks_valid_id(
                    *db,
                    ids@[t],
                    users@.take(k as int + 1),
                ) by {
                    assert(tracks_valid_id(*old(db), ids@[t], users@.take(k as int)));
                    let d2 = choose|d2: u64|
                        db.member_with_discord((ids@[t]).0 as int, d2) && valid_id_in(
                            users@.take(k as int),
                            d2,
                        );
                    lemma_valid_id_take_step(users@, k as int, d2);
                    assert(db.member_with_discord(ids@[t].0 as int, d2));
                }
                assert forall|d2: u64| #![trigger valid_id_in(users@.take(k as int + 1), d2)]
                    valid_id_in(users@.take(k as int + 1), d2) implies covered_by_ids(
                    *db,
                    ids@,
                    d2,
                ) by {
                    lemma_valid_id_take_shrink(users@, k as int + 1, d2);
                    assert(valid_id_in(users@.take(k as int), d2));
                }
            }
        },
    }
}

/// Looks up or creates a member for every attendee with a readable
/// identifier, in order; malformed identifiers are skipped one by one.
fn collect_members(db: &mut Database, users: &Vec<User>) -> (ids: Vec<MemberId>)
    requires
        old(db).wf(),
        old(db).next_member_id + users@.len() <= i32::MAX,
    ensures
        final(db).wf(),
        final(db).series@ == old(db).series@,
        final(db).events@ == old(db).events@,
        final(db).meetup_events@ == old(db).meetup_events@,
        final(db).swissrpg_events@ == old(db).swissrpg_events@,
        final(db).hosts@ == old(db).hosts@,
        final(db).participants@ == old(db).participants@,
        final(db).next_series_id == old(db).next_series_id,
        final(db).next_event_id == old(db).next_event_id,
        final(db).next_binding_id == old(db).next_binding_id,
        old(db).next_member_id <= final(db).next_member_id <= old(db).next_member_id
            + users@.len(),
        forall|m2: int, d2: u64|
            old(db).member_with_discord(m2, d2) ==> #[trigger] final(db).member_with_discord(
                m2,
                d2,
            ),
        forall|m2: int, d2: u64|
            #[trigger] final(db).member_with_discord(m2, d2) ==> (old(db).member_with_discord(
                m2,
                d2,
            ) || m2 >= old(db).next_member_id),
        forall|m2: int|
            #[trigger] final(db).member_exists(m2) ==> (old(db).member_exists(m2) || m2 >= old(
                db,
            ).next_member_id),
        forall|m2: int| old(db).member_exists(m2) ==> #[trigger] final(db).member_exists(m2),
        forall|t: int|
            0 <= t < ids@.len() ==> final(db).member_exists((#[trigger] ids@[t]).0 as int),
        forall|t: int|
            0 <= t < ids@.len() ==> #[trigger] tracks_valid_id(*final(db), ids@[t], users@),
        forall|d: u64|
            #[trigger] valid_id_in(users@, d) ==> covered_by_ids(*final(db), ids@, d),
{
    let n = users.len();
    let mut ids: Vec<MemberId> = Vec::new();
    let mut k: usize = 0;
    while k < n
        invariant
            db.wf(),
            n == users@.len(),
            0 <= k <= n,
            db.series@ == old(db).series@,
            db.events@ == old(db).events@,
            db.meetup_events@ == old(db).meetup_events@,
            db.swissrpg_events@ == old(db).swissrpg_events@,
            db.hosts@ == old(db).hosts@,
            db.participants@ == old(db).participants@,
            db.next_series_id == old(db).next_series_id,
            db.next_event_id == old(db).next_event_id,
            db.next_binding_id == old(db).next_binding_id,
            old(db).next_member_id <= db.next_member_id <= old(db).next_member_id + k,
            forall|m2: int, d2: u64|
                old(db).member_with_discord(m2, d2) ==> #[trigger] db.member_with_discord(m2, d2),
            forall|m2: int, d2: u64|
                #[trigger] db.member_with_discord(m2, d2) ==> (old(db).member_with_discord(m2, d2)
                    || m2 >= old(db).next_member_id),
            forall|m2: int|
                #[trigger] db.member_exists(m2) ==> (old(db).member_exists(m2) || m2 >= old(
                    db,
                ).next_member_id),
            forall|m2: int| old(db).member_exists(m2) ==> #[trigger] db.member_exists(m2),
            forall|t: int| 0 <= t < ids@.len() ==> db.member_exists((#[trigger] ids@[t]).0 as int),
            forall|t: int|
                0 <= t < ids@.len() ==> #[trigger] tracks_valid_id(
                    *db,
                    ids@[t],
                    users@.take(k as int),
                ),
            forall|d: u64|
                #[trigger] valid_id_in(users@.take(k as int), d) ==> covered_by_ids(*db, ids@, d),
        decreases n - k,
    {
        let ghost pre = *db;
        collect_step(db, &mut ids, users, k);
        proof {
            assert forall|m2: int, d2: u64|
                old(db).member_with_discord(m2, d2) implies #[trigger] db.member_with_discord(
                m2,
                d2,
            ) by {
                assert(pre.member_with_discord(m2, d2));
            }
            assert forall|m2: int, d2: u64|
                #[trigger] db.member_with_discord(m2, d2) implies (old(db).member_with_discord(
                m2,
                d2,
            ) || m2 >= old(db).next_member_id) by {
                if pre.member_with_discord(m2, d2) {
                } else {
                    assert(m2 >= pre.next_member_id);
                }
            }
            assert forall|m2: int| #[trigger] db.member_exists(m2) implies (old(db).member_exists(
                m2,
            ) || m2 >= old(db).next_member_id) by {
                if pre.member_exists(m2) {
                } else {
                    assert(m2 >= pre.next_member_id);
                }
            }
            assert forall|m2: int|
                old(db).member_exists(m2) implies #[trigger] db.member_exists(m2) by {
                assert(pre.member_exists(m2));
            }
        }
        k = k + 1;
    }
    proof {
        assert(users@.take(n as int) == users@) by {
            assert(users@.take(n as int) =~= users@);
        }
    }
    ids
}


/// The event bound to `uuid`, with its series, if any.
fn lookup_sw(db: &Database, uuid: &String) -> (r: Option<(i32, i32)>)
    requires
        db.wf(),
    ensures
        match r {
            Some(p) => db.binds_sw(uuid@, p.0 as int) && db.event_in_series(p.0 as int, p.1 as int),
            None => !db.sw_bound(uuid@),
        },
{
    match db.find_sw_binding(uuid) {
        Some(bi) => {
            let eid = db.swissrpg_events[bi].event_id;
            proof {
                assert(db.binds_sw(uuid@, eid as int));
                assert(db.event_exists(eid as int));
            }
            match db.find_event(eid) {
                Some(ei) => {
                    let s = db.events[ei].series_id;
                    proof {
                        assert(db.event_in_series(eid as int, s as int));
                    }
                    Some((eid, s))
                },
                None => {
                    proof {
                        // The binding's event exists, so this arm cannot run.
                        assert(false);
                    }
                    None
                },
            }
        },
        None => None,
    }
}

/// The event bound to legacy id `mid`, with its series, if any.
fn lookup_mu(db: &Database, mid: &String) -> (r: Option<(i32, i32)>)
    requires
        db.wf(),
    ensures
        match r {
            Some(p) => db.binds_mu(mid@, p.0 as int) && db.event_in_series(p.0 as int, p.1 as int),
            None => !db.mu_bound(mid@),
        },
{
    match db.find_mu_binding(mid) {
        Some(bi) => {
            let eid = db.meetup_events[bi].event_id;
            proof {
                assert(db.binds_mu(mid@, eid as int));
                assert(db.event_exists(eid as int));
            }
            match db.find_event(eid) {
                Some(ei) => {
                    let s = db.events[ei].series_id;
                    proof {
                        assert(db.event_in_series(eid as int, s as int));
                    }
                    Some((eid, s))
                },
                None => {
                    proof {
                        // The binding's event exists, so this arm cannot run.
                        assert(false);
                    }
                    None
                },
            }
        },
        None => None,
    }
}

/// Everything a successful reconciliation establishes: the binding stands,
/// the event row mirrors the payload in the resolved series, participants
/// equal the reported attendees, hosts grew by the reported organisers, and
/// nothing else changed.
pub open spec fn reconcile_synced(
    pre: Database,
    post: Database,
    series: Event,
    session: Session,
    event_id: i32,
) -> bool {
    &&& post.binds_sw(session.uuid@, event_id as int)
    &&& (pre.sw_bound(session.uuid@) ==> pre.binds_sw(session.uuid@, event_id as int))
    &&& (!pre.sw_bound(session.uuid@) ==> event_id == pre.next_event_id)
    &&& exists|s: int|
        #[trigger] resolved_series(pre, series, session, s) && event_matches(
            post,
            event_id as int,
            series,
            session,
            s,
        )
    &&& forall|d: u64|
        #[trigger] post.is_participant(event_id as int, d) <==> has_attendee(session, d)
    &&& forall|d: u64|
        #[trigger] post.is_host(event_id as int, d) <==> (pre.is_host(event_id as int, d)
            || has_organiser(series, d))
    &&& post.meetup_events@ == pre.meetup_events@
    &&& forall|sid2: Seq<char>, e2: int|
        sid2 != session.uuid@ ==> (#[trigger] post.binds_sw(sid2, e2) <==> pre.binds_sw(sid2, e2))
    &&& forall|e2: int, s2: int|
        e2 != event_id as int ==> (#[trigger] post.event_in_series(e2, s2) <==> pre.event_in_series(
            e2,
            s2,
        ))
    &&& forall|e2: int, d: u64|
        e2 != event_id as int ==> (#[trigger] post.is_participant(e2, d) <==> pre.is_participant(
            e2,
            d,
        ))
    &&& forall|e2: int, d: u64|
        e2 != event_id as int ==> (#[trigger] post.is_host(e2, d) <==> pre.is_host(e2, d))
    &&& forall|s2: int| pre.series_exists(s2) ==> post.series_exists(s2)
}

/// Applies a payload to the store once the target series is resolved:
/// upserts the event row, inserts the binding on first sight, adds hosts,
/// and mirrors the participant set.
#[verifier::rlimit(100)]
fn sync_apply(
    db: &mut Database,
    event_series: &Event,
    event: &Session,
    series_id: i32,
    existing: Option<(i32, i32)>,
) -> (event_id: i32)
    requires
        old(db).wf(),
        old(db).series_exists(series_id as int),
        old(db).next_event_id < i32::MAX,
        old(db).next_binding_id < i32::MAX,
        old(db).next_member_id + event_series.organisers@.len() + event.attendees@.len()
            <= i32::MAX,
        match existing {
            Some(p) => old(db).binds_sw(event.uuid@, p.0 as int),
            None => !old(db).sw_bound(event.uuid@),
        },
    ensures
        final(db).wf(),
        final(db).binds_sw(event.uuid@, event_id as int),
        existing matches Some(p) ==> event_id == p.0,
        existing is None ==> event_id == old(db).next_event_id,
        event_matches(*final(db), event_id as int, *event_series, *event, series_id as int),
        forall|d: u64|
            #[trigger] final(db).is_participant(event_id as int, d) <==> has_attendee(*event, d),
        forall|d: u64|
            #[trigger] final(db).is_host(event_id as int, d) <==> (old(db).is_host(
                event_id as int,
                d,
            ) || has_organiser(*event_series, d)),
        final(db).meetup_events@ == old(db).meetup_events@,
        final(db).series@ == old(db).series@,
        forall|sid2: Seq<char>, e2: int|
            sid2 != event.uuid@ ==> (#[trigger] final(db).binds_sw(sid2, e2) <==> old(db).binds_sw(
                sid2,
                e2,
            )),
        forall|e2: int, s2: int|
            e2 != event_id as int ==> (#[trigger] final(db).event_in_series(e2, s2) <==> old(
                db,
            ).event_in_series(e2, s2)),
        forall|e2: int, d: u64|
            e2 != event_id as int ==> (#[trigger] final(db).is_participant(e2, d) <==> old(
                db,
            ).is_participant(e2, d)),
        forall|e2: int, d: u64|
            e2 != event_id as int ==> (#[trigger] final(db).is_host(e2, d) <==> old(db).is_host(
                e2,
                d,
            )),
{
    // Steps 4 and 5: upsert the event row; insert the binding on first sight.
    let title = event_series.title.clone();
    let description: Option<String> = match &event_series.description {
        Some(s) => Some(s.clone()),
        None => None,
    };
    let event_id: i32;
    match existing {
        Some((eid, _s)) => {
            proof {
                assert(old(db).event_exists(eid as int)) by {
                    let i = choose|i: int|
                        0 <= i < old(db).swissrpg_events@.len() && (
                        #[trigger] old(db).swissrpg_events@[i]).swissrpg_id@ == event.uuid@ && old(
                            db,
                        ).swissrpg_events@[i].event_id == eid;
                    assert(old(db).event_exists(
                        old(db).swissrpg_events@[i].event_id as int,
                    ));
                }
            }
            let ei = db.find_event(eid).unwrap();
            db.update_event(ei, series_id, event.start, title, description);
            event_id = eid;
            proof {
                assert(event_matches(*db, eid as int, *event_series, *event, series_id as int))
                    by {
                    assert(db.events@[ei as int].id == eid);
                    assert(db.events@[ei as int].title@ == event_series.title@);
                    assert(opt_string_eq(
                        db.events@[ei as int].description,
                        event_series.description,
                    ));
                }
                crate::model::lemma_same_sw_bindings(*old(db), *db);
                assert(db.binds_sw(event.uuid@, event_id as int));
            }
        },
        None => {
            event_id = db.insert_event(series_id, event.start, title, description);
            let ghost db_u = *db;
            proof {
                let n = db.events@.len() - 1;
                assert(event_matches(*db, event_id as int, *event_series, *event, series_id as int))
                    by {
                    assert(db.events@[n].id == event_id);
                    assert(db.events@[n].title@ == event_series.title@);
                    assert(opt_string_eq(db.events@[n].description, event_series.description));
                }
                crate::model::lemma_same_sw_bindings(*old(db), db_u);
                assert(!db.sw_bound(event.uuid@)) by {
                    if db.sw_bound(event.uuid@) {
                        let e2 = choose|e2: int| db.binds_sw(event.uuid@, e2);
                        assert(old(db).binds_sw(event.uuid@, e2));
                        assert(old(db).sw_bound(event.uuid@));
                    }
                }
                assert forall|i: int|
                    0 <= i < db.swissrpg_events@.len() implies (
                #[trigger] db.swissrpg_events@[i]).event_id != event_id by {
                    assert(old(db).event_exists(old(db).swissrpg_events@[i].event_id as int));
                    let j = choose|j: int|
                        0 <= j < old(db).events@.len() && (#[trigger] old(db).events@[j]).id == old(
                            db,
                        ).swissrpg_events@[i].event_id;
                    assert(old(db).events@[j].id < old(db).next_event_id);
                }
            }
            db.insert_sw_binding(event_id, event.uuid.clone(), event_series.public_url.clone());
            proof {
                crate::model::lemma_same_events(db_u, *db);
                assert(event_matches(*db, event_id as int, *event_series, *event, series_id as int))
                    by {
                    let i = choose|i: int|
                        0 <= i < db_u.events@.len() && (#[trigger] db_u.events@[i]).id == event_id
                            as int && db_u.events@[i].series_id == series_id as int
                            && db_u.events@[i].start_time == event.start && db_u.events@[i].title@
                            == event_series.title@ && opt_string_eq(
                            db_u.events@[i].description,
                            event_series.description,
                        ) && db_u.events@[i].is_online == false
                            && db_u.events@[i].discord_category_id is None;
                    assert(db.events@[i] == db_u.events@[i]);
                }
                assert forall|e2: int, s2: int|
                    e2 != event_id as int implies (#[trigger] db.event_in_series(e2, s2) <==> old(
                    db,
                ).event_in_series(e2, s2)) by {
                    assert(db.event_in_series(e2, s2) <==> db_u.event_in_series(e2, s2));
                }
            }
        },
    }
    let ghost db_c = *db;
    proof {
        assert(db_c.binds_sw(event.uuid@, event_id as int));
        assert(db_c.event_exists(event_id as int));
        crate::model::lemma_same_members(*old(db), db_c);
        crate::model::lemma_same_hosts(*old(db), db_c);
        crate::model::lemma_same_participants(*old(db), db_c);
    }

    // Step 6: hosts, additive and idempotent.
    sync_hosts(db, event_id, &event_series.organisers);
    let ghost db_d = *db;

    // Step 7: participants mirror the reported attendee list exactly.
    let member_ids = collect_members(db, &event.attendees);
    let ghost db_e = *db;
    db.set_participants(event_id, &member_ids);
    proof {
        crate::model::lemma_same_members(db_e, *db);
        crate::model::lemma_same_hosts(db_d, db_e);
        crate::model::lemma_same_hosts(db_e, *db);
        crate::model::lemma_same_events(db_c, db_d);
        crate::model::lemma_same_events(db_d, db_e);
        crate::model::lemma_same_events(db_e, *db);
        crate::model::lemma_same_sw_bindings(db_c, db_d);
        crate::model::lemma_same_sw_bindings(db_d, db_e);
        crate::model::lemma_same_sw_bindings(db_e, *db);

        // Member growth from the hosts and attendees passes, composed.
        assert forall|m2: int, d2: u64|
            db_d.member_with_discord(m2, d2) implies #[trigger] db.member_with_discord(
            m2,
            d2,
        ) by {
            assert(db_e.member_with_discord(m2, d2));
        }
        assert forall|m2: int, d2: u64|
            #[trigger] db.member_with_discord(m2, d2) implies (db_d.member_with_discord(m2, d2)
                || m2 >= db_d.next_member_id) by {
            assert(db_e.member_with_discord(m2, d2));
        }
        assert forall|m2: int, d2: u64|
            db_c.member_with_discord(m2, d2) implies #[trigger] db.member_with_discord(
            m2,
            d2,
        ) by {
            assert(db_d.member_with_discord(m2, d2));
            assert(db_e.member_with_discord(m2, d2));
        }
        assert forall|m2: int, d2: u64|
            #[trigger] db.member_with_discord(m2, d2) implies (db_c.member_with_discord(m2, d2)
                || m2 >= db_c.next_member_id) by {
            assert(db_e.member_with_discord(m2, d2));
            if db_d.member_with_discord(m2, d2) {
            } else {
                assert(m2 >= db_d.next_member_id);
            }
        }

        // The event row written in the upsert is untouched afterwards.
        assert(event_matches(*db, event_id as int, *event_series, *event, series_id as int)) by {
            let i = choose|i: int|
                0 <= i < db_c.events@.len() && (#[trigger] db_c.events@[i]).id == event_id as int
                    && db_c.events@[i].series_id == series_id as int && db_c.events@[i].start_time
                    == event.start && db_c.events@[i].title@ == event_series.title@
                    && opt_string_eq(db_c.events@[i].description, event_series.description)
                    && db_c.events@[i].is_online == false && db_c.events@[i].discord_category_id
                    is None;
            assert(db.events@[i] == db_c.events@[i]);
        }
        assert(db.binds_sw(event.uuid@, event_id as int));

        // Participants: exactly the valid attendees.
        assert forall|d: u64| #[trigger] db.is_participant(event_id as int, d) implies
        has_attendee(*event, d) by {
            let m2 = choose|m2: int|
                db.participant_pair(event_id as int, m2) && db.member_with_discord(m2, d);
            let t = choose|t: int|
                0 <= t < member_ids@.len() && (#[trigger] member_ids@[t]).0 as int == m2;
            assert(tracks_valid_id(db_e, member_ids@[t], event.attendees@));
            let d2 = choose|d2: u64|
                db_e.member_with_discord(m2, d2) && valid_id_in(event.attendees@, d2);
            assert(db.member_with_discord(m2, d2));
            crate::model::lemma_member_discord_unique(*db, m2, d, m2, d2);
        }
        assert forall|d: u64| has_attendee(*event, d) implies #[trigger] db.is_participant(
            event_id as int,
            d,
        ) by {
            assert(valid_id_in(event.attendees@, d));
            assert(covered_by_ids(db_e, member_ids@, d));
            let t = choose|t: int|
                0 <= t < member_ids@.len() && db_e.member_with_discord(
                    (#[trigger] member_ids@[t]).0 as int,
                    d,
                );
            let m2 = member_ids@[t].0 as int;
            assert(db.participant_pair(event_id as int, m2));
            assert(db.member_with_discord(m2, d));
        }

        // Hosts: the old hosts plus the valid organisers.
        assert forall|d: u64| #[trigger] db.is_host(event_id as int, d) <==> (old(db).is_host(
            event_id as int,
            d,
        ) || has_organiser(*event_series, d)) by {
            crate::model::lemma_is_host_frame(db_d, *db, event_id as int);
            assert(db_d.is_host(event_id as int, d) <==> (db_c.is_host(event_id as int, d)
                || valid_id_in(event_series.organisers@, d)));
            crate::model::lemma_is_host_frame(*old(db), db_c, event_id as int);
        }

        // Frames for every other event.
        assert forall|e2: int, s2: int|
            e2 != event_id as int implies (#[trigger] db.event_in_series(e2, s2) <==> old(
            db,
        ).event_in_series(e2, s2)) by {
            assert(db.event_in_series(e2, s2) <==> db_c.event_in_series(e2, s2));
        }
        assert forall|sid2: Seq<char>, e2: int|
            sid2 != event.uuid@ implies (#[trigger] db.binds_sw(sid2, e2) <==> old(db).binds_sw(
            sid2,
            e2,
        )) by {
            assert(db.binds_sw(sid2, e2) <==> db_c.binds_sw(sid2, e2));
            if existing is Some {
                crate::model::lemma_same_sw_bindings(*old(db), db_c);
            }
        }
        assert forall|e2: int, d: u64|
            e2 != event_id as int implies (#[trigger] db.is_host(e2, d) <==> old(db).is_host(
            e2,
            d,
        )) by {
            assert forall|m2: int| #[trigger] db_d.host_pair(e2, m2) <==> db.host_pair(
                e2,
                m2,
            ) by {}
            crate::model::lemma_is_host_frame(db_d, *db, e2);
            assert forall|m2: int| #[trigger] old(db).host_pair(e2, m2) <==> db_c.host_pair(
                e2,
                m2,
            ) by {}
            crate::model::lemma_is_host_frame(*old(db), db_c, e2);
            assert forall|m2: int| #[trigger] db_c.host_pair(e2, m2) <==> db_d.host_pair(
                e2,
                m2,
            ) by {}
            crate::model::lemma_is_host_frame(db_c, db_d, e2);
            assert(db_d.is_host(e2, d) <==> db_c.is_host(e2, d));
        }
        assert forall|e2: int, d: u64|
            e2 != event_id as int implies (#[trigger] db.is_participant(e2, d) <==> old(
            db,
        ).is_participant(e2, d)) by {
            assert forall|m2: int| #[trigger] old(db).participant_pair(e2, m2)
                <==> db.participant_pair(e2, m2) by {
                crate::model::lemma_same_participants(*old(db), db_e);
            }
            crate::model::lemma_is_participant_frame(*old(db), *db, e2);
        }
    }
    event_id
}

/// Reconciles one reported session of a series into the canonical store,
/// inside what the surrounding pass treats as one transaction.
///
/// A dangling legacy reference or a legacy-link conflict leaves the store
/// untouched and is reported in the outcome; otherwise the canonical event is
/// created or updated in place, its binding inserted on first sight, hosts
/// added (never pruned), and the participant set replaced by exactly the
/// reported attendees.
#[verifier::rlimit(100)]
pub fn sync_event(db: &mut Database, event_series: &Event, event: &Session) -> (r:
    ReconcileOutcome)
    requires
        old(db).wf(),
        old(db).next_series_id < i32::MAX,
        old(db).next_event_id < i32::MAX,
        old(db).next_binding_id < i32::MAX,
        old(db).next_member_id + event_series.organisers@.len() + event.attendees@.len()
            <= i32::MAX,
    ensures
        final(db).wf(),
        (r is SkippedDanglingLegacy) <==> dangling_legacy(*old(db), *event_series),
        (r is SkippedConflict) <==> (!dangling_legacy(*old(db), *event_series)
            && indicated_conflict(*old(db), *event_series, *event)),
        (r is SkippedDanglingLegacy || r is SkippedConflict) ==> *final(db) == *old(db),
        r matches ReconcileOutcome::Synced { event_id } ==> reconcile_synced(
            *old(db),
            *final(db),
            *event_series,
            *event,
            event_id,
        ),
{
    // Step 1: look up the existing binding and its series.
    let existing = lookup_sw(db, &event.uuid);

    // Step 2: resolve the legacy cross-source link, if one is indicated.
    let legacy: Option<(i32, i32)> = match event_series.legacy_id {
        Some(lid) => {
            let mid = u64_to_string(lid);
            proof {
                assert(mid@ == legacy_mid(*event_series));
            }
            match lookup_mu(db, &mid) {
                None => {
                    proof {
                        assert(dangling_legacy(*old(db), *event_series));
                    }
                    return ReconcileOutcome::SkippedDanglingLegacy;
                },
                Some(p) => {
                    proof {
                        assert(old(db).mu_bound(legacy_mid(*event_series)));
                    }
                    Some(p)
                },
            }
        },
        None => None,
    };
    proof {
        assert(!dangling_legacy(*old(db), *event_series));
    }

    // Step 3: determine the target series, detecting conflicts.
    let series_id: i32;
    match (existing, legacy) {
        (Some((eid, s)), Some((le, l))) => {
            if l != s {
                proof {
                    assert(old(db).sw_bound_series(event.uuid@, s as int));
                    assert(old(db).mu_bound_series(legacy_mid(*event_series), l as int));
                    assert(indicated_conflict(*old(db), *event_series, *event));
                }
                return ReconcileOutcome::SkippedConflict;
            }
            series_id = s;
            proof {
                assert(old(db).sw_bound(event.uuid@));
                assert(resolved_series(*old(db), *event_series, *event, s as int)) by {
                    assert(old(db).sw_bound_series(event.uuid@, s as int));
                }
                assert forall|s2: int, l2: int|
                    old(db).sw_bound_series(event.uuid@, s2) && old(db).mu_bound_series(
                        legacy_mid(*event_series),
                        l2,
                    ) implies s2 == l2 by {
                    let e2 = choose|e2: int|
                        old(db).binds_sw(event.uuid@, e2) && old(db).event_in_series(e2, s2);
                    crate::model::lemma_binds_sw_unique(*old(db), event.uuid@, e2, eid as int);
                    crate::model::lemma_event_series_unique(*old(db), eid as int, s2, s as int);
                    let e3 = choose|e3: int|
                        old(db).binds_mu(legacy_mid(*event_series), e3) && old(db).event_in_series(
                            e3,
                            l2,
                        );
                    crate::model::lemma_binds_mu_unique(
                        *old(db),
                        legacy_mid(*event_series),
                        e3,
                        le as int,
                    );
                    crate::model::lemma_event_series_unique(*old(db), le as int, l2, l as int);
                }
                assert(!indicated_conflict(*old(db), *event_series, *event));
            }
        },
        (Some((eid, s)), None) => {
            series_id = s;
            proof {
                assert(old(db).sw_bound(event.uuid@));
                assert(resolved_series(*old(db), *event_series, *event, s as int)) by {
                    assert(old(db).sw_bound_series(event.uuid@, s as int));
                }
                assert(!indicated_conflict(*old(db), *event_series, *event));
            }
        },
        (None, Some((le, l))) => {
            series_id = l;
            proof {
                assert(resolved_series(*old(db), *event_series, *event, l as int)) by {
                    assert(old(db).mu_bound_series(legacy_mid(*event_series), l as int));
                }
                assert(!indicated_conflict(*old(db), *event_series, *event)) by {
                    assert forall|s2: int, l2: int|
                        !(old(db).sw_bound_series(event.uuid@, s2) && old(db).mu_bound_series(
                            legacy_mid(*event_series),
                            l2,
                        ) && s2 != l2) by {
                        if old(db).sw_bound_series(event.uuid@, s2) {
                            let e2 = choose|e2: int|
                                old(db).binds_sw(event.uuid@, e2) && old(db).event_in_series(
                                    e2,
                                    s2,
                                );
                            assert(old(db).sw_bound(event.uuid@));
                        }
                    }
                }
            }
        },
        (None, None) => {
            proof {
                assert(resolved_series(
                    *old(db),
                    *event_series,
                    *event,
                    old(db).next_series_id as int,
                ));
                assert(!indicated_conflict(*old(db), *event_series, *event));
            }
            series_id = db.create_series("adventure".to_owned());
        },
    }
    let ghost db_b = *db;
    proof {
        crate::model::lemma_same_events(*old(db), db_b);
        crate::model::lemma_same_sw_bindings(*old(db), db_b);
        crate::model::lemma_same_mu_bindings(*old(db), db_b);
        crate::model::lemma_same_members(*old(db), db_b);
        crate::model::lemma_same_hosts(*old(db), db_b);
        crate::model::lemma_same_participants(*old(db), db_b);
        assert(db_b.series_exists(series_id as int)) by {
            if existing is Some || legacy is Some {
                crate::model::lemma_same_series(*old(db), db_b);
                assert(old(db).series_exists(series_id as int)) by {
                    if existing is Some {
                        let p = existing->0;
                        let i = choose|i: int|
                            0 <= i < old(db).events@.len() && (#[trigger] old(db).events@[i]).id
                                == p.0 as int && old(db).events@[i].series_id == p.1 as int;
                        assert(old(db).series_exists(old(db).events@[i].series_id as int));
                    } else {
                        let p = legacy->0;
                        let i = choose|i: int|
                            0 <= i < old(db).events@.len() && (#[trigger] old(db).events@[i]).id
                                == p.0 as int && old(db).events@[i].series_id == p.1 as int;
                        assert(old(db).series_exists(old(db).events@[i].series_id as int));
                    }
                }
            }
        }
        match existing {
            Some(p) => {
                assert(db_b.binds_sw(event.uuid@, p.0 as int));
            },
            None => {
                assert(!db_b.sw_bound(event.uuid@)) by {
                    if db_b.sw_bound(event.uuid@) {
                        let e2 = choose|e2: int| db_b.binds_sw(event.uuid@, e2);
                        assert(old(db).binds_sw(event.uuid@, e2));
                        assert(old(db).sw_bound(event.uuid@));
                    }
                }
            },
        }
    }

    // Steps 4 to 7.
    let event_id = sync_apply(db, event_series, event, series_id, existing);
    proof {
        // Relate the applied state back to the store as it was on entry: the
        // series resolution step only ever appended a fresh series row.
        assert(old(db).sw_bound(event.uuid@) ==> old(db).binds_sw(event.uuid@, event_id as int))
            by {
            if old(db).sw_bound(event.uuid@) {
                match existing {
                    Some(p) => {},
                    None => {
                        assert(false);
                    },
                }
            }
        }
        assert(exists|s: int|
            #[trigger] resolved_series(*old(db), *event_series, *event, s) && event_matches(
                *db,
                event_id as int,
                *event_series,
                *event,
                s,
            )) by {
            assert(resolved_series(*old(db), *event_series, *event, series_id as int));
        }
        assert forall|d: u64| #[trigger] db.is_host(event_id as int, d) <==> (old(db).is_host(
            event_id as int,
            d,
        ) || has_organiser(*event_series, d)) by {
            assert(db.is_host(event_id as int, d) <==> (db_b.is_host(event_id as int, d)
                || has_organiser(*event_series, d)));
            crate::model::lemma_is_host_frame(*old(db), db_b, event_id as int);
        }
        assert forall|sid2: Seq<char>, e2: int|
            sid2 != event.uuid@ implies (#[trigger] db.binds_sw(sid2, e2) <==> old(db).binds_sw(
            sid2,
            e2,
        )) by {
            assert(db.binds_sw(sid2, e2) <==> db_b.binds_sw(sid2, e2));
        }
        assert forall|e2: int, s2: int|
            e2 != event_id as int implies (#[trigger] db.event_in_series(e2, s2) <==> old(
            db,
        ).event_in_series(e2, s2)) by {
            assert(db.event_in_series(e2, s2) <==> db_b.event_in_series(e2, s2));
        }
        assert forall|e2: int, d: u64|
            e2 != event_id as int implies (#[trigger] db.is_participant(e2, d) <==> old(
            db,
        ).is_participant(e2, d)) by {
            assert(db.is_participant(e2, d) <==> db_b.is_participant(e2, d));
            crate::model::lemma_is_participant_frame(*old(db), db_b, e2);
        }
        assert forall|e2: int, d: u64|
            e2 != event_id as int implies (#[trigger] db.is_host(e2, d) <==> old(db).is_host(
            e2,
            d,
        )) by {
            assert(db.is_host(e2, d) <==> db_b.is_host(e2, d));
            crate::model::lemma_is_host_frame(*old(db), db_b, e2);
        }
        assert forall|s2: int|
            old(db).series_exists(s2) implies #[trigger] db.series_exists(s2) by {
            assert(db_b.series_exists(s2)) by {
                if existing is None && legacy is None {
                    let i = choose|i: int|
                        0 <= i < old(db).series@.len() && (#[trigger] old(db).series@[i]).id == s2;
                    assert(db_b.series@[i] == old(db).series@[i]);
                } else {
                    crate::model::lemma_same_series(*old(db), db_b);
                }
            }
            let i = choose|i: int|
                0 <= i < db_b.series@.len() && (#[trigger] db_b.series@[i]).id == s2;
            assert(db.series@[i] == db_b.series@[i]);
        }
    }
    ReconcileOutcome::Synced { event_id }
}


/// After a successful reconciliation, the same payload neither dangles nor
/// conflicts: the next pass over it will sync again rather than skip.
pub proof fn lemma_reconcile_stable(
    db0: Database,
    db1: Database,
    series: Event,
    session: Session,
    e1: i32,
)
    requires
        db0.wf(),
        db1.wf(),
        !dangling_legacy(db0, series),
        !indicated_conflict(db0, series, session),
        reconcile_synced(db0, db1, series, session, e1),
    ensures
        !dangling_legacy(db1, series),
        !indicated_conflict(db1, series, session),
{
    crate::model::lemma_same_mu_bindings(db0, db1);
    if series.legacy_id is Some {
        assert(db0.mu_bound(legacy_mid(series)));
        let em = choose|em: int| db0.binds_mu(legacy_mid(series), em);
        assert(db1.binds_mu(legacy_mid(series), em));
        assert(db1.mu_bound(legacy_mid(series)));
    }
    let s0 = choose|s: int|
        #[trigger] resolved_series(db0, series, session, s) && event_matches(
            db1,
            e1 as int,
            series,
            session,
            s,
        );
    assert(db1.event_in_series(e1 as int, s0)) by {
        let i = choose|i: int|
            0 <= i < db1.events@.len() && (#[trigger] db1.events@[i]).id == e1 as int
                && db1.events@[i].series_id == s0 && db1.events@[i].start_time == session.start
                && db1.events@[i].title@ == series.title@ && opt_string_eq(
                db1.events@[i].description,
                series.description,
            ) && db1.events@[i].is_online == false && db1.events@[i].discord_category_id is None;
    }
    assert forall|s2: int, l2: int|
        series.legacy_id is Some && db1.sw_bound_series(session.uuid@, s2) && db1.mu_bound_series(
            legacy_mid(series),
            l2,
        ) implies s2 == l2 by {
        let e2 = choose|e2: int| db1.binds_sw(session.uuid@, e2) && db1.event_in_series(e2, s2);
        crate::model::lemma_binds_sw_unique(db1, session.uuid@, e2, e1 as int);
        crate::model::lemma_event_series_unique(db1, e1 as int, s2, s0);
        let e3 = choose|e3: int| db1.binds_mu(legacy_mid(series), e3) && db1.event_in_series(e3, l2);
        assert(db0.binds_mu(legacy_mid(series), e3));
        if e3 == e1 as int {
            crate::model::lemma_event_series_unique(db1, e1 as int, l2, s0);
        } else {
            assert(db0.event_in_series(e3, l2));
            assert(db0.mu_bound_series(legacy_mid(series), l2));
            if db0.sw_bound(session.uuid@) {
                assert(db0.binds_sw(session.uuid@, e1 as int));
                assert(db0.sw_bound_series(session.uuid@, s0)) by {
                    assert(resolved_series(db0, series, session, s0));
                }
                assert(l2 == s0) by {
                    if l2 != s0 {
                        assert(db0.sw_bound_series(session.uuid@, s0));
                        assert(db0.mu_bound_series(legacy_mid(series), l2));
                        assert(indicated_conflict(db0, series, session));
                    }
                }
            } else if series.legacy_id is Some {
                assert(db0.mu_bound_series(legacy_mid(series), s0)) by {
                    assert(resolved_series(db0, series, session, s0));
                }
                let e4 = choose|e4: int|
                    db0.binds_mu(legacy_mid(series), e4) && db0.event_in_series(e4, s0);
                crate::model::lemma_binds_mu_unique(db0, legacy_mid(series), e3, e4);
                crate::model::lemma_event_series_unique(db0, e3, l2, s0);
            }
        }
    }
    if indicated_conflict(db1, series, session) {
        let (s2, l2) = choose|s2: int, l2: int|
            #![auto]
            db1.sw_bound_series(session.uuid@, s2) && db1.mu_bound_series(legacy_mid(series), l2)
                && s2 != l2;
        assert(s2 == l2);
    }
}

/// Law of idempotence: reconciling the same payload twice leaves exactly one
/// event bound to the payload's external id, exactly one binding, and a
/// participant set equal to the payload's attendee list, not doubled.
pub proof fn lemma_reconcile_idempotent(
    db0: Database,
    db1: Database,
    db2: Database,
    series: Event,
    session: Session,
    e1: i32,
    e2: i32,
)
    requires
        db0.wf(),
        db1.wf(),
        db2.wf(),
        reconcile_synced(db0, db1, series, session, e1),
        reconcile_synced(db1, db2, series, session, e2),
    ensures
        e2 == e1,
        db2.binds_sw(session.uuid@, e1 as int),
        forall|e3: int| db2.binds_sw(session.uuid@, e3) ==> e3 == e1 as int,
        forall|d: u64| #[trigger] db2.is_participant(e1 as int, d) <==> has_attendee(session, d),
{
    assert(db1.binds_sw(session.uuid@, e1 as int));
    assert(db1.sw_bound(session.uuid@));
    assert(db1.binds_sw(session.uuid@, e2 as int));
    crate::model::lemma_binds_sw_unique(db1, session.uuid@, e1 as int, e2 as int);
    assert forall|e3: int| db2.binds_sw(session.uuid@, e3) implies e3 == e1 as int by {
        crate::model::lemma_binds_sw_unique(db2, session.uuid@, e3, e2 as int);
    }
}

/// Law of participant mirroring: a later payload for the same session
/// replaces the participant set with exactly its own attendee list; members
/// appearing in both stay, others are removed, new ones are added.
pub proof fn lemma_participant_mirroring(
    db0: Database,
    db1: Database,
    db2: Database,
    series: Event,
    first: Session,
    second: Session,
    e1: i32,
    e2: i32,
)
    requires
        db0.wf(),
        db1.wf(),
        db2.wf(),
        second.uuid@ == first.uuid@,
        reconcile_synced(db0, db1, series, first, e1),
        reconcile_synced(db1, db2, series, second, e2),
    ensures
        e2 == e1,
        forall|d: u64| #[trigger] db2.is_participant(e1 as int, d) <==> has_attendee(second, d),
        forall|d: u64|
            has_attendee(first, d) && !has_attendee(second, d) ==> !db2.is_participant(
                e1 as int,
                d,
            ),
        forall|d: u64|
            has_attendee(first, d) && has_attendee(second, d) ==> db2.is_participant(e1 as int, d),
{
    assert(db1.binds_sw(first.uuid@, e1 as int));
    assert(db1.sw_bound(second.uuid@));
    assert(db1.binds_sw(second.uuid@, e2 as int));
    crate::model::lemma_binds_sw_unique(db1, second.uuid@, e1 as int, e2 as int);
}

} // verus!
