//! The credential refresh guard: the single retry policy for remote calls.
//!
//! A remote call that fails authentication triggers exactly one token
//! refresh and exactly one retry; a second authentication failure, or any
//! other error, propagates. The guard is a state machine: the caller
//! performs the prescribed action (look up or refresh a token, make the
//! call) and feeds the outcome back as the next event.

use vstd::prelude::*;

verus! {

/// What the outside world reported to the guard.
#[derive(PartialEq, Eq, Structural, Clone, Copy, Debug)]
pub enum GuardEvent {
    /// A cached access token was found.
    TokenFound,
    /// No cached access token exists.
    TokenMissing,
    /// A token refresh succeeded.
    RefreshOk,
    /// A token refresh failed.
    RefreshErr,
    /// The guarded call succeeded.
    CallOk,
    /// The guarded call failed specifically with an authentication failure.
    CallAuthFailed,
    /// The guarded call failed with any other error.
    CallFailed,
}

/// What the guard asks the caller to do next.
#[derive(PartialEq, Eq, Structural, Clone, Copy, Debug)]
pub enum GuardAction {
    /// Perform the guarded call with the current token.
    MakeCall,
    /// Refresh the stored token.
    Refresh,
    /// Finished: hand the call's success to the caller.
    ReturnOk,
    /// Finished: propagate the second authentication failure.
    ReturnAuthError,
    /// Finished: propagate the refresh failure.
    ReturnRefreshError,
    /// Finished: propagate the call's non-authentication error.
    ReturnCallError,
    /// Finished already; nothing to do.
    Idle,
}

/// Where the guard stands.
#[derive(PartialEq, Eq, Structural, Clone, Copy, Debug)]
pub enum GuardState {
    /// Looking up the cached token.
    LookingUp,
    /// Refreshing because no token was cached; no failure has occurred.
    RefreshingInitial,
    /// The first guarded call is in flight.
    Calling,
    /// Refreshing after the first authentication failure.
    RefreshingAfterAuth,
    /// The single retry is in flight.
    Retrying,
    /// Terminal.
    Done,
}

/// The guard's transition function.
pub open spec fn spec_guard_step(s: GuardState, ev: GuardEvent) -> (GuardState, GuardAction) {
    match (s, ev) {
        (GuardState::LookingUp, GuardEvent::TokenFound) => (GuardState::Calling, GuardAction::MakeCall),
        (GuardState::LookingUp, GuardEvent::TokenMissing) => (
            GuardState::RefreshingInitial,
            GuardAction::Refresh,
        ),
        (GuardState::RefreshingInitial, GuardEvent::RefreshOk) => (
            GuardState::Calling,
            GuardAction::MakeCall,
        ),
        (GuardState::RefreshingInitial, GuardEvent::RefreshErr) => (
            GuardState::Done,
            GuardAction::ReturnRefreshError,
        ),
        (GuardState::Calling, GuardEvent::CallOk) => (GuardState::Done, GuardAction::ReturnOk),
        (GuardState::Calling, GuardEvent::CallAuthFailed) => (
            GuardState::RefreshingAfterAuth,
            GuardAction::Refresh,
        ),
        (GuardState::Calling, GuardEvent::CallFailed) => (
            GuardState::Done,
            GuardAction::ReturnCallError,
        ),
        (GuardState::RefreshingAfterAuth, GuardEvent::RefreshOk) => (
            GuardState::Retrying,
            GuardAction::MakeCall,
        ),
        (GuardState::RefreshingAfterAuth, GuardEvent::RefreshErr) => (
            GuardState::Done,
            GuardAction::ReturnRefreshError,
        ),
        (GuardState::Retrying, GuardEvent::CallOk) => (GuardState::Done, GuardAction::ReturnOk),
        (GuardState::Retrying, GuardEvent::CallAuthFailed) => (
            GuardState::Done,
            GuardAction::ReturnAuthError,
        ),
        (GuardState::Retrying, GuardEvent::CallFailed) => (
            GuardState::Done,
            GuardAction::ReturnCallError,
        ),
        _ => (GuardState::Done, GuardAction::Idle),
    }
}

/// One transition of the guard.
pub fn guard_step(s: GuardState, ev: GuardEvent) -> (r: (GuardState, GuardAction))
    ensures
        r == spec_guard_step(s, ev),
{
    match (s, ev) {
        (GuardState::LookingUp, GuardEvent::TokenFound) => (GuardState::Calling, GuardAction::MakeCall),
        (GuardState::LookingUp, GuardEvent::TokenMissing) => (
            GuardState::RefreshingInitial,
            GuardAction::Refresh,
        ),
        (GuardState::RefreshingInitial, GuardEvent::RefreshOk) => (
            GuardState::Calling,
            GuardAction::MakeCall,
        ),
        (GuardState::RefreshingInitial, GuardEvent::RefreshErr) => (
            GuardState::Done,
            GuardAction::ReturnRefreshError,
        ),
        (GuardState::Calling, GuardEvent::CallOk) => (GuardState::Done, GuardAction::ReturnOk),
        (GuardState::Calling, GuardEvent::CallAuthFailed) => (
            GuardState::RefreshingAfterAuth,
            GuardAction::Refresh,
        ),
        (GuardState::Calling, GuardEvent::CallFailed) => (
            GuardState::Done,
            GuardAction::ReturnCallError,
        ),
        (GuardState::RefreshingAfterAuth, GuardEvent::RefreshOk) => (
            GuardState::Retrying,
            GuardAction::MakeCall,
        ),
        (GuardState::RefreshingAfterAuth, GuardEvent::RefreshErr) => (
            GuardState::Done,
            GuardAction::ReturnRefreshError,
        ),
        (GuardState::Retrying, GuardEvent::CallOk) => (GuardState::Done, GuardAction::ReturnOk),
        (GuardState::Retrying, GuardEvent::CallAuthFailed) => (
            GuardState::Done,
            GuardAction::ReturnAuthError,
        ),
        (GuardState::Retrying, GuardEvent::CallFailed) => (
            GuardState::Done,
            GuardAction::ReturnCallError,
        ),
        _ => (GuardState::Done, GuardAction::Idle),
    }
}

/// The actions a run of the guard emits, starting in `s` and consuming the
/// events in order, stopping when the guard is done.
pub open spec fn guard_run(s: GuardState, events: Seq<GuardEvent>) -> Seq<GuardAction>
    decreases events.len(),
{
    if events.len() == 0 || s is Done {
        Seq::empty()
    } else {
        let (s2, a) = spec_guard_step(s, events[0]);
        seq![a] + guard_run(s2, events.skip(1))
    }
}

/// How many times an action occurs in a run.
pub open spec fn action_count(actions: Seq<GuardAction>, a: GuardAction) -> int
    decreases actions.len(),
{
    if actions.len() == 0 {
        0
    } else {
        (if actions[0] == a {
            1int
        } else {
            0int
        }) + action_count(actions.skip(1), a)
    }
}

/// The most calls a run may still make from a state.
pub open spec fn calls_left(s: GuardState) -> int {
    match s {
        GuardState::LookingUp => 2,
        GuardState::RefreshingInitial => 2,
        GuardState::Calling => 1,
        GuardState::RefreshingAfterAuth => 1,
        GuardState::Retrying => 0,
        GuardState::Done => 0,
    }
}

/// The most refreshes a run may still perform from a state.
pub open spec fn refreshes_left(s: GuardState) -> int {
    match s {
        GuardState::LookingUp => 2,
        GuardState::RefreshingInitial => 1,
        GuardState::Calling => 1,
        GuardState::RefreshingAfterAuth => 0,
        GuardState::Retrying => 0,
        GuardState::Done => 0,
    }
}

/// Law: whatever the outside world reports, a run of the guard makes at most
/// two calls (the original and one retry) and refreshes at most twice (once
/// for a missing token, once after an authentication failure): it never
/// loops.
pub proof fn lemma_guard_bounded(s: GuardState, events: Seq<GuardEvent>)
    ensures
        action_count(guard_run(s, events), GuardAction::MakeCall) <= calls_left(s),
        action_count(guard_run(s, events), GuardAction::Refresh) <= refreshes_left(s),
        guard_run(s, events).len() <= events.len(),
    decreases events.len(),
{
    if events.len() == 0 || s is Done {
    } else {
        let (s2, a) = spec_guard_step(s, events[0]);
        lemma_guard_bounded(s2, events.skip(1));
        assert(guard_run(s, events) == seq![a] + guard_run(s2, events.skip(1)));
        assert((seq![a] + guard_run(s2, events.skip(1))).skip(1) =~= guard_run(
            s2,
            events.skip(1),
        ));
    }
}

/// Law: a call that fails authentication twice in a row triggers exactly one
/// refresh and exactly one retry, and then propagates the failure.
pub proof fn lemma_guard_two_auth_failures(rest: Seq<GuardEvent>)
    ensures
        guard_run(
            GuardState::Calling,
            seq![GuardEvent::CallAuthFailed, GuardEvent::RefreshOk, GuardEvent::CallAuthFailed]
                + rest,
        ) =~= seq![GuardAction::Refresh, GuardAction::MakeCall, GuardAction::ReturnAuthError],
{
    let evs = seq![
        GuardEvent::CallAuthFailed,
        GuardEvent::RefreshOk,
        GuardEvent::CallAuthFailed,
    ] + rest;
    assert(evs[0] == GuardEvent::CallAuthFailed);
    assert(evs.skip(1)[0] == GuardEvent::RefreshOk);
    assert(evs.skip(1).skip(1)[0] == GuardEvent::CallAuthFailed);
    assert(evs.skip(1).skip(1).skip(1) =~= rest);
    assert(guard_run(GuardState::Done, rest) =~= Seq::<GuardAction>::empty());
    assert(guard_run(GuardState::Retrying, evs.skip(1).skip(1)) =~= seq![
        GuardAction::ReturnAuthError,
    ]);
    assert(guard_run(GuardState::RefreshingAfterAuth, evs.skip(1)) =~= seq![GuardAction::MakeCall]
        + guard_run(GuardState::Retrying, evs.skip(1).skip(1)));
    assert(guard_run(GuardState::Calling, evs) =~= seq![GuardAction::Refresh] + guard_run(
        GuardState::RefreshingAfterAuth,
        evs.skip(1),
    ));
}

} // verus!
