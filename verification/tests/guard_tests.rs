use eventsync::guard::{guard_step, GuardAction, GuardEvent, GuardState};

/// Drives the guard over a fixed event script, collecting the actions.
fn run(mut state: GuardState, events: &[GuardEvent]) -> Vec<GuardAction> {
    let mut actions = Vec::new();
    for ev in events {
        if state == GuardState::Done {
            break;
        }
        let (next, action) = guard_step(state, *ev);
        actions.push(action);
        state = next;
    }
    actions
}

#[test]
fn success_with_cached_token_calls_once() {
    let actions = run(GuardState::LookingUp, &[GuardEvent::TokenFound, GuardEvent::CallOk]);
    assert_eq!(actions, vec![GuardAction::MakeCall, GuardAction::ReturnOk]);
}

#[test]
fn missing_token_refreshes_once_then_calls() {
    let actions = run(
        GuardState::LookingUp,
        &[GuardEvent::TokenMissing, GuardEvent::RefreshOk, GuardEvent::CallOk],
    );
    assert_eq!(actions, vec![GuardAction::Refresh, GuardAction::MakeCall, GuardAction::ReturnOk]);
}

#[test]
fn auth_failure_refreshes_and_retries_exactly_once() {
    let actions = run(
        GuardState::LookingUp,
        &[
            GuardEvent::TokenFound,
            GuardEvent::CallAuthFailed,
            GuardEvent::RefreshOk,
            GuardEvent::CallOk,
        ],
    );
    assert_eq!(
        actions,
        vec![
            GuardAction::MakeCall,
            GuardAction::Refresh,
            GuardAction::MakeCall,
            GuardAction::ReturnOk,
        ],
    );
}

#[test]
fn two_auth_failures_propagate_without_looping() {
    let actions = run(
        GuardState::LookingUp,
        &[
            GuardEvent::TokenFound,
            GuardEvent::CallAuthFailed,
            GuardEvent::RefreshOk,
            GuardEvent::CallAuthFailed,
            // Anything further must be ignored: the guard is done.
            GuardEvent::CallAuthFailed,
            GuardEvent::RefreshOk,
        ],
    );
    assert_eq!(
        actions,
        vec![
            GuardAction::MakeCall,
            GuardAction::Refresh,
            GuardAction::MakeCall,
            GuardAction::ReturnAuthError,
        ],
    );
    let refreshes = actions.iter().filter(|a| **a == GuardAction::Refresh).count();
    let calls = actions.iter().filter(|a| **a == GuardAction::MakeCall).count();
    assert_eq!(refreshes, 1);
    assert_eq!(calls, 2);
}

#[test]
fn non_auth_errors_are_never_retried() {
    let actions = run(GuardState::LookingUp, &[GuardEvent::TokenFound, GuardEvent::CallFailed]);
    assert_eq!(actions, vec![GuardAction::MakeCall, GuardAction::ReturnCallError]);
}

#[test]
fn refresh_failure_propagates() {
    let actions = run(
        GuardState::LookingUp,
        &[GuardEvent::TokenFound, GuardEvent::CallAuthFailed, GuardEvent::RefreshErr],
    );
    assert_eq!(
        actions,
        vec![GuardAction::MakeCall, GuardAction::Refresh, GuardAction::ReturnRefreshError],
    );
}
