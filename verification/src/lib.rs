//! Reconciliation and scheduling engine for recurring events that live on two
//! independent hosting services.
//!
//! The library keeps a canonical, versioned model of event series, events,
//! source bindings and memberships, and verifies the algorithms that converge
//! that model towards the state reported by the sources: the idempotent event
//! reconciler, the series resolver with cross-source legacy linking, the
//! one-shot "schedule next session" flow, the credential-refresh retry guard,
//! and the pure title/description rewriting used when continuing a session.

#![verifier::loop_isolation(false)]

use vstd::prelude::*;

pub mod errors;
pub mod flow;
pub mod guard;
pub mod meetup;
pub mod model;
pub mod reconcile;
pub mod schedule;
pub mod shortcode;
pub mod swissrpg;
pub mod text;
pub mod timeutil;
pub mod title;

verus! {

} // verus!
