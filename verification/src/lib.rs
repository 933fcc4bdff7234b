//! An authorization and identity store: users, groups, group memberships and
//! scoped role grants, with existence queries gating access elsewhere.
//!
//! The heart of the crate is the scoped grant model in `grants`: a single
//! relation of (principal, scope kind, scope id, role name) tuples in which
//! global authorization is the reserved `("global", "global")` scope pair —
//! a distinguished value, never a separate table or code path. Grants and
//! revokes are idempotent; creates of users, groups and memberships enforce
//! their uniqueness constraints; hard deletes cascade to the rows the deleted
//! user or group owns. `Store::wf` states those invariants, every mutation is
//! proved to keep them, and the listing operations return exactly the
//! selections their contracts name, in the promised order. The laws the
//! model obeys across several operations are stated and proved in `laws`.

use vstd::prelude::*;

pub mod api;
pub mod grants;
pub mod laws;
pub mod group_id;
pub mod groups;
pub mod log;
pub mod members;
pub mod roles;
pub mod seq_facts;
pub mod store;
pub mod text_order;
pub mod user_id;
pub mod users;
pub mod uuid_text;

verus! {

/// The failure taxonomy of the store.
///
/// `NotFound` marks a mutation whose target row is required to exist and does
/// not; plain lookups report absence as `None` instead. `Conflict` marks a
/// uniqueness violation on a non-idempotent create. `MalformedIdentifier`
/// marks an identifier that does not parse. `StorageUnavailable` is reserved
/// for a boundary that runs the store over an external backend and cannot
/// reach it; the in-memory store never raises it.
#[derive(Clone, Copy, Debug, PartialEq, Eq, Structural)]
pub enum AuthError {
    NotFound,
    Conflict,
    MalformedIdentifier,
    StorageUnavailable,
}

} // verus!
