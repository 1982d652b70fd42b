//! What becomes of one key: deleted, kept, or left to the system that
//! manages it.

use crate::key::{is_managed, is_managed_key};
use vstd::prelude::*;

verus! {

/// The time to live that the store reports for a key that never expires.
pub const NO_EXPIRY: i64 = -1;

/// The limit of a run that was given none: only keys that never expire are
/// at or below it.
pub const DEFAULT_MAX_TTL: i64 = -1;

/// What a run decides about one key.
#[derive(Clone, Copy, Debug, PartialEq, Eq, Structural)]
pub enum Decision {
    /// The time to live is at or below the limit: the key is to be deleted.
    Delete,
    /// The time to live is above the limit: the key stays.
    Skip,
    /// The key belongs to the managed namespace: it stays, whatever its time
    /// to live.
    ManagedSkip,
}

/// Whether a time to live stands for "never expires": the store's sentinel
/// or anything below it.
pub open spec fn never_expires(ttl: int) -> bool {
    ttl <= NO_EXPIRY
}

/// Whether a time to live is at or below the limit.
pub open spec fn is_stale(ttl: int, max_ttl: int) -> bool {
    ttl <= max_ttl
}

/// The decision about `key` with time to live `ttl` under the limit
/// `max_ttl`.
pub open spec fn decision_for(key: Seq<char>, ttl: int, max_ttl: int) -> Decision {
    if is_managed(key) {
        Decision::ManagedSkip
    } else if is_stale(ttl, max_ttl) {
        Decision::Delete
    } else {
        Decision::Skip
    }
}

/// Whether a run that decided `decision` about a key deletes it: only a run
/// that commits deletes, and only what it decided to delete.
pub open spec fn removes(decision: Decision, commit: bool) -> bool {
    commit && decision == Decision::Delete
}

/// Whether a time to live is at or below the limit.
pub fn should_delete(ttl: i64, max_ttl: i64) -> (stale: bool)
    ensures
        stale == is_stale(ttl as int, max_ttl as int),
{
    ttl <= max_ttl
}

/// Decides about one key from its name, its time to live and the limit.
pub fn classify(key: &str, ttl: i64, max_ttl: i64) -> (decision: Decision)
    ensures
        decision == decision_for(key@, ttl as int, max_ttl as int),
{
    if is_managed_key(key) {
        Decision::ManagedSkip
    } else if should_delete(ttl, max_ttl) {
        Decision::Delete
    } else {
        Decision::Skip
    }
}

/// Whether a run that decided `decision` about a key deletes it.
pub fn is_removal(decision: Decision, commit: bool) -> (removal: bool)
    ensures
        removal == removes(decision, commit),
{
    commit && decision == Decision::Delete
}

/// A managed key is never deleted: whatever its time to live and the limit,
/// the decision is to leave it, and no run removes it.
pub proof fn lemma_managed_key_is_kept(key: Seq<char>, ttl: int, max_ttl: int, commit: bool)
    requires
        is_managed(key),
    ensures
        decision_for(key, ttl, max_ttl) == Decision::ManagedSkip,
        !removes(decision_for(key, ttl, max_ttl), commit),
{
}

/// A key outside the managed namespace is a candidate for deletion exactly
/// when its time to live is at or below the limit.
pub proof fn lemma_candidate_iff_stale(key: Seq<char>, ttl: int, max_ttl: int)
    requires
        !is_managed(key),
    ensures
        decision_for(key, ttl, max_ttl) == Decision::Delete <==> ttl <= max_ttl,
        decision_for(key, ttl, max_ttl) == Decision::Skip <==> ttl > max_ttl,
{
}

/// Under the default limit the candidates for deletion are the keys that
/// never expire.
pub proof fn lemma_default_limit_selects_unexpiring(ttl: int)
    ensures
        is_stale(ttl, DEFAULT_MAX_TTL as int) <==> never_expires(ttl),
{
}

} // verus!
