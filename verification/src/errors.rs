//! Error taxonomy of the store.

use vstd::prelude::*;

verus! {

/// Which kind of entity an error is about, so that a caller can report
/// what was missing or duplicated.
#[derive(Clone, Copy, Debug, PartialEq, Eq, Structural)]
pub enum EntityKind {
    Topic,
    Category,
    Bookmark,
}

/// Errors returned by the store.
///
/// `NotFound`: the named or identified entity does not exist for the given
/// user.  `Conflict`: a duplicate `(name, user_id)` on a non-upsert entity
/// insert.  `Unavailable`: the store cannot accept new rows because the
/// identifier space is exhausted.  `InvalidState`: a default fallback was
/// requested but no `"default"` row exists for the user.
#[derive(Clone, Copy, Debug, PartialEq, Eq, Structural)]
pub enum StoreError {
    NotFound(EntityKind),
    Conflict(EntityKind),
    Unavailable,
    InvalidState,
}

impl StoreError {
    /// A short human-readable label, in place of `Display`.
    pub fn describe(&self) -> (r: &'static str)
        ensures
            self is NotFound ==> r@ == "not found"@,
            self is Conflict ==> r@ == "conflict"@,
            self is Unavailable ==> r@ == "store unavailable"@,
            self is InvalidState ==> r@ == "invalid state"@,
    {
        match self {
            StoreError::NotFound(_) => "not found",
            StoreError::Conflict(_) => "conflict",
            StoreError::Unavailable => "store unavailable",
            StoreError::InvalidState => "invalid state",
        }
    }
}

} // verus!
