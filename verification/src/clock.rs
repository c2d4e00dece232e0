//! The wall clock.
//!
//! Timestamps in the store are plain integers; only this module asks the
//! system what time it is.  Nothing is promised of the value — the clock
//! decides it — so everything proved about the operations holds whatever
//! instant comes back.

use vstd::prelude::*;

use crate::errors::StoreError;
use crate::link::bookmark::{bm_create_post, BmCreateReq};
use crate::store::Store;

verus! {

/// Relies on `chrono::Utc::now` and `chrono::DateTime::timestamp_micros`:
/// the current wall-clock time in microseconds since the Unix epoch.  The
/// value depends on the machine's clock, so nothing is promised of it;
/// the clock must not be set before the epoch.
#[verifier::external_body]
pub fn current_unix_micros() -> (t: i64) {
    chrono::Utc::now().timestamp_micros()
}

/// Creates a bookmark stamped with the current wall-clock time: the
/// store changes exactly as a creation at some single instant does.
pub fn create_bookmark_now(store: &mut Store, user_id: &str, req: BmCreateReq) -> (r: Result<
    i64,
    StoreError,
>)
    requires
        old(store).wf(),
    ensures
        final(store).wf(),
        exists|t: i64|
            #![trigger bm_create_post(*old(store), *final(store), user_id@, req, r, t)]
            bm_create_post(*old(store), *final(store), user_id@, req, r, t),
{
    let now = current_unix_micros();
    crate::link::bookmark::create(store, user_id, req, now)
}

} // verus!
