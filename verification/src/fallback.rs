//! Lookup with a default fallback.
//!
//! When no explicit taxonomy value is supplied, the sentinel `"default"`
//! row stands in.  The preference for an exact match over the default row
//! is decided in order here, never by physical row order, so the result
//! is deterministic.

use vstd::prelude::*;

use crate::errors::{EntityKind, StoreError};
use crate::store::Store;

verus! {

impl Store {
    /// Resolves a category name to an identifier, preferring the exact
    /// match, then the user's `"default"` row; `NotFound` when neither
    /// exists.
    pub fn get_cat_or_default(&self, user_id: &str, name: &str) -> (r: Result<i64, StoreError>)
        requires
            self.wf(),
        ensures
            r is Ok <==> (self.has_cat(user_id@, name@) || self.has_cat(user_id@, "default"@)),
            r matches Ok(id) ==> id == (if self.has_cat(user_id@, name@) {
                self.cat_by_key(user_id@, name@).id
            } else {
                self.cat_by_key(user_id@, "default"@).id
            }),
            r is Err ==> r == Err::<i64, StoreError>(StoreError::NotFound(EntityKind::Category)),
    {
        match self.find_cat(user_id, name) {
            Some(i) => Ok(self.categories[i].id),
            None => match self.find_cat(user_id, "default") {
                Some(i) => Ok(self.categories[i].id),
                None => Err(StoreError::NotFound(EntityKind::Category)),
            },
        }
    }

    /// Resolves a topic name to an identifier, preferring the exact
    /// match, then the user's `"default"` row; `NotFound` when neither
    /// exists.
    pub fn get_topic_or_default(&self, user_id: &str, name: &str) -> (r: Result<i64, StoreError>)
        requires
            self.wf(),
        ensures
            r is Ok <==> (self.has_topic(user_id@, name@) || self.has_topic(user_id@, "default"@)),
            r matches Ok(id) ==> id == (if self.has_topic(user_id@, name@) {
                self.topic_by_key(user_id@, name@).id
            } else {
                self.topic_by_key(user_id@, "default"@).id
            }),
            r is Err ==> r == Err::<i64, StoreError>(StoreError::NotFound(EntityKind::Topic)),
    {
        match self.find_topic(user_id, name) {
            Some(i) => Ok(self.topics[i].id),
            None => match self.find_topic(user_id, "default") {
                Some(i) => Ok(self.topics[i].id),
                None => Err(StoreError::NotFound(EntityKind::Topic)),
            },
        }
    }
}

} // verus!
