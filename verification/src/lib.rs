//! Verified storage and query engine for a bookmark taxonomy.
//!
//! Saved web links ("bookmarks") are organized under user-owned topics and
//! categories, connected by many-to-many mappings.  The store keeps the five
//! tables in memory, and every operation on them is verified: upserts keyed
//! on `(name, user_id)` are idempotent, multi-step mutations are atomic
//! (any error leaves the store unchanged), bookmark deletion cascades to its
//! mapping rows, and listings aggregate each row's category names in
//! alphabetical order with filter and pagination semantics pinned down by
//! their contracts.

pub mod errors;
pub mod order;
pub mod rows;
pub mod store;
pub mod listing;
pub mod fallback;
pub mod protocol;
pub mod link;
pub mod api;
pub mod clock;
pub mod laws;

pub use errors::{EntityKind, StoreError};
pub use store::Store;
