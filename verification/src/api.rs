//! The flat request layer: saving a URL, the paged URL listing, and the
//! explicit metadata-edit upserts for categories and topics.

pub mod category;
pub mod get;
pub mod save;
pub mod topic;
