//! The link service layer: bookmarks, categories and topics with their
//! request and response shapes.

pub mod bookmark;
pub mod cat;
pub mod topic;
