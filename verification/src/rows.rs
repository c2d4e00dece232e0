//! Row types of the five tables and their query projections.
//!
//! Timestamps are plain integers (microseconds since the Unix epoch, as the
//! clock module produces them); identifiers are positive integers handed
//! out by the store's sequence.

use vstd::prelude::*;

verus! {

/// Insert shape of a category row: everything but the generated id and
/// timestamps.
#[derive(Debug)]
pub struct CatRowI {
    pub name: String,
    pub display_name: Option<String>,
    pub description: Option<String>,
    pub about: Option<String>,
    pub priority: i32,
    pub active: bool,
    pub public: bool,
    pub user_id: String,
}

/// A stored category row.
#[derive(Debug)]
pub struct CatRow {
    pub id: i64,
    pub name: String,
    pub display_name: Option<String>,
    pub description: Option<String>,
    pub about: Option<String>,
    pub priority: i32,
    pub active: bool,
    pub public: bool,
    pub user_id: String,
    pub created_on: i64,
    pub updated_on: i64,
}

/// Listing projection of a category row: the heavy `about` field and the
/// owner are omitted.
#[derive(Debug)]
pub struct CategoryRowView {
    pub id: i64,
    pub name: String,
    pub display_name: Option<String>,
    pub description: Option<String>,
    pub priority: i32,
    pub active: bool,
    pub public: bool,
    pub created_on: i64,
    pub updated_on: i64,
}

/// Insert shape of a topic row.
#[derive(Debug)]
pub struct TopicRowI {
    pub name: String,
    pub display_name: Option<String>,
    pub description: Option<String>,
    pub about: Option<String>,
    pub priority: i32,
    pub active: bool,
    pub public: bool,
    pub user_id: String,
}

/// A stored topic row.
#[derive(Debug)]
pub struct TopicRec {
    pub id: i64,
    pub name: String,
    pub display_name: Option<String>,
    pub description: Option<String>,
    pub about: Option<String>,
    pub priority: i32,
    pub active: bool,
    pub public: bool,
    pub user_id: String,
    pub created_on: i64,
    pub updated_on: i64,
}

/// A topic row as returned by a lookup, carrying its aggregated,
/// alphabetically sorted category names.
#[derive(Debug)]
pub struct TopicRow {
    pub id: i64,
    pub name: String,
    pub display_name: Option<String>,
    pub description: Option<String>,
    pub about: Option<String>,
    pub priority: i32,
    pub active: bool,
    pub public: bool,
    pub user_id: String,
    pub created_on: i64,
    pub updated_on: i64,
    pub categories: Vec<String>,
}

/// Listing projection of a topic row, with its aggregated category names.
#[derive(Debug)]
pub struct TopicRowView {
    pub id: i64,
    pub name: String,
    pub display_name: Option<String>,
    pub description: Option<String>,
    pub priority: i32,
    pub active: bool,
    pub public: bool,
    pub created_on: i64,
    pub updated_on: i64,
    pub categories: Vec<String>,
}

/// Insert shape of a bookmark row.
#[derive(Debug)]
pub struct BookmarkI {
    pub url: String,
    pub user_id: String,
    pub title: Option<String>,
    pub content: Option<String>,
    pub referrer: Option<String>,
    pub status: String,
    pub created_on: i64,
    pub updated_on: i64,
}

/// A stored bookmark row.
#[derive(Debug)]
pub struct BookmarkRec {
    pub id: i64,
    pub url: String,
    pub user_id: String,
    pub title: Option<String>,
    pub content: Option<String>,
    pub referrer: Option<String>,
    pub status: String,
    pub created_on: i64,
    pub updated_on: i64,
}

/// A bookmark row as returned by a lookup, carrying its aggregated,
/// alphabetically sorted category names.
#[derive(Debug)]
pub struct BookmarkRow {
    pub id: i64,
    pub url: String,
    pub user_id: String,
    pub title: Option<String>,
    pub content: Option<String>,
    pub referrer: Option<String>,
    pub status: String,
    pub created_on: i64,
    pub updated_on: i64,
    pub categories: Vec<String>,
}

/// A junction row linking a topic to a category.
#[derive(Clone, Copy, Debug, PartialEq, Eq, Structural)]
pub struct TopicCatRow {
    pub topic_id: i64,
    pub category_id: i64,
}

/// A junction row linking a bookmark to a category.
#[derive(Clone, Copy, Debug, PartialEq, Eq, Structural)]
pub struct BookmarkCatRow {
    pub bookmark_id: i64,
    pub category_id: i64,
}

/// The stored category row that inserting `row` with a fresh `id` at time
/// `now` produces.
pub open spec fn cat_row_from(row: CatRowI, id: i64, now: i64) -> CatRow {
    CatRow {
        id,
        name: row.name,
        display_name: row.display_name,
        description: row.description,
        about: row.about,
        priority: row.priority,
        active: row.active,
        public: row.public,
        user_id: row.user_id,
        created_on: now,
        updated_on: now,
    }
}

/// The stored topic row that inserting `row` with a fresh `id` at time
/// `now` produces.
pub open spec fn topic_rec_from(row: TopicRowI, id: i64, now: i64) -> TopicRec {
    TopicRec {
        id,
        name: row.name,
        display_name: row.display_name,
        description: row.description,
        about: row.about,
        priority: row.priority,
        active: row.active,
        public: row.public,
        user_id: row.user_id,
        created_on: now,
        updated_on: now,
    }
}

/// The stored bookmark row that inserting `row` with a fresh `id` produces.
pub open spec fn bookmark_rec_from(row: BookmarkI, id: i64) -> BookmarkRec {
    BookmarkRec {
        id,
        url: row.url,
        user_id: row.user_id,
        title: row.title,
        content: row.content,
        referrer: row.referrer,
        status: row.status,
        created_on: row.created_on,
        updated_on: row.updated_on,
    }
}

/// Copies an optional string.
pub fn dup_opt(o: &Option<String>) -> (r: Option<String>)
    ensures
        r == *o,
{
    match o {
        Some(s) => Some(s.clone()),
        None => None,
    }
}

impl CatRow {
    /// Copies the row.
    pub fn duplicate(&self) -> (r: CatRow)
        ensures
            r == *self,
    {
        CatRow {
            id: self.id,
            name: self.name.clone(),
            display_name: dup_opt(&self.display_name),
            description: dup_opt(&self.description),
            about: dup_opt(&self.about),
            priority: self.priority,
            active: self.active,
            public: self.public,
            user_id: self.user_id.clone(),
            created_on: self.created_on,
            updated_on: self.updated_on,
        }
    }

    /// The listing projection of the row.
    pub fn to_view(&self) -> (r: CategoryRowView)
        ensures
            r == category_view_of(*self),
    {
        CategoryRowView {
            id: self.id,
            name: self.name.clone(),
            display_name: dup_opt(&self.display_name),
            description: dup_opt(&self.description),
            priority: self.priority,
            active: self.active,
            public: self.public,
            created_on: self.created_on,
            updated_on: self.updated_on,
        }
    }
}

/// The listing projection of a stored category row.
pub open spec fn category_view_of(c: CatRow) -> CategoryRowView {
    CategoryRowView {
        id: c.id,
        name: c.name,
        display_name: c.display_name,
        description: c.description,
        priority: c.priority,
        active: c.active,
        public: c.public,
        created_on: c.created_on,
        updated_on: c.updated_on,
    }
}

impl TopicRec {
    /// Copies the row.
    pub fn duplicate(&self) -> (r: TopicRec)
        ensures
            r == *self,
    {
        TopicRec {
            id: self.id,
            name: self.name.clone(),
            display_name: dup_opt(&self.display_name),
            description: dup_opt(&self.description),
            about: dup_opt(&self.about),
            priority: self.priority,
            active: self.active,
            public: self.public,
            user_id: self.user_id.clone(),
            created_on: self.created_on,
            updated_on: self.updated_on,
        }
    }
}

/// The topic lookup row built from a stored row and its aggregated
/// category names.
pub open spec fn topic_row_of(t: TopicRec, categories: Vec<String>) -> TopicRow {
    TopicRow {
        id: t.id,
        name: t.name,
        display_name: t.display_name,
        description: t.description,
        about: t.about,
        priority: t.priority,
        active: t.active,
        public: t.public,
        user_id: t.user_id,
        created_on: t.created_on,
        updated_on: t.updated_on,
        categories,
    }
}

/// The topic listing projection built from a stored row and its aggregated
/// category names.
pub open spec fn topic_view_of(t: TopicRec, categories: Vec<String>) -> TopicRowView {
    TopicRowView {
        id: t.id,
        name: t.name,
        display_name: t.display_name,
        description: t.description,
        priority: t.priority,
        active: t.active,
        public: t.public,
        created_on: t.created_on,
        updated_on: t.updated_on,
        categories,
    }
}

impl BookmarkRec {
    /// Copies the row.
    pub fn duplicate(&self) -> (r: BookmarkRec)
        ensures
            r == *self,
    {
        BookmarkRec {
            id: self.id,
            url: self.url.clone(),
            user_id: self.user_id.clone(),
            title: dup_opt(&self.title),
            content: dup_opt(&self.content),
            referrer: dup_opt(&self.referrer),
            status: self.status.clone(),
            created_on: self.created_on,
            updated_on: self.updated_on,
        }
    }
}

/// The bookmark lookup row built from a stored row and its aggregated
/// category names.
pub open spec fn bookmark_row_of(b: BookmarkRec, categories: Vec<String>) -> BookmarkRow {
    BookmarkRow {
        id: b.id,
        url: b.url,
        user_id: b.user_id,
        title: b.title,
        content: b.content,
        referrer: b.referrer,
        status: b.status,
        created_on: b.created_on,
        updated_on: b.updated_on,
        categories,
    }
}

} // verus!
