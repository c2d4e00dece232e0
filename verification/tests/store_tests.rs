//! Entity store basics: inserts, lookups, deletes, cascade, fallback,
//! and the error taxonomy.

use linknova::errors::{EntityKind, StoreError};
use linknova::link::bookmark::BmCreateReq;
use linknova::rows::CatRowI;
use linknova::store::Store;

fn cat_row(name: &str, user: &str) -> CatRowI {
    CatRowI {
        name: name.to_string(),
        display_name: Some("Disp".to_string()),
        description: None,
        about: Some("about".to_string()),
        priority: 3,
        active: true,
        public: false,
        user_id: user.to_string(),
    }
}

fn bm_req(url: &str, cats: &[&str]) -> BmCreateReq {
    BmCreateReq {
        title: None,
        url: url.to_string(),
        content: None,
        referrer: None,
        status: None,
        categories: cats.iter().map(|c| c.to_string()).collect(),
    }
}

#[test]
fn insert_and_get_by_name() {
    let mut store = Store::new();
    let id = store.cat_insert(cat_row("go", "u1"), 10).unwrap();
    let c = store.cat_get_by_name("u1", "go").unwrap();
    assert_eq!(c.id, id);
    assert_eq!(c.display_name, Some("Disp".to_string()));
    assert_eq!(c.priority, 3);
    assert_eq!(c.created_on, 10);
    assert!(store.cat_get_by_name("u2", "go").is_none());
    assert!(store.cat_get_by_name("u1", "rust").is_none());
}

#[test]
fn duplicate_insert_is_a_conflict() {
    let mut store = Store::new();
    store.cat_insert(cat_row("go", "u1"), 10).unwrap();
    let r = store.cat_insert(cat_row("go", "u1"), 20);
    assert_eq!(r, Err(StoreError::Conflict(EntityKind::Category)));
    assert_eq!(store.categories.len(), 1);
}

#[test]
fn delete_missing_is_not_found() {
    let mut store = Store::new();
    let r = store.cat_delete("u1", "go");
    assert_eq!(r, Err(StoreError::NotFound(EntityKind::Category)));
    store.cat_insert(cat_row("go", "u1"), 10).unwrap();
    // another user's row never matches
    let r = store.cat_delete("u2", "go");
    assert_eq!(r, Err(StoreError::NotFound(EntityKind::Category)));
    store.cat_delete("u1", "go").unwrap();
    assert_eq!(store.categories.len(), 0);
}

#[test]
fn exhausted_identifier_space_is_unavailable() {
    let mut store = Store::new();
    store.next_id = i64::MAX;
    let r = store.cat_insert(cat_row("go", "u1"), 10);
    assert_eq!(r, Err(StoreError::Unavailable));
}

#[test]
fn delete_cascade_removes_all_mapping_rows() {
    let mut store = Store::new();
    let keep = linknova::link::bookmark::create(&mut store, "u1", bm_req("http://keep", &["x"]), 90)
        .unwrap();
    let id = linknova::link::bookmark::create(&mut store, "u1", bm_req("http://a", &["go", "rust"]), 100)
        .unwrap();
    assert_eq!(store.bookmark_cat.iter().filter(|m| m.bookmark_id == id).count(), 2);
    linknova::link::bookmark::delete(&mut store, "u1", id).unwrap();
    // re-query the mapping table directly, not just the aggregate view
    assert_eq!(store.bookmark_cat.iter().filter(|m| m.bookmark_id == id).count(), 0);
    assert!(store.bookmark_get_by_id(id).is_none());
    // the other bookmark keeps its row and its mapping rows
    assert_eq!(store.bookmark_cat.iter().filter(|m| m.bookmark_id == keep).count(), 1);
    assert!(store.bookmark_get_by_id(keep).is_some());
    // deleting again reports the absence
    let r = linknova::link::bookmark::delete(&mut store, "u1", id);
    assert_eq!(r, Err(StoreError::NotFound(EntityKind::Bookmark)));
}

#[test]
fn fallback_prefers_exact_match() {
    let mut store = Store::new();
    let d = store.cat_insert(cat_row("default", "u1"), 10).unwrap();
    let x = store.cat_insert(cat_row("x", "u1"), 11).unwrap();
    assert_eq!(store.get_cat_or_default("u1", "x"), Ok(x));
    assert_eq!(store.get_cat_or_default("u1", "y"), Ok(d));
    assert_eq!(
        store.get_cat_or_default("u2", "x"),
        Err(StoreError::NotFound(EntityKind::Category))
    );
}

#[test]
fn topic_fallback_mirrors_category_fallback() {
    let mut store = Store::new();
    let row = linknova::rows::TopicRowI {
        name: "default".to_string(),
        display_name: None,
        description: None,
        about: None,
        priority: 0,
        active: true,
        public: false,
        user_id: "u1".to_string(),
    };
    let d = store.topic_insert(row, 10).unwrap();
    assert_eq!(store.get_topic_or_default("u1", "missing"), Ok(d));
    assert_eq!(
        store.get_topic_or_default("u2", "missing"),
        Err(StoreError::NotFound(EntityKind::Topic))
    );
}

#[test]
fn connect_is_idempotent() {
    let mut store = Store::new();
    let c = store.cat_insert(cat_row("go", "u1"), 1).unwrap();
    let t = {
        let row = linknova::rows::TopicRowI {
            name: "work".to_string(),
            display_name: None,
            description: None,
            about: None,
            priority: 0,
            active: true,
            public: false,
            user_id: "u1".to_string(),
        };
        store.topic_insert(row, 2).unwrap()
    };
    store.connect(t, c).unwrap();
    assert_eq!(store.topic_cat.len(), 1);
    // inserting the same pair again succeeds and leaves exactly one row
    store.connect(t, c).unwrap();
    assert_eq!(store.topic_cat.len(), 1);
    store.disconnect(t, c);
    assert_eq!(store.topic_cat.len(), 0);
    // disconnecting an absent pair changes nothing
    store.disconnect(t, c);
    assert_eq!(store.topic_cat.len(), 0);
}

#[test]
fn connect_refuses_unallocated_identifiers() {
    let mut store = Store::new();
    let c = store.cat_insert(cat_row("go", "u1"), 1).unwrap();
    assert_eq!(store.connect(99, c), Err(StoreError::NotFound(EntityKind::Topic)));
    assert_eq!(store.connect(c, 99), Err(StoreError::NotFound(EntityKind::Category)));
    assert_eq!(store.topic_cat.len(), 0);
}

#[test]
fn delete_bookmark_is_owner_scoped() {
    let mut store = Store::new();
    let id = linknova::link::bookmark::create(&mut store, "u1", bm_req("http://a", &["go"]), 100)
        .unwrap();
    // another user cannot delete the bookmark by its identifier
    let r = linknova::link::bookmark::delete(&mut store, "u2", id);
    assert_eq!(r, Err(StoreError::NotFound(EntityKind::Bookmark)));
    assert!(store.bookmark_get_by_id(id).is_some());
    linknova::link::bookmark::delete(&mut store, "u1", id).unwrap();
    assert!(store.bookmark_get_by_id(id).is_none());
}

#[test]
fn sorted_name_insertion() {
    let mut v: Vec<String> = Vec::new();
    linknova::order::insert_name(&mut v, "rust".to_string());
    linknova::order::insert_name(&mut v, "go".to_string());
    linknova::order::insert_name(&mut v, "ops".to_string());
    linknova::order::insert_name(&mut v, "go".to_string());
    assert_eq!(v, vec!["go".to_string(), "ops".to_string(), "rust".to_string()]);
}

#[test]
fn name_order_is_bytewise() {
    assert!(linknova::order::str_lt("a", "b"));
    assert!(linknova::order::str_lt("a", "ab"));
    assert!(!linknova::order::str_lt("b", "a"));
    assert!(!linknova::order::str_lt("a", "a"));
    assert!(linknova::order::str_lt("Z", "a"));
    assert!(linknova::order::str_eq("go", "go"));
    assert!(!linknova::order::str_eq("go", "gO"));
}
