//! Junction-table behaviour seen through the store's own surface.

use linknova::errors::{EntityKind, StoreError};
use linknova::rows::{CatRowI, TopicRowI};
use linknova::store::Store;

fn cat_row(name: &str, user: &str) -> CatRowI {
    CatRowI {
        name: name.to_string(),
        display_name: None,
        description: None,
        about: None,
        priority: 0,
        active: true,
        public: false,
        user_id: user.to_string(),
    }
}

fn topic_row(name: &str, user: &str) -> TopicRowI {
    TopicRowI {
        name: name.to_string(),
        display_name: None,
        description: None,
        about: None,
        priority: 0,
        active: true,
        public: false,
        user_id: user.to_string(),
    }
}

#[test]
fn topics_listed_by_category_name() {
    let mut store = Store::new();
    let c = store.cat_insert(cat_row("go", "u1"), 1).unwrap();
    let t1 = store.topic_insert(topic_row("work", "u1"), 2).unwrap();
    let t2 = store.topic_insert(topic_row("fun", "u1"), 3).unwrap();
    store.connect(t1, c).unwrap();
    let names = vec!["go".to_string()];
    let rows = store.topic_list_by_cat_name(&names, "u1");
    assert_eq!(rows.len(), 1);
    assert_eq!(rows[0].name, "work");
    assert_eq!(rows[0].categories, vec!["go".to_string()]);
    store.connect(t2, c).unwrap();
    let rows = store.topic_list_by_cat_name(&names, "u1");
    assert_eq!(rows.len(), 2);
    // the mapping is invisible to another user
    let rows = store.topic_list_by_cat_name(&names, "u2");
    assert_eq!(rows.len(), 0);
}

#[test]
fn categories_listed_by_topic_name() {
    let mut store = Store::new();
    let c1 = store.cat_insert(cat_row("go", "u1"), 1).unwrap();
    store.cat_insert(cat_row("rust", "u1"), 1).unwrap();
    let t = store.topic_insert(topic_row("work", "u1"), 2).unwrap();
    store.connect(t, c1).unwrap();
    let names = vec!["work".to_string()];
    let rows = store.cat_list_by_topic_name("u1", &names);
    assert_eq!(rows.len(), 1);
    assert_eq!(rows[0].name, "go");
    let all = store.cat_list_all("u1");
    assert_eq!(all.len(), 2);
}

#[test]
fn pair_map_inserts_are_idempotent() {
    let mut store = Store::new();
    let c1 = store.cat_insert(cat_row("go", "u1"), 1).unwrap();
    let c2 = store.cat_insert(cat_row("rust", "u1"), 1).unwrap();
    let t = store.topic_insert(topic_row("work", "u1"), 2).unwrap();
    let pairs = vec![(c1, t), (c1, t), (c2, t)];
    linknova::api::category::cat_topic_map(&mut store, &pairs).unwrap();
    assert_eq!(store.topic_cat.len(), 2);
    linknova::api::category::cat_topic_map(&mut store, &pairs).unwrap();
    assert_eq!(store.topic_cat.len(), 2);
    assert_eq!(store.topic_cat[0].category_id, c1);
    assert_eq!(store.topic_cat[0].topic_id, t);
    // a pair naming an identifier the sequence never handed out is
    // refused before anything is linked
    let bad = vec![(c1, 99i64)];
    assert_eq!(
        linknova::api::category::cat_topic_map(&mut store, &bad),
        Err(StoreError::NotFound(EntityKind::Category))
    );
    assert_eq!(store.topic_cat.len(), 2);
}

#[test]
fn bookmark_link_bulk_requires_the_bookmark() {
    let mut store = Store::new();
    let ids = vec![4i64, 5];
    let r = store.bm_add_category_links(99, &ids);
    assert_eq!(r, Err(StoreError::NotFound(EntityKind::Bookmark)));
    assert_eq!(store.bookmark_cat.len(), 0);
}

#[test]
fn update_of_missing_rows_is_not_found() {
    let mut store = Store::new();
    let edit = linknova::link::cat::CatCreateReq {
        name: "x".to_string(),
        display_name: None,
        about: None,
        description: None,
        public: false,
        priority: 0,
    };
    let r = linknova::link::cat::update(&mut store, "u1", "go", edit, 10);
    assert_eq!(r, Err(StoreError::NotFound(EntityKind::Category)));
    let edit = linknova::link::topic::TopicUpdateReq {
        description: None,
        display_name: None,
        priority: None,
        about: None,
        public: None,
    };
    let r = linknova::link::topic::update(&mut store, "u1", "work", edit, 10);
    assert_eq!(r, Err(StoreError::NotFound(EntityKind::Topic)));
}

#[test]
fn topic_delete_leaves_its_mappings_for_explicit_removal() {
    let mut store = Store::new();
    let c = store.cat_insert(cat_row("go", "u1"), 1).unwrap();
    let t = store.topic_insert(topic_row("work", "u1"), 2).unwrap();
    store.connect(t, c).unwrap();
    store.topic_delete("u1", "work").unwrap();
    // topic deletion does not cascade; mapping deletion is explicit
    assert_eq!(store.topic_cat.len(), 1);
    // and the dangling row no longer surfaces anywhere
    let rows = store.cat_list_by_topic_name("u1", &vec!["work".to_string()]);
    assert_eq!(rows.len(), 0);
}
