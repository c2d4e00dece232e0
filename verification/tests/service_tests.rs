//! The link service layer and the flat request layer: category and topic
//! lookups with their aggregates, metadata edits, and bulk linking.

use linknova::errors::{EntityKind, StoreError};
use linknova::link::cat::CatCreateReq;
use linknova::link::topic::{TopicCreateReq, TopicUpdateReq};
use linknova::store::Store;

fn cat_req(name: &str) -> CatCreateReq {
    CatCreateReq {
        name: name.to_string(),
        display_name: None,
        about: None,
        description: None,
        public: false,
        priority: 0,
    }
}

fn topic_req(name: &str) -> TopicCreateReq {
    TopicCreateReq {
        name: name.to_string(),
        description: None,
        display_name: None,
        priority: None,
        about: None,
        public: false,
    }
}

#[test]
fn category_get_lists_its_topics_sorted() {
    let mut store = Store::new();
    linknova::link::cat::create(&mut store, "u1", cat_req("go"), 10).unwrap();
    linknova::link::topic::create(&mut store, "u1", topic_req("work"), 11).unwrap();
    linknova::link::topic::create(&mut store, "u1", topic_req("fun"), 12).unwrap();
    linknova::link::cat::add_topic(&mut store, "u1", "go", "work").unwrap();
    linknova::link::cat::add_topic(&mut store, "u1", "go", "fun").unwrap();
    let res = linknova::link::cat::get(&store, "u1", "go").unwrap();
    assert_eq!(res.topics, vec!["fun".to_string(), "work".to_string()]);
    // linking the same pair again succeeds and leaves one row
    let before = store.topic_cat.len();
    linknova::link::cat::add_topic(&mut store, "u1", "go", "work").unwrap();
    assert_eq!(store.topic_cat.len(), before);
    // an unresolved name is the only failure
    let r = linknova::link::cat::add_topic(&mut store, "u1", "go", "missing");
    assert_eq!(r, Err(StoreError::NotFound(EntityKind::Topic)));
}

#[test]
fn category_list_scoped_by_topic() {
    let mut store = Store::new();
    linknova::link::cat::create(&mut store, "u1", cat_req("go"), 10).unwrap();
    linknova::link::cat::create(&mut store, "u1", cat_req("rust"), 10).unwrap();
    linknova::link::topic::create(&mut store, "u1", topic_req("work"), 11).unwrap();
    linknova::link::cat::add_topic(&mut store, "u1", "go", "work").unwrap();
    let all: Vec<String> = Vec::new();
    let res = linknova::link::cat::list(&store, "u1", &all);
    assert_eq!(res.len(), 2);
    let scoped = vec!["work".to_string()];
    let res = linknova::link::cat::list(&store, "u1", &scoped);
    assert_eq!(res.len(), 1);
    assert_eq!(res[0].name, "go");
    assert_eq!(res[0].topics, vec!["work".to_string()]);
}

#[test]
fn category_update_edits_metadata_in_place() {
    let mut store = Store::new();
    let id = linknova::link::cat::create(&mut store, "u1", cat_req("go"), 10).unwrap();
    let edit = CatCreateReq {
        name: "ignored".to_string(),
        display_name: Some("Go".to_string()),
        about: Some("lang".to_string()),
        description: None,
        public: true,
        priority: 7,
    };
    linknova::link::cat::update(&mut store, "u1", "go", edit, 20).unwrap();
    let c = store.cat_get_by_name("u1", "go").unwrap();
    assert_eq!(c.id, id);
    assert_eq!(c.display_name, Some("Go".to_string()));
    assert_eq!(c.public, true);
    assert_eq!(c.priority, 7);
    assert_eq!(c.created_on, 10);
    assert_eq!(c.updated_on, 20);
}

#[test]
fn topic_get_and_list_carry_aggregates() {
    let mut store = Store::new();
    linknova::link::topic::create(&mut store, "u1", topic_req("work"), 10).unwrap();
    let names = vec!["rust".to_string(), "go".to_string()];
    linknova::link::topic::add_category(&mut store, "u1", "work", &names, 20).unwrap();
    let res = linknova::link::topic::get(&store, "u1", "work").unwrap();
    assert_eq!(res.categories, vec!["go".to_string(), "rust".to_string()]);
    let listed = linknova::link::topic::list(&store, "u1");
    assert_eq!(listed.len(), 1);
    assert_eq!(listed[0].categories, vec!["go".to_string(), "rust".to_string()]);
    // removing one name leaves the other linked
    let gone = vec!["go".to_string()];
    linknova::link::topic::remove_category(&mut store, "u1", "work", &gone).unwrap();
    let res = linknova::link::topic::get(&store, "u1", "work").unwrap();
    assert_eq!(res.categories, vec!["rust".to_string()]);
}

#[test]
fn topic_update_overwrites_only_given_fields() {
    let mut store = Store::new();
    let mut req = topic_req("work");
    req.display_name = Some("Work".to_string());
    linknova::link::topic::create(&mut store, "u1", req, 10).unwrap();
    let edit = TopicUpdateReq {
        description: Some("d".to_string()),
        display_name: None,
        priority: Some(4),
        about: None,
        public: Some(true),
    };
    linknova::link::topic::update(&mut store, "u1", "work", edit, 20).unwrap();
    let t = store.topic_get_by_name("u1", "work").unwrap();
    assert_eq!(t.description, Some("d".to_string()));
    assert_eq!(t.display_name, Some("Work".to_string()));
    assert_eq!(t.priority, 4);
    assert_eq!(t.public, true);
    assert_eq!(t.updated_on, 20);
}

#[test]
fn bulk_topic_links_resolve_names_first() {
    let mut store = Store::new();
    linknova::link::cat::create(&mut store, "u1", cat_req("go"), 10).unwrap();
    linknova::link::topic::create(&mut store, "u1", topic_req("work"), 10).unwrap();
    linknova::link::topic::create(&mut store, "u1", topic_req("fun"), 10).unwrap();
    let names = vec!["work".to_string(), "missing".to_string()];
    let r = linknova::link::cat::add_topics_bulk(&mut store, "u1", "go", &names);
    assert_eq!(r, Err(StoreError::NotFound(EntityKind::Topic)));
    assert_eq!(store.topic_cat.len(), 0);
    let names = vec!["work".to_string(), "fun".to_string()];
    linknova::link::cat::add_topics_bulk(&mut store, "u1", "go", &names).unwrap();
    assert_eq!(store.topic_cat.len(), 2);
    // adding again is idempotent
    linknova::link::cat::add_topics_bulk(&mut store, "u1", "go", &names).unwrap();
    assert_eq!(store.topic_cat.len(), 2);
    let fewer = vec!["work".to_string()];
    linknova::link::cat::remove_topics_bulk(&mut store, "u1", "go", &fewer).unwrap();
    assert_eq!(store.topic_cat.len(), 1);
    let res = linknova::link::cat::get(&store, "u1", "go").unwrap();
    assert_eq!(res.topics, vec!["fun".to_string()]);
}

#[test]
fn meta_upsert_overwrites_metadata_and_keeps_identity() {
    let mut store = Store::new();
    let c1 = linknova::api::category::Category {
        name: "go".to_string(),
        title: Some("old".to_string()),
        about: None,
    };
    let id1 = linknova::api::category::cat_upsert_meta(&mut store, "u1", c1, 10).unwrap();
    let c2 = linknova::api::category::Category {
        name: "go".to_string(),
        title: Some("new".to_string()),
        about: Some("a".to_string()),
    };
    let id2 = linknova::api::category::cat_upsert_meta(&mut store, "u1", c2, 20).unwrap();
    assert_eq!(id1, id2);
    assert_eq!(store.categories.len(), 1);
    let c = store.cat_get_by_name("u1", "go").unwrap();
    assert_eq!(c.display_name, Some("new".to_string()));
    assert_eq!(c.about, Some("a".to_string()));
    assert_eq!(c.created_on, 10);
    assert_eq!(c.updated_on, 20);
}

#[test]
fn api_topic_create_upserts_and_links() {
    let mut store = Store::new();
    let req = linknova::api::topic::CreateRequest {
        name: "work".to_string(),
        description: Some("d".to_string()),
        categories: vec!["go".to_string(), "rust".to_string()],
    };
    let tc = linknova::api::topic::TopicCreate::from_req(req);
    let tid = linknova::api::topic::create(&mut store, "u1", tc, 10).unwrap();
    assert_eq!(store.topics.len(), 1);
    assert_eq!(store.categories.len(), 2);
    assert_eq!(store.topic_cat.len(), 2);
    for m in &store.topic_cat {
        assert_eq!(m.topic_id, tid);
    }
    // upserting the same topic edits its description, never duplicates
    let tc2 = linknova::api::topic::TopicCreate {
        name: "work".to_string(),
        description: Some("d2".to_string()),
        categories: Vec::new(),
    };
    let tid2 = linknova::api::topic::upsert_topic(&mut store, "u1", &tc2, 30).unwrap();
    assert_eq!(tid, tid2);
    assert_eq!(store.topics.len(), 1);
    assert_eq!(store.topics[0].description, Some("d2".to_string()));
    assert_eq!(store.topics[0].updated_on, 30);
}

#[test]
fn api_category_create_with_topic() {
    let mut store = Store::new();
    let req = linknova::api::category::CreateRequest {
        name: "go".to_string(),
        title: Some("Go".to_string()),
        about: None,
        topic: Some("work".to_string()),
    };
    let cat_id = linknova::api::category::create(&mut store, "u1", req, 10).unwrap();
    assert_eq!(store.categories.len(), 1);
    assert_eq!(store.topics.len(), 1);
    assert_eq!(store.topic_cat.len(), 1);
    assert_eq!(store.topic_cat[0].category_id, cat_id);
    let res = linknova::link::cat::get(&store, "u1", "go").unwrap();
    assert_eq!(res.topics, vec!["work".to_string()]);
}

#[test]
fn bookmark_service_list_and_get() {
    let mut store = Store::new();
    let req = linknova::link::bookmark::BmCreateReq {
        title: Some("t".to_string()),
        url: "http://a".to_string(),
        content: None,
        referrer: None,
        status: None,
        categories: vec!["go".to_string()],
    };
    let id = linknova::link::bookmark::create(&mut store, "u1", req, 100).unwrap();
    let res = linknova::link::bookmark::get(&store, id).unwrap();
    assert_eq!(res.id, id);
    assert_eq!(res.categories, vec!["go".to_string()]);
    let r = linknova::link::bookmark::get(&store, id + 5);
    assert_eq!(r.err(), Some(StoreError::NotFound(EntityKind::Bookmark)));
    let empty: Vec<String> = Vec::new();
    let listed = linknova::link::bookmark::list(&store, "u1", &empty, &None);
    assert_eq!(listed.len(), 1);
    assert_eq!(listed[0].url, "http://a");
}

#[test]
fn error_labels() {
    assert_eq!(StoreError::NotFound(EntityKind::Topic).describe(), "not found");
    assert_eq!(StoreError::Conflict(EntityKind::Category).describe(), "conflict");
    assert_eq!(StoreError::Unavailable.describe(), "store unavailable");
    assert_eq!(StoreError::InvalidState.describe(), "invalid state");
}
