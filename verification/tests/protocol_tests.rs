//! The upsert-and-link protocol: idempotent upserts, atomicity of
//! failed creations, and the default fallback.

use linknova::errors::{EntityKind, StoreError};
use linknova::link::bookmark::BmCreateReq;
use linknova::rows::CatRowI;
use linknova::store::Store;

fn cat_row(name: &str, user: &str) -> CatRowI {
    CatRowI {
        name: name.to_string(),
        display_name: None,
        description: None,
        about: None,
        priority: 0,
        active: true,
        public: false,
        user_id: user.to_string(),
    }
}

fn bm_req(url: &str, cats: &[&str]) -> BmCreateReq {
    BmCreateReq {
        title: None,
        url: url.to_string(),
        content: None,
        referrer: None,
        status: None,
        categories: cats.iter().map(|c| c.to_string()).collect(),
    }
}

#[test]
fn upsert_same_name_twice_keeps_one_row() {
    let mut store = Store::new();
    let rows = vec![cat_row("go", "u1")];
    let ids1 = store.upsert_categories(&rows, 10).unwrap();
    let rows2 = vec![cat_row("go", "u1")];
    let ids2 = store.upsert_categories(&rows2, 20).unwrap();
    assert_eq!(ids1, ids2);
    assert_eq!(store.categories.len(), 1);
    assert_eq!(store.categories[0].name, "go");
    // the bulk path preserves the existing row's metadata and timestamps
    assert_eq!(store.categories[0].created_on, 10);
    assert_eq!(store.categories[0].updated_on, 10);
}

#[test]
fn upsert_duplicate_names_in_one_call() {
    let mut store = Store::new();
    let rows = vec![cat_row("go", "u1"), cat_row("go", "u1"), cat_row("rust", "u1")];
    let ids = store.upsert_categories(&rows, 10).unwrap();
    assert_eq!(store.categories.len(), 2);
    assert_eq!(ids[0], ids[1]);
    assert_ne!(ids[0], ids[2]);
}

#[test]
fn upsert_is_scoped_by_user() {
    let mut store = Store::new();
    store.upsert_categories(&vec![cat_row("go", "u1")], 10).unwrap();
    store.upsert_categories(&vec![cat_row("go", "u2")], 10).unwrap();
    assert_eq!(store.categories.len(), 2);
}

#[test]
fn create_bookmark_links_named_categories() {
    let mut store = Store::new();
    let id = linknova::link::bookmark::create(&mut store, "u1", bm_req("http://a", &["go", "rust"]), 100)
        .unwrap();
    assert_eq!(store.bookmarks.len(), 1);
    assert_eq!(store.categories.len(), 2);
    assert_eq!(store.bookmark_cat.len(), 2);
    for m in &store.bookmark_cat {
        assert_eq!(m.bookmark_id, id);
    }
    let row = store.bookmark_get_by_id(id).unwrap();
    assert_eq!(row.status, "UN");
    assert_eq!(row.created_on, 100);
}

#[test]
fn create_bookmark_failure_leaves_no_rows() {
    // force the mapping-and-insert steps to be unreachable: no category
    // name and no "default" row, so the call must fail before any write
    let mut store = Store::new();
    let r = linknova::link::bookmark::create(&mut store, "u1", bm_req("http://a", &[]), 100);
    assert_eq!(r, Err(StoreError::InvalidState));
    assert_eq!(store.bookmarks.len(), 0);
    assert_eq!(store.categories.len(), 0);
    assert_eq!(store.bookmark_cat.len(), 0);
}

#[test]
fn create_bookmark_failure_on_exhausted_ids_changes_nothing() {
    let mut store = Store::new();
    store.next_id = i64::MAX;
    let r = linknova::link::bookmark::create(&mut store, "u1", bm_req("http://a", &["go"]), 100);
    assert_eq!(r, Err(StoreError::Unavailable));
    assert_eq!(store.bookmarks.len(), 0);
    assert_eq!(store.categories.len(), 0);
    assert_eq!(store.bookmark_cat.len(), 0);
    assert_eq!(store.next_id, i64::MAX);
}

#[test]
fn create_bookmark_with_default_fallback() {
    let mut store = Store::new();
    store.cat_insert(cat_row("default", "u1"), 5).unwrap();
    let id = linknova::link::bookmark::create(&mut store, "u1", bm_req("http://a", &[]), 100)
        .unwrap();
    let row = store.bookmark_get_by_id(id).unwrap();
    assert_eq!(row.categories, vec!["default".to_string()]);
}

#[test]
fn add_categories_to_missing_bookmark_fails() {
    let mut store = Store::new();
    let names = vec!["go".to_string()];
    let r = linknova::link::bookmark::add_categories(&mut store, "u1", 77, &names, 10);
    assert_eq!(r, Err(StoreError::NotFound(EntityKind::Bookmark)));
    assert_eq!(store.categories.len(), 0);
}

#[test]
fn add_and_remove_categories() {
    let mut store = Store::new();
    let id = linknova::link::bookmark::create(&mut store, "u1", bm_req("http://a", &["go"]), 100)
        .unwrap();
    let more = vec!["ops".to_string()];
    linknova::link::bookmark::add_categories(&mut store, "u1", id, &more, 110).unwrap();
    let row = store.bookmark_get_by_id(id).unwrap();
    assert_eq!(row.categories, vec!["go".to_string(), "ops".to_string()]);
    let gone = vec!["go".to_string()];
    linknova::link::bookmark::remove_category(&mut store, "u1", id, &gone).unwrap();
    let row = store.bookmark_get_by_id(id).unwrap();
    assert_eq!(row.categories, vec!["ops".to_string()]);
}

#[test]
fn remove_categories_is_scoped_to_owner() {
    let mut store = Store::new();
    let id1 = linknova::link::bookmark::create(&mut store, "u1", bm_req("http://a", &["go"]), 100)
        .unwrap();
    let id2 = linknova::link::bookmark::create(&mut store, "u2", bm_req("http://b", &["go"]), 100)
        .unwrap();
    // removing u2's "go" from u2's bookmark must not touch u1's rows
    let names = vec!["go".to_string()];
    linknova::link::bookmark::remove_category(&mut store, "u2", id2, &names).unwrap();
    assert_eq!(store.bookmark_get_by_id(id1).unwrap().categories, vec!["go".to_string()]);
    assert_eq!(store.bookmark_get_by_id(id2).unwrap().categories, Vec::<String>::new());
}

#[test]
fn save_url_maps_reference_to_referrer() {
    let mut store = Store::new();
    let req = linknova::api::save::SaveRequest {
        url: "http://x".to_string(),
        title: Some("t".to_string()),
        reference: Some("r".to_string()),
        categories: vec!["go".to_string()],
    };
    let res = linknova::api::save::save_url(&mut store, "u1", req, 100).unwrap();
    let row = store.bookmark_get_by_id(res.id).unwrap();
    assert_eq!(row.referrer, Some("r".to_string()));
    assert_eq!(row.title, Some("t".to_string()));
    assert_eq!(row.categories, vec!["go".to_string()]);
}

#[test]
fn create_bookmark_now_uses_the_clock() {
    let mut store = Store::new();
    let id = linknova::clock::create_bookmark_now(&mut store, "u1", bm_req("http://a", &["go"]))
        .unwrap();
    let row = store.bookmark_get_by_id(id).unwrap();
    assert!(row.created_on > 0);
    assert_eq!(row.created_on, row.updated_on);
}
