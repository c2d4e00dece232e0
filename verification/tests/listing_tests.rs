//! Aggregation, filtering and pagination.

use linknova::link::bookmark::BmCreateReq;
use linknova::rows::BookmarkI;
use linknova::store::Store;

fn bm_req(url: &str, cats: &[&str]) -> BmCreateReq {
    BmCreateReq {
        title: None,
        url: url.to_string(),
        content: None,
        referrer: None,
        status: None,
        categories: cats.iter().map(|c| c.to_string()).collect(),
    }
}

fn untagged(url: &str, user: &str, now: i64) -> BookmarkI {
    BookmarkI {
        url: url.to_string(),
        user_id: user.to_string(),
        title: None,
        content: None,
        referrer: None,
        status: "UN".to_string(),
        created_on: now,
        updated_on: now,
    }
}

#[test]
fn aggregation_is_alphabetical() {
    let mut store = Store::new();
    let id = linknova::link::bookmark::create(&mut store, "u1", bm_req("http://a", &["rust", "go"]), 100)
        .unwrap();
    let row = store.bookmark_get_by_id(id).unwrap();
    assert_eq!(row.categories, vec!["go".to_string(), "rust".to_string()]);
    let more = vec!["ops".to_string()];
    linknova::link::bookmark::add_categories(&mut store, "u1", id, &more, 110).unwrap();
    let row = store.bookmark_get_by_id(id).unwrap();
    assert_eq!(
        row.categories,
        vec!["go".to_string(), "ops".to_string(), "rust".to_string()]
    );
}

#[test]
fn filter_semantics() {
    let mut store = Store::new();
    let b1 = linknova::link::bookmark::create(&mut store, "u1", bm_req("http://1", &["a", "b"]), 100)
        .unwrap();
    let b2 = linknova::link::bookmark::create(&mut store, "u1", bm_req("http://2", &["c"]), 101)
        .unwrap();
    let b3 = store.bookmark_insert(untagged("http://3", "u1", 102)).unwrap();

    let want_a = vec!["a".to_string()];
    let rows = store.filter("u1", Some(&want_a), &None);
    assert_eq!(rows.len(), 1);
    assert_eq!(rows[0].id, b1);
    // the filter runs on the aggregate: the full category set is kept
    assert_eq!(rows[0].categories, vec!["a".to_string(), "b".to_string()]);

    let empty: Vec<String> = Vec::new();
    let rows = store.filter("u1", Some(&empty), &None);
    assert_eq!(rows.len(), 3);
    assert_eq!(rows[0].id, b1);
    assert_eq!(rows[0].categories, vec!["a".to_string(), "b".to_string()]);
    assert_eq!(rows[1].id, b2);
    assert_eq!(rows[1].categories, vec!["c".to_string()]);
    assert_eq!(rows[2].id, b3);
    assert_eq!(rows[2].categories, Vec::<String>::new());
}

#[test]
fn filter_by_status_and_user() {
    let mut store = Store::new();
    let mut req = bm_req("http://1", &["a"]);
    req.status = Some("RD".to_string());
    linknova::link::bookmark::create(&mut store, "u1", req, 100).unwrap();
    linknova::link::bookmark::create(&mut store, "u1", bm_req("http://2", &["a"]), 101).unwrap();
    linknova::link::bookmark::create(&mut store, "u2", bm_req("http://3", &["a"]), 102).unwrap();

    let rows = store.filter("u1", None, &Some("RD".to_string()));
    assert_eq!(rows.len(), 1);
    assert_eq!(rows[0].url, "http://1");
    let rows = store.filter("u1", None, &None);
    assert_eq!(rows.len(), 2);
}

#[test]
fn filter_by_topic_follows_the_chain() {
    let mut store = Store::new();
    linknova::link::topic::create(
        &mut store,
        "u1",
        linknova::link::topic::TopicCreateReq {
            name: "work".to_string(),
            description: None,
            display_name: None,
            priority: None,
            about: None,
            public: false,
        },
        50,
    )
    .unwrap();
    let names = vec!["a".to_string()];
    linknova::link::topic::add_category(&mut store, "u1", "work", &names, 60).unwrap();
    let b1 = linknova::link::bookmark::create(&mut store, "u1", bm_req("http://1", &["a"]), 100)
        .unwrap();
    linknova::link::bookmark::create(&mut store, "u1", bm_req("http://2", &["b"]), 101).unwrap();

    let rows = store.filter_by_topic("u1", "work", None, &None);
    assert_eq!(rows.len(), 1);
    assert_eq!(rows[0].id, b1);

    let rows = store.filter_by_topic("u1", "nothing", None, &None);
    assert_eq!(rows.len(), 0);
}

#[test]
fn pagination_boundary() {
    let mut store = Store::new();
    for i in 0..11 {
        linknova::link::bookmark::create(
            &mut store,
            "u1",
            bm_req(&format!("http://{}", i), &["a"]),
            100 + i,
        )
        .unwrap();
    }
    let page1 = store.list_bookmarks("u1", None, None, &None, 1, 10);
    assert_eq!(page1.rows.len(), 10);
    assert!(page1.has_next);
    assert!(!page1.has_prev);
    let page2 = store.list_bookmarks("u1", None, None, &None, 2, 10);
    assert_eq!(page2.rows.len(), 1);
    assert!(!page2.has_next);
    assert!(page2.has_prev);
}

#[test]
fn listing_is_most_recent_first_with_id_tiebreak() {
    let mut store = Store::new();
    let b1 = linknova::link::bookmark::create(&mut store, "u1", bm_req("http://1", &["a"]), 100)
        .unwrap();
    let b2 = linknova::link::bookmark::create(&mut store, "u1", bm_req("http://2", &["a"]), 300)
        .unwrap();
    let b3 = linknova::link::bookmark::create(&mut store, "u1", bm_req("http://3", &["a"]), 100)
        .unwrap();
    let page = store.list_bookmarks("u1", None, None, &None, 1, 10);
    let ids: Vec<i64> = page.rows.iter().map(|r| r.id).collect();
    assert_eq!(ids, vec![b2, b1, b3]);
}

#[test]
fn page_size_is_clamped_to_one_hundred() {
    let mut store = Store::new();
    for i in 0..105 {
        linknova::link::bookmark::create(
            &mut store,
            "u1",
            bm_req(&format!("http://{}", i), &["a"]),
            100,
        )
        .unwrap();
    }
    let page = store.list_bookmarks("u1", None, None, &None, 1, 1000);
    assert_eq!(page.rows.len(), 100);
    assert!(page.has_next);
}

#[test]
fn get_urls_pages_and_cursors() {
    let mut store = Store::new();
    let mut cat_id = 0;
    for i in 0..11 {
        linknova::link::bookmark::create(
            &mut store,
            "u1",
            bm_req(&format!("http://{}", i), &["a"]),
            100 + i,
        )
        .unwrap();
    }
    for c in &store.categories {
        if c.name == "a" {
            cat_id = c.id;
        }
    }
    let ids = vec![cat_id];
    let res = linknova::api::get::get_urls(&store, "u1", &ids, 1, 10);
    assert_eq!(res.count, 10);
    assert_eq!(res.prev, None);
    assert_eq!(res.next, Some(2));
    let res = linknova::api::get::get_urls(&store, "u1", &ids, 2, 10);
    assert_eq!(res.count, 1);
    assert_eq!(res.prev, Some(1));
    assert_eq!(res.next, None);
    // a category id that nothing is linked to selects nothing
    let other = vec![cat_id + 1000];
    let res = linknova::api::get::get_urls(&store, "u1", &other, 1, 10);
    assert_eq!(res.count, 0);
}

#[test]
fn page_size_zero_yields_an_empty_page() {
    let mut store = Store::new();
    linknova::link::bookmark::create(&mut store, "u1", bm_req("http://1", &["a"]), 100).unwrap();
    let page = store.list_bookmarks("u1", None, None, &None, 1, 0);
    assert_eq!(page.rows.len(), 0);
    // a matching row exists beyond the empty window
    assert!(page.has_next);
    assert!(!page.has_prev);
    let res = linknova::api::get::get_urls(&store, "u1", &Vec::new(), 1, 0);
    assert_eq!(res.count, 0);
    assert_eq!(res.rows.len(), 0);
    assert_eq!(res.next, Some(2));
}

#[test]
fn min_picks_the_smaller() {
    assert_eq!(linknova::api::get::min(3, 7), 3);
    assert_eq!(linknova::api::get::min(7, 3), 3);
    assert_eq!(linknova::api::get::min(-1, 1), -1);
}
