//! Bookmark operations: the upsert-and-link creation protocol, lookup
//! and listing with aggregated categories, cascading deletion, and
//! explicit category add/remove.

use vstd::prelude::*;

use crate::errors::{EntityKind, StoreError};
use crate::listing::{is_bm_aggregate, opt_chars, opt_views, rows_correspond, selected_bookmarks};
use crate::protocol::{cat_ids_for, upsert_cats_seq};
use crate::rows::{BookmarkI, BookmarkRec, BookmarkRow, CatRowI};
use crate::store::{add_bc_links, has_bookmark_in, Store};

verus! {

/// What a client sends to create a bookmark: a URL, optional metadata,
/// and the names of the categories to tag it with.
#[derive(Debug)]
pub struct BmCreateReq {
    pub title: Option<String>,
    pub url: String,
    pub content: Option<String>,
    pub referrer: Option<String>,
    pub status: Option<String>,
    pub categories: Vec<String>,
}

/// A bookmark as returned to a client, with its aggregated category
/// names.
#[derive(Debug)]
pub struct BmResponse {
    pub id: i64,
    pub url: String,
    pub title: Option<String>,
    pub content: Option<String>,
    pub referrer: Option<String>,
    pub status: String,
    pub created_on: i64,
    pub updated_on: i64,
    pub categories: Vec<String>,
}

/// The query parameters of the bookmark listing.
#[derive(Debug)]
pub struct ListQueryParams {
    pub status: Option<String>,
    pub category: Vec<String>,
    pub topic: Option<String>,
}

/// Category names to add to a bookmark.
#[derive(Debug)]
pub struct AddCategories {
    pub categories: Vec<String>,
}

/// Category names to remove from a bookmark.
#[derive(Debug)]
pub struct RemoveCategories {
    pub categories: Vec<String>,
}

/// The stored row that a creation request produces: the status defaults
/// to `"UN"` when the client sent none.
pub open spec fn bm_row_from_req(
    b: BookmarkRec,
    req: BmCreateReq,
    user: Seq<char>,
    id: i64,
    now: i64,
) -> bool {
    &&& b.id == id
    &&& b.url == req.url
    &&& b.user_id@ == user
    &&& b.title == req.title
    &&& b.content == req.content
    &&& b.referrer == req.referrer
    &&& match req.status {
        Some(s) => b.status == s,
        None => b.status@ == "UN"@,
    }
    &&& b.created_on == now
    &&& b.updated_on == now
}

/// A category row created on the fly from a bare name: inactive metadata,
/// owned by the user.
pub open spec fn is_cat_stub(row: CatRowI, name: String, user: Seq<char>) -> bool {
    &&& row.name == name
    &&& row.user_id@ == user
    &&& row.display_name == None::<String>
    &&& row.description == None::<String>
    &&& row.about == None::<String>
    &&& row.priority == 0
    &&& row.active == true
    &&& row.public == false
}

/// What a successful creation did: with category names, the named
/// categories were batch-upserted, the bookmark row was written with the
/// next identifier, and the bookmark was idempotently linked to exactly
/// the named categories; with no names, the bookmark was linked to the
/// user's `"default"` category.
pub open spec fn bm_create_ok(
    pre: Store,
    post: Store,
    user: Seq<char>,
    req: BmCreateReq,
    bid: i64,
    now: i64,
) -> bool {
    if req.categories@.len() > 0 {
        exists|rows: Seq<CatRowI>, b: BookmarkRec|
            #![trigger upsert_cats_seq(pre.categories@, pre.next_id as int, rows, now), pre.bookmarks@.push(b)]
            {
                let folded = upsert_cats_seq(pre.categories@, pre.next_id as int, rows, now);
                &&& rows.len() == req.categories@.len()
                &&& (forall|k: int|
                    0 <= k < rows.len() ==> is_cat_stub(#[trigger] rows[k], req.categories@[k], user))
                &&& post.categories@ == folded.0
                &&& bid as int == folded.1
                &&& bm_row_from_req(b, req, user, bid, now)
                &&& post.bookmarks@ == pre.bookmarks@.push(b)
                &&& post.bookmark_cat@ == add_bc_links(
                    pre.bookmark_cat@,
                    bid,
                    cat_ids_for(folded.0, rows),
                )
                &&& post.topics@ == pre.topics@
                &&& post.topic_cat@ == pre.topic_cat@
                &&& post.next_id as int == folded.1 + 1
            }
    } else {
        exists|b: BookmarkRec|
            #![trigger pre.bookmarks@.push(b)]
            {
                &&& pre.has_cat(user, "default"@)
                &&& bid == pre.next_id
                &&& bm_row_from_req(b, req, user, bid, now)
                &&& post.categories@ == pre.categories@
                &&& post.bookmarks@ == pre.bookmarks@.push(b)
                &&& post.bookmark_cat@ == add_bc_links(
                    pre.bookmark_cat@,
                    bid,
                    seq![pre.cat_by_key(user, "default"@).id],
                )
                &&& post.topics@ == pre.topics@
                &&& post.topic_cat@ == pre.topic_cat@
                &&& post.next_id as int == pre.next_id as int + 1
            }
    }
}

/// The whole creation contract: success exactly when the identifier
/// space suffices and, for an untagged request, the user has a
/// `"default"` category; any failure leaves the store untouched.
pub open spec fn bm_create_post(
    pre: Store,
    post: Store,
    user: Seq<char>,
    req: BmCreateReq,
    r: Result<i64, StoreError>,
    now: i64,
) -> bool {
    &&& (r is Ok <==> (pre.next_id + req.categories@.len() + 1 <= i64::MAX && (req.categories@.len()
        > 0 || pre.has_cat(user, "default"@))))
    &&& match r {
        Ok(bid) => bm_create_ok(pre, post, user, req, bid, now),
        Err(e) => post == pre && (if req.categories@.len() == 0 && !pre.has_cat(user, "default"@) {
            e == StoreError::InvalidState
        } else {
            e == StoreError::Unavailable
        }),
    }
}

/// Creates a bookmark at time `now`, resolving or creating each named
/// category and linking them, or linking the user's `"default"` category
/// when no name was given; never leaves a partially tagged bookmark.
pub fn create(store: &mut Store, user_id: &str, req: BmCreateReq, now: i64) -> (r: Result<
    i64,
    StoreError,
>)
    requires
        old(store).wf(),
    ensures
        final(store).wf(),
        bm_create_post(*old(store), *final(store), user_id@, req, r, now),
{
    let ghost pre = *store;
    let n_cats = req.categories.len();
    let mut default_id: i64 = 0;
    if n_cats == 0 {
        match store.get_cat_or_default(user_id, "default") {
            Ok(id) => {
                default_id = id;
            },
            Err(_) => {
                return Err(StoreError::InvalidState);
            },
        }
    }
    if (n_cats as u64) >= ((i64::MAX - store.next_id) as u64) {
        return Err(StoreError::Unavailable);
    }
    let BmCreateReq { title, url, content, referrer, status, categories } = req;
    let brow_status = match status {
        Some(s) => s,
        None => "UN".to_owned(),
    };
    let brow = BookmarkI {
        url,
        user_id: user_id.to_owned(),
        title,
        content,
        referrer,
        status: brow_status,
        created_on: now,
        updated_on: now,
    };
    if n_cats > 0 {
        let mut rows: Vec<CatRowI> = Vec::new();
        let mut k: usize = 0;
        while k < n_cats
            invariant
                0 <= k <= n_cats,
                n_cats == categories@.len(),
                rows@.len() == k,
                forall|w: int|
                    0 <= w < k ==> is_cat_stub(#[trigger] rows@[w], categories@[w], user_id@),
            decreases n_cats - k,
        {
            rows.push(
                CatRowI {
                    name: categories[k].clone(),
                    display_name: None,
                    description: None,
                    about: None,
                    priority: 0,
                    active: true,
                    public: false,
                    user_id: user_id.to_owned(),
                },
            );
            k = k + 1;
        }
        let ids = match store.upsert_categories(&rows, now) {
            Ok(ids) => ids,
            Err(_) => {
                proof {
                    assert(false);
                }
                unreached()
            },
        };
        let ghost ids_home = *store;
        let bid = match store.bookmark_insert(brow) {
            Ok(id) => id,
            Err(_) => {
                proof {
                    assert(false);
                }
                unreached()
            },
        };
        proof {
            // the resolved identifiers stay allocated: the sequence only grew
            assert forall|k: int| 0 <= k < ids@.len() implies store.id_allocated(
                #[trigger] ids@[k],
            ) by {
                assert(ids_home.id_allocated(ids@[k]));
            }
        }
        match store.bm_add_category_links(bid, &ids) {
            Ok(_) => {},
            Err(_) => {
                proof {
                    assert(store.has_bookmark(bid)) by {
                        assert(store.bookmarks@[store.bookmarks@.len() - 1].id == bid);
                    }
                    assert(false);
                }
            },
        }
        proof {
            let folded = upsert_cats_seq(pre.categories@, pre.next_id as int, rows@, now);
            let b = store.bookmarks@.last();
            assert(store.bookmarks@ == pre.bookmarks@.push(b));
            assert(bm_row_from_req(b, req, user_id@, bid, now));
            assert(bm_create_ok(pre, *store, user_id@, req, bid, now));
        }
        Ok(bid)
    } else {
        let bid = match store.bookmark_insert(brow) {
            Ok(id) => id,
            Err(_) => {
                proof {
                    assert(false);
                }
                unreached()
            },
        };
        let ids = vec![default_id];
        proof {
            let ci = pre.cat_index(user_id@, "default"@);
            assert(crate::store::cat_keyed(pre.categories@[ci], user_id@, "default"@));
            assert(1 <= pre.categories@[ci].id < pre.next_id);
            assert(store.id_allocated(default_id));
        }
        match store.bm_add_category_links(bid, &ids) {
            Ok(_) => {},
            Err(_) => {
                proof {
                    assert(store.has_bookmark(bid)) by {
                        assert(store.bookmarks@[store.bookmarks@.len() - 1].id == bid);
                    }
                    assert(false);
                }
            },
        }
        proof {
            let b = store.bookmarks@.last();
            assert(store.bookmarks@ == pre.bookmarks@.push(b));
            assert(bm_row_from_req(b, req, user_id@, bid, now));
            assert(ids@ =~= seq![pre.cat_by_key(user_id@, "default"@).id]);
            assert(bm_create_ok(pre, *store, user_id@, req, bid, now));
        }
        Ok(bid)
    }
}

/// Looks up one bookmark with its aggregated categories; `NotFound` when
/// no row has the identifier.
pub fn get(store: &Store, id: i64) -> (r: Result<BmResponse, StoreError>)
    requires
        store.wf(),
    ensures
        r is Ok <==> store.has_bookmark(id),
        r matches Ok(res) ==> res == bm_res_of(
            crate::rows::bookmark_row_of(store.bookmark_by_id(id), res.categories),
        ) && is_bm_aggregate(*store, id, res.categories@),
        r is Err ==> r == Err::<BmResponse, StoreError>(StoreError::NotFound(EntityKind::Bookmark)),
{
    match store.bookmark_get_by_id(id) {
        Some(row) => Ok(from_db_response(row)),
        None => Err(StoreError::NotFound(EntityKind::Bookmark)),
    }
}

/// The client response carved out of a lookup row: the owner is dropped,
/// everything else is kept.
pub open spec fn bm_res_of(row: BookmarkRow) -> BmResponse {
    BmResponse {
        id: row.id,
        url: row.url,
        title: row.title,
        content: row.content,
        referrer: row.referrer,
        status: row.status,
        created_on: row.created_on,
        updated_on: row.updated_on,
        categories: row.categories,
    }
}

/// Converts a lookup row into the client response shape.
pub fn from_db_response(row: BookmarkRow) -> (r: BmResponse)
    ensures
        r == bm_res_of(row),
{
    BmResponse {
        id: row.id,
        url: row.url,
        title: row.title,
        content: row.content,
        referrer: row.referrer,
        status: row.status,
        created_on: row.created_on,
        updated_on: row.updated_on,
        categories: row.categories,
    }
}

/// Lists a user's bookmarks under the optional category-set and status
/// filters, as client responses.
pub fn list(store: &Store, user_id: &str, categories: &Vec<String>, status: &Option<String>) -> (r:
    Vec<BmResponse>)
    requires
        store.wf(),
    ensures
        exists|rows: Seq<BookmarkRow>|
            #![trigger rows_correspond(*store, rows, selected_bookmarks(*store, store.bookmarks@, user_id@, None, opt_views(Some(categories)), opt_chars(*status)))]
            rows_correspond(
                *store,
                rows,
                selected_bookmarks(
                    *store,
                    store.bookmarks@,
                    user_id@,
                    None,
                    opt_views(Some(categories)),
                    opt_chars(*status),
                ),
            ) && r@.len() == rows.len() && (forall|k: int|
                0 <= k < rows.len() ==> r@[k] == bm_res_of(#[trigger] rows[k])),
{
    let rows = store.filter(user_id, Some(categories), status);
    let ghost rows0 = rows@;
    let mut out: Vec<BmResponse> = Vec::new();
    let mut rows = rows;
    proof {
        assert(rows0.subrange(0, 0) =~= Seq::<BookmarkRow>::empty());
    }
    while rows.len() > 0
        invariant
            out@.len() + rows@.len() == rows0.len(),
            rows@ == rows0.subrange(out@.len() as int, rows0.len() as int),
            forall|k: int| 0 <= k < out@.len() ==> out@[k] == bm_res_of(#[trigger] rows0[k]),
        decreases rows@.len(),
    {
        proof {
            assert(rows@[0] == rows0[out@.len() as int]);
            assert(rows@.remove(0) =~= rows0.subrange(out@.len() as int + 1, rows0.len() as int));
        }
        let row = rows.remove(0);
        out.push(from_db_response(row));
    }
    out
}

/// Deletes a bookmark owned by the user: its row and all of its mapping
/// rows go in one step, so the mapping table never holds a row for a
/// missing bookmark; `NotFound` when no row has the identifier or the
/// row belongs to another user.
pub fn delete(store: &mut Store, user_id: &str, bm_id: i64) -> (r: Result<(), StoreError>)
    requires
        old(store).wf(),
    ensures
        final(store).wf(),
        r is Ok <==> (old(store).has_bookmark(bm_id) && old(store).bookmark_by_id(bm_id).user_id@
            == user_id@),
        r is Ok ==> final(store).bookmarks@ == old(store).bookmarks@.remove(
            old(store).bookmark_index(bm_id),
        ) && final(store).bookmark_cat@ == crate::store::without_bookmark(
            old(store).bookmark_cat@,
            bm_id,
        ) && final(store).categories@ == old(store).categories@ && final(store).topics@ == old(
            store,
        ).topics@ && final(store).topic_cat@ == old(store).topic_cat@ && final(store).next_id
            == old(store).next_id,
        r is Err ==> *final(store) == *old(store) && r == Err::<(), StoreError>(
            StoreError::NotFound(EntityKind::Bookmark),
        ),
{
    let i = match store.find_bookmark(bm_id) {
        Some(i) => i,
        None => {
            return Err(StoreError::NotFound(EntityKind::Bookmark));
        },
    };
    if !crate::order::str_eq(store.bookmarks[i].user_id.as_str(), user_id) {
        return Err(StoreError::NotFound(EntityKind::Bookmark));
    }
    store.bm_delete_maps(bm_id);
    let ghost bms0 = store.bookmarks@;
    store.bookmarks.remove(i);
    proof {
        crate::laws::lemma_delete_cascade(old(store).bookmark_cat@, bm_id);
        let bms1 = store.bookmarks@;
        assert forall|p: int| 0 <= p < bms1.len() implies bms1[p] == bms0[
            if p < i as int {
                p
            } else {
                p + 1
            }
        ] by {}
        assert forall|k: int|
            0 <= k < store.bookmark_cat@.len() implies has_bookmark_in(
            store.bookmarks@,
            (#[trigger] store.bookmark_cat@[k]).bookmark_id,
        ) && 1 <= store.bookmark_cat@[k].category_id < store.next_id by {
            let m = store.bookmark_cat@[k];
            assert(m.bookmark_id != bm_id);
            assert(store.bookmark_cat@.contains(m));
            assert(old(store).bookmark_cat@.contains(m));
            let v = choose|v: int|
                0 <= v < old(store).bookmark_cat@.len() && old(store).bookmark_cat@[v] == m;
            assert(1 <= old(store).bookmark_cat@[v].category_id < old(store).next_id);
            let w = crate::store::bookmark_index_in(bms0, m.bookmark_id);
            assert(has_bookmark_in(bms0, m.bookmark_id));
            assert(bms0[w].id == m.bookmark_id);
            assert(w != i as int);
            if w < i as int {
                assert(bms1[w].id == m.bookmark_id);
            } else {
                assert(bms1[w - 1].id == m.bookmark_id);
            }
        }
    }
    Ok(())
}

/// Adds the named categories to an existing bookmark: the names are
/// batch-upserted, then linked idempotently; `NotFound` when the bookmark
/// does not exist, and any failure leaves the store untouched.
pub fn add_categories(
    store: &mut Store,
    user_id: &str,
    bm_id: i64,
    categories: &Vec<String>,
    now: i64,
) -> (r: Result<(), StoreError>)
    requires
        old(store).wf(),
    ensures
        final(store).wf(),
        r is Ok <==> (old(store).has_bookmark(bm_id) && old(store).next_id + categories@.len()
            <= i64::MAX),
        r is Ok ==> exists|rows: Seq<CatRowI>|
            #![trigger upsert_cats_seq(old(store).categories@, old(store).next_id as int, rows, now)]
            {
                let folded = upsert_cats_seq(
                    old(store).categories@,
                    old(store).next_id as int,
                    rows,
                    now,
                );
                &&& rows.len() == categories@.len()
                &&& (forall|k: int|
                    0 <= k < rows.len() ==> is_cat_stub(#[trigger] rows[k], categories@[k], user_id@))
                &&& final(store).categories@ == folded.0
                &&& final(store).next_id as int == folded.1
                &&& final(store).bookmark_cat@ == add_bc_links(
                    old(store).bookmark_cat@,
                    bm_id,
                    cat_ids_for(folded.0, rows),
                )
                &&& final(store).bookmarks@ == old(store).bookmarks@
                &&& final(store).topics@ == old(store).topics@
                &&& final(store).topic_cat@ == old(store).topic_cat@
            },
        r matches Err(e) ==> *final(store) == *old(store) && (if !old(store).has_bookmark(bm_id) {
            e == StoreError::NotFound(EntityKind::Bookmark)
        } else {
            e == StoreError::Unavailable
        }),
{
    let ghost pre = *store;
    if store.find_bookmark(bm_id).is_none() {
        return Err(StoreError::NotFound(EntityKind::Bookmark));
    }
    if (categories.len() as u64) > ((i64::MAX - store.next_id) as u64) {
        return Err(StoreError::Unavailable);
    }
    let n_cats = categories.len();
    let mut rows: Vec<CatRowI> = Vec::new();
    let mut k: usize = 0;
    while k < n_cats
        invariant
            0 <= k <= n_cats,
            n_cats == categories@.len(),
            rows@.len() == k,
            forall|w: int| 0 <= w < k ==> is_cat_stub(#[trigger] rows@[w], categories@[w], user_id@),
        decreases n_cats - k,
    {
        rows.push(
            CatRowI {
                name: categories[k].clone(),
                display_name: None,
                description: None,
                about: None,
                priority: 0,
                active: true,
                public: false,
                user_id: user_id.to_owned(),
            },
        );
        k = k + 1;
    }
    let ids = match store.upsert_categories(&rows, now) {
        Ok(ids) => ids,
        Err(_) => {
            proof {
                assert(false);
            }
            unreached()
        },
    };
    match store.bm_add_category_links(bm_id, &ids) {
        Ok(_) => {},
        Err(_) => {
            proof {
                assert(false);
            }
        },
    }
    Ok(())
}

/// Removes the named categories from a bookmark, scoped to the owner's
/// categories: other owners' rows and other bookmarks' rows are never
/// touched.
pub fn remove_category(
    store: &mut Store,
    user_id: &str,
    bm_id: i64,
    categories: &Vec<String>,
) -> (r: Result<(), StoreError>)
    requires
        old(store).wf(),
    ensures
        final(store).wf(),
        r is Ok,
        final(store).bookmark_cat@ == crate::store::drop_named_bc_links(
            old(store).bookmark_cat@,
            bm_id,
            old(store).categories@,
            user_id@,
            crate::order::views_of(categories@),
        ),
        final(store).categories@ == old(store).categories@,
        final(store).topics@ == old(store).topics@,
        final(store).bookmarks@ == old(store).bookmarks@,
        final(store).topic_cat@ == old(store).topic_cat@,
        final(store).next_id == old(store).next_id,
{
    store.bm_remove_category_links(user_id, bm_id, categories);
    Ok(())
}

} // verus!
