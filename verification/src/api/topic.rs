//! Explicit topic edits: the single-row upsert that overwrites the
//! description on conflict, and the create flow that upserts the topic,
//! upserts its named categories, and links them.

use vstd::prelude::*;

use crate::api::category::{cats_meta_upserted, Category};
use crate::errors::StoreError;
use crate::rows::TopicRec;
use crate::store::{add_tc_links, Store};

verus! {

/// What a client sends to create a topic with its category names.
#[derive(Debug)]
pub struct CreateRequest {
    pub name: String,
    pub description: Option<String>,
    pub categories: Vec<String>,
}

/// The shape the create flow works on.
#[derive(Debug)]
pub struct TopicCreate {
    pub name: String,
    pub description: Option<String>,
    pub categories: Vec<String>,
}

impl TopicCreate {
    /// A topic known only by name.
    pub fn new(name: &str) -> (r: TopicCreate)
        ensures
            r.name@ == name@,
            r.description == None::<String>,
            r.categories@ =~= Seq::<String>::empty(),
    {
        TopicCreate { name: name.to_owned(), description: None, categories: Vec::new() }
    }

    /// Adopts a creation request.
    pub fn from_req(req: CreateRequest) -> (r: TopicCreate)
        ensures
            r.name == req.name,
            r.description == req.description,
            r.categories == req.categories,
    {
        TopicCreate { name: req.name, description: req.description, categories: req.categories }
    }
}

/// A successful metadata-edit upsert for one topic: on a
/// `(name, user_id)` conflict the description and update time are
/// overwritten, keeping the identifier; otherwise a new row is appended.
pub open spec fn topic_meta_upserted(
    pre: Store,
    post: Store,
    user: Seq<char>,
    req: TopicCreate,
    tid: i64,
    now: i64,
) -> bool {
    exists|us: String|
        #![trigger us@]
        {
            &&& us@ == user
            &&& (if pre.has_topic(user, req.name@) {
                let i = pre.topic_index(user, req.name@);
                let t = pre.topics@[i];
                post.topics@ == pre.topics@.update(
                    i,
                    TopicRec { description: req.description, updated_on: now, ..t },
                ) && tid == t.id && post.next_id == pre.next_id
            } else {
                post.topics@ == pre.topics@.push(
                    TopicRec {
                        id: tid,
                        name: req.name,
                        display_name: None,
                        description: req.description,
                        about: None,
                        priority: 0,
                        active: true,
                        public: false,
                        user_id: us,
                        created_on: now,
                        updated_on: now,
                    },
                ) && tid == pre.next_id && post.next_id as int == pre.next_id as int + 1
            })
            &&& post.categories@ == pre.categories@
            &&& post.bookmarks@ == pre.bookmarks@
            &&& post.topic_cat@ == pre.topic_cat@
            &&& post.bookmark_cat@ == pre.bookmark_cat@
        }
}

/// Upserts one topic's metadata for a user: an explicit edit, so a
/// conflicting row's description is overwritten, never silently kept.
pub fn upsert_topic(store: &mut Store, user_id: &str, req: &TopicCreate, now: i64) -> (r: Result<
    i64,
    StoreError,
>)
    requires
        old(store).wf(),
    ensures
        final(store).wf(),
        r is Ok <==> (old(store).has_topic(user_id@, req.name@) || old(store).next_id < i64::MAX),
        r matches Ok(tid) ==> topic_meta_upserted(
            *old(store),
            *final(store),
            user_id@,
            *req,
            tid,
            now,
        ),
        r matches Ok(tid) ==> final(store).id_allocated(tid) && old(store).next_id <= final(store).next_id,
        r is Err ==> *final(store) == *old(store) && r == Err::<i64, StoreError>(
            StoreError::Unavailable,
        ),
{
    let ghost pre = *store;
    match store.find_topic(user_id, req.name.as_str()) {
        Some(i) => {
            let ghost ts0 = store.topics@;
            let t = store.topics[i].duplicate();
            let tid = t.id;
            let new_row = TopicRec {
                id: t.id,
                name: t.name,
                display_name: t.display_name,
                description: crate::rows::dup_opt(&req.description),
                about: t.about,
                priority: t.priority,
                active: t.active,
                public: t.public,
                user_id: t.user_id,
                created_on: t.created_on,
                updated_on: now,
            };
            store.topics.set(i, new_row);
            proof {
                let ts1 = store.topics@;
                assert forall|p: int, q: int| 0 <= p < q < ts1.len() implies (
                #[trigger] ts1[p]).id != (#[trigger] ts1[q]).id by {
                    assert(ts1[p].id == ts0[p].id);
                    assert(ts1[q].id == ts0[q].id);
                }
                assert forall|p: int, q: int| 0 <= p < q < ts1.len() implies !((
                #[trigger] ts1[p]).user_id@ == (#[trigger] ts1[q]).user_id@ && ts1[p].name@
                    == ts1[q].name@) by {
                    assert(ts1[p].user_id@ == ts0[p].user_id@ && ts1[p].name@ == ts0[p].name@);
                    assert(ts1[q].user_id@ == ts0[q].user_id@ && ts1[q].name@ == ts0[q].name@);
                }
                assert forall|p: int| 0 <= p < ts1.len() implies 1 <= (#[trigger] ts1[p]).id
                    < store.next_id by {
                    assert(ts1[p].id == ts0[p].id);
                }
                let us = t.user_id;
                assert(us@ == user_id@);
                assert(store.topics@ =~= pre.topics@.update(
                    pre.topic_index(user_id@, req.name@),
                    TopicRec {
                        description: req.description,
                        updated_on: now,
                        ..pre.topics@[pre.topic_index(user_id@, req.name@)]
                    },
                ));
                assert(topic_meta_upserted(pre, *store, user_id@, *req, tid, now));
                assert(1 <= ts0[i as int].id < store.next_id);
            }
            Ok(tid)
        },
        None => {
            if store.next_id == i64::MAX {
                return Err(StoreError::Unavailable);
            }
            let ghost ts0 = store.topics@;
            let tid = store.next_id;
            store.next_id = store.next_id + 1;
            let us = user_id.to_owned();
            let ghost us0 = us;
            let new_row = TopicRec {
                id: tid,
                name: req.name.clone(),
                display_name: None,
                description: crate::rows::dup_opt(&req.description),
                about: None,
                priority: 0,
                active: true,
                public: false,
                user_id: us,
                created_on: now,
                updated_on: now,
            };
            store.topics.push(new_row);
            proof {
                let ts1 = store.topics@;
                assert forall|p: int, q: int| 0 <= p < q < ts1.len() implies !((
                #[trigger] ts1[p]).user_id@ == (#[trigger] ts1[q]).user_id@ && ts1[p].name@
                    == ts1[q].name@) by {
                    if q == ts1.len() - 1 {
                        assert(!crate::store::topic_keyed(ts0[p], user_id@, req.name@));
                        assert(ts1[q].user_id@ == user_id@ && ts1[q].name@ == req.name@);
                    }
                }
                assert(topic_meta_upserted(pre, *store, user_id@, *req, tid, now));
            }
            Ok(tid)
        },
    }
}

/// Creates or updates a topic and its named categories in one flow: the
/// topic is upserted, each named category is upserted, and the topic is
/// idempotently linked to all of them; every failure is detected before
/// the first write.
pub fn create(store: &mut Store, user_id: &str, req: TopicCreate, now: i64) -> (r: Result<
    i64,
    StoreError,
>)
    requires
        old(store).wf(),
    ensures
        final(store).wf(),
        r is Ok <==> old(store).next_id + req.categories@.len() + 1 <= i64::MAX,
        r matches Ok(tid) ==> exists|mid1: Store, mid2: Store, cat_rows: Seq<Category>, ids: Seq<i64>|
            #![trigger topic_meta_upserted(*old(store), mid1, user_id@, req, tid, now), cats_meta_upserted(mid1, mid2, user_id@, cat_rows, ids, now)]
            {
                &&& topic_meta_upserted(*old(store), mid1, user_id@, req, tid, now)
                &&& cat_rows.len() == req.categories@.len()
                &&& (forall|k: int|
                    0 <= k < cat_rows.len() ==> (#[trigger] cat_rows[k]).name
                        == req.categories@[k] && cat_rows[k].title == None::<String>
                        && cat_rows[k].about == None::<String>)
                &&& cats_meta_upserted(mid1, mid2, user_id@, cat_rows, ids, now)
                &&& final(store).topic_cat@ == add_tc_links(mid2.topic_cat@, tid, ids)
                &&& final(store).categories@ == mid2.categories@
                &&& final(store).topics@ == mid2.topics@
                &&& final(store).bookmarks@ == mid2.bookmarks@
                &&& final(store).bookmark_cat@ == mid2.bookmark_cat@
                &&& final(store).next_id == mid2.next_id
            },
        r is Err ==> *final(store) == *old(store) && r == Err::<i64, StoreError>(
            StoreError::Unavailable,
        ),
{
    let n_cats = req.categories.len();
    if (n_cats as u64) >= ((i64::MAX - store.next_id) as u64) {
        return Err(StoreError::Unavailable);
    }
    let tid = match upsert_topic(store, user_id, &req, now) {
        Ok(tid) => tid,
        Err(_) => {
            proof {
                assert(false);
            }
            unreached()
        },
    };
    let ghost mid1 = *store;
    let mut cat_vec: Vec<Category> = Vec::new();
    let mut k: usize = 0;
    while k < n_cats
        invariant
            0 <= k <= n_cats,
            n_cats == req.categories@.len(),
            cat_vec@.len() == k,
            forall|w: int|
                0 <= w < k ==> (#[trigger] cat_vec@[w]).name == req.categories@[w]
                    && cat_vec@[w].title == None::<String> && cat_vec@[w].about == None::<String>,
        decreases n_cats - k,
    {
        cat_vec.push(Category { name: req.categories[k].clone(), title: None, about: None });
        k = k + 1;
    }
    let ids = match crate::api::category::upsert_categories(store, user_id, &cat_vec, now) {
        Ok(ids) => ids,
        Err(_) => {
            proof {
                assert(false);
            }
            unreached()
        },
    };
    let ghost mid2 = *store;
    proof {
        // the topic's identifier and every category identifier were
        // handed out by the sequence, which only grew since
        assert(mid1.id_allocated(tid));
        assert(store.id_allocated(tid));
        assert forall|k: int| 0 <= k < ids@.len() implies store.id_allocated(
            #[trigger] ids@[k],
        ) by {
            assert(mid2.id_allocated(ids@[k]));
        }
    }
    match store.topic_add_category_links(tid, &ids) {
        Ok(_) => {},
        Err(_) => {
            proof {
                assert(false);
            }
        },
    }
    proof {
        assert(topic_meta_upserted(*old(store), mid1, user_id@, req, tid, now));
        assert(cats_meta_upserted(mid1, mid2, user_id@, cat_vec@, ids@, now));
    }
    Ok(tid)
}

} // verus!
