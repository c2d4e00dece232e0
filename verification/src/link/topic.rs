//! Topic operations: creation, lookup and listing with aggregated
//! categories, metadata editing, deletion, and the upsert-and-link flow
//! for attaching categories by name.

use vstd::prelude::*;

use crate::errors::{EntityKind, StoreError};
use crate::link::bookmark::is_cat_stub;
use crate::listing::{is_topic_aggregate, topic_views_correspond, user_topics};
use crate::protocol::{cat_ids_for, upsert_cats_seq};
use crate::rows::{topic_rec_from, CatRowI, TopicRowI};
use crate::store::{add_tc_links, Store};

verus! {

/// What a client sends to create a topic.
#[derive(Debug)]
pub struct TopicCreateReq {
    pub name: String,
    pub description: Option<String>,
    pub display_name: Option<String>,
    pub priority: Option<i32>,
    pub about: Option<String>,
    pub public: bool,
}

/// A topic as returned to a client, with its aggregated category names.
#[derive(Debug)]
pub struct TopicGetRes {
    pub name: String,
    pub description: Option<String>,
    pub display_name: Option<String>,
    pub priority: i32,
    pub about: Option<String>,
    pub public: bool,
    pub created_on: i64,
    pub updated_on: i64,
    pub categories: Vec<String>,
}

/// A partial metadata edit: fields left out keep their stored values.
#[derive(Debug)]
pub struct TopicUpdateReq {
    pub description: Option<String>,
    pub display_name: Option<String>,
    pub priority: Option<i32>,
    pub about: Option<String>,
    pub public: Option<bool>,
}

/// Creates a topic through the non-upsert path: a duplicate
/// `(name, user_id)` is a conflict.
pub fn create(store: &mut Store, user_id: &str, req: TopicCreateReq, now: i64) -> (r: Result<
    i64,
    StoreError,
>)
    requires
        old(store).wf(),
    ensures
        final(store).wf(),
        r is Ok <==> (!old(store).has_topic(user_id@, req.name@) && old(store).next_id < i64::MAX),
        r matches Ok(id) ==> id == old(store).next_id && (exists|t: TopicRowI|
            #![trigger topic_rec_from(t, id, now)]
            {
                &&& t.name == req.name
                &&& t.user_id@ == user_id@
                &&& t.display_name == req.display_name
                &&& t.description == req.description
                &&& t.about == req.about
                &&& t.priority == (match req.priority {
                    Some(p) => p,
                    None => 0,
                })
                &&& t.active == true
                &&& t.public == false
                &&& final(store).topics@ == old(store).topics@.push(topic_rec_from(t, id, now))
            }) && final(store).next_id == old(store).next_id + 1,
        r matches Err(e) ==> *final(store) == *old(store) && (if old(store).has_topic(
            user_id@,
            req.name@,
        ) {
            e == StoreError::Conflict(EntityKind::Topic)
        } else {
            e == StoreError::Unavailable
        }),
        final(store).categories@ == old(store).categories@,
        final(store).bookmarks@ == old(store).bookmarks@,
        final(store).topic_cat@ == old(store).topic_cat@,
        final(store).bookmark_cat@ == old(store).bookmark_cat@,
{
    let row = TopicRowI {
        name: req.name,
        display_name: req.display_name,
        description: req.description,
        about: req.about,
        priority: match req.priority {
            Some(p) => p,
            None => 0,
        },
        active: true,
        public: false,
        user_id: user_id.to_owned(),
    };
    store.topic_insert(row, now)
}

/// Looks up a topic by name for a user, with its aggregated,
/// alphabetically sorted category names; `NotFound` when it does not
/// exist.
pub fn get(store: &Store, user_id: &str, topic_name: &str) -> (r: Result<TopicGetRes, StoreError>)
    requires
        store.wf(),
    ensures
        r is Ok <==> store.has_topic(user_id@, topic_name@),
        r matches Ok(res) ==> {
            let t = store.topic_by_key(user_id@, topic_name@);
            &&& res.name == t.name
            &&& res.description == t.description
            &&& res.display_name == t.display_name
            &&& res.priority == t.priority
            &&& res.about == t.about
            &&& res.public == t.public
            &&& res.created_on == t.created_on
            &&& res.updated_on == t.updated_on
            &&& is_topic_aggregate(*store, t.id, res.categories@)
        },
        r is Err ==> r == Err::<TopicGetRes, StoreError>(StoreError::NotFound(EntityKind::Topic)),
{
    match store.topic_get_by_name(user_id, topic_name) {
        Some(t) => Ok(
            TopicGetRes {
                name: t.name,
                description: t.description,
                display_name: t.display_name,
                priority: t.priority,
                about: t.about,
                public: t.public,
                created_on: t.created_on,
                updated_on: t.updated_on,
                categories: t.categories,
            },
        ),
        None => Err(StoreError::NotFound(EntityKind::Topic)),
    }
}

/// One listed topic corresponds to one stored row, with the heavy
/// `about` dropped and its categories aggregated.
pub open spec fn topic_res_from_rec(
    res: TopicGetRes,
    t: crate::rows::TopicRec,
    s: Store,
) -> bool {
    &&& res.name == t.name
    &&& res.description == t.description
    &&& res.display_name == t.display_name
    &&& res.priority == t.priority
    &&& res.about == None::<String>
    &&& res.public == t.public
    &&& res.created_on == t.created_on
    &&& res.updated_on == t.updated_on
    &&& is_topic_aggregate(s, t.id, res.categories@)
}

/// Lists the user's topics, each with its aggregated category names; the
/// heavy `about` field is omitted from listings.
pub fn list(store: &Store, user_id: &str) -> (r: Vec<TopicGetRes>)
    requires
        store.wf(),
    ensures
        ({
            let sel = user_topics(store.topics@, user_id@);
            &&& r@.len() == sel.len()
            &&& forall|k: int|
                0 <= k < sel.len() ==> topic_res_from_rec(#[trigger] r@[k], sel[k], *store)
        }),
{
    let base = store.topic_list_all(user_id);
    let ghost base0 = base@;
    let ghost sel = user_topics(store.topics@, user_id@);
    let mut base = base;
    let mut out: Vec<TopicGetRes> = Vec::new();
    proof {
        assert(base0.subrange(0, 0) =~= Seq::<crate::rows::TopicRowView>::empty());
    }
    while base.len() > 0
        invariant
            store.wf(),
            topic_views_correspond(*store, base0, sel),
            out@.len() + base@.len() == base0.len(),
            base@ == base0.subrange(out@.len() as int, base0.len() as int),
            forall|k: int|
                0 <= k < out@.len() ==> topic_res_from_rec(#[trigger] out@[k], sel[k], *store),
        decreases base@.len(),
    {
        proof {
            assert(base@[0] == base0[out@.len() as int]);
            assert(base@.remove(0) =~= base0.subrange(out@.len() as int + 1, base0.len() as int));
        }
        let v = base.remove(0);
        out.push(
            TopicGetRes {
                name: v.name,
                description: v.description,
                display_name: v.display_name,
                priority: v.priority,
                about: None,
                public: v.public,
                created_on: v.created_on,
                updated_on: v.updated_on,
                categories: v.categories,
            },
        );
    }
    out
}

/// Edits a topic's metadata in place, keyed by `(name, user_id)`: fields
/// present in the request overwrite the stored ones, absent fields are
/// kept; `NotFound` when no row matched.
pub fn update(store: &mut Store, user_id: &str, topic_name: &str, req: TopicUpdateReq, now: i64) -> (r: Result<(), StoreError>)
    requires
        old(store).wf(),
    ensures
        final(store).wf(),
        r is Ok <==> old(store).has_topic(user_id@, topic_name@),
        r is Ok ==> ({
            let i = old(store).topic_index(user_id@, topic_name@);
            let t = old(store).topics@[i];
            final(store).topics@ == old(store).topics@.update(
                i,
                crate::rows::TopicRec {
                    id: t.id,
                    name: t.name,
                    display_name: (match req.display_name {
                        Some(d) => Some(d),
                        None => t.display_name,
                    }),
                    description: (match req.description {
                        Some(d) => Some(d),
                        None => t.description,
                    }),
                    about: (match req.about {
                        Some(a) => Some(a),
                        None => t.about,
                    }),
                    priority: (match req.priority {
                        Some(p) => p,
                        None => t.priority,
                    }),
                    active: t.active,
                    public: (match req.public {
                        Some(p) => p,
                        None => t.public,
                    }),
                    user_id: t.user_id,
                    created_on: t.created_on,
                    updated_on: now,
                },
            )
        }),
        r is Err ==> *final(store) == *old(store) && r == Err::<(), StoreError>(
            StoreError::NotFound(EntityKind::Topic),
        ),
        final(store).categories@ == old(store).categories@,
        final(store).bookmarks@ == old(store).bookmarks@,
        final(store).topic_cat@ == old(store).topic_cat@,
        final(store).bookmark_cat@ == old(store).bookmark_cat@,
        final(store).next_id == old(store).next_id,
{
    let i = match store.find_topic(user_id, topic_name) {
        Some(i) => i,
        None => {
            return Err(StoreError::NotFound(EntityKind::Topic));
        },
    };
    let ghost ts0 = store.topics@;
    let t = store.topics[i].duplicate();
    let new_row = crate::rows::TopicRec {
        id: t.id,
        name: t.name,
        display_name: match req.display_name {
            Some(d) => Some(d),
            None => t.display_name,
        },
        description: match req.description {
            Some(d) => Some(d),
            None => t.description,
        },
        about: match req.about {
            Some(a) => Some(a),
            None => t.about,
        },
        priority: match req.priority {
            Some(p) => p,
            None => t.priority,
        },
        active: t.active,
        public: match req.public {
            Some(p) => p,
            None => t.public,
        },
        user_id: t.user_id,
        created_on: t.created_on,
        updated_on: now,
    };
    store.topics.set(i, new_row);
    proof {
        let ts1 = store.topics@;
        assert forall|p: int, q: int| 0 <= p < q < ts1.len() implies (#[trigger] ts1[p]).id != (
        #[trigger] ts1[q]).id by {
            assert(ts1[p].id == ts0[p].id);
            assert(ts1[q].id == ts0[q].id);
        }
        assert forall|p: int, q: int| 0 <= p < q < ts1.len() implies !((#[trigger] ts1[p]).user_id@
            == (#[trigger] ts1[q]).user_id@ && ts1[p].name@ == ts1[q].name@) by {
            assert(ts1[p].user_id@ == ts0[p].user_id@ && ts1[p].name@ == ts0[p].name@);
            assert(ts1[q].user_id@ == ts0[q].user_id@ && ts1[q].name@ == ts0[q].name@);
        }
        assert forall|p: int| 0 <= p < ts1.len() implies 1 <= (#[trigger] ts1[p]).id
            < store.next_id by {
            assert(ts1[p].id == ts0[p].id);
        }
    }
    Ok(())
}

/// Deletes a topic by name for a user; `NotFound` if no row matched.
pub fn delete(store: &mut Store, user_id: &str, topic_name: &str) -> (r: Result<(), StoreError>)
    requires
        old(store).wf(),
    ensures
        final(store).wf(),
        r is Ok <==> old(store).has_topic(user_id@, topic_name@),
        r is Ok ==> final(store).topics@ == old(store).topics@.remove(
            old(store).topic_index(user_id@, topic_name@),
        ),
        r is Err ==> *final(store) == *old(store) && r == Err::<(), StoreError>(
            StoreError::NotFound(EntityKind::Topic),
        ),
        final(store).categories@ == old(store).categories@,
        final(store).bookmarks@ == old(store).bookmarks@,
        final(store).topic_cat@ == old(store).topic_cat@,
        final(store).bookmark_cat@ == old(store).bookmark_cat@,
        final(store).next_id == old(store).next_id,
{
    match store.topic_delete(user_id, topic_name) {
        Ok(_) => Ok(()),
        Err(e) => Err(e),
    }
}

/// Attaches categories to a topic by name: the names are batch-upserted
/// for the user, then linked to the topic idempotently; `NotFound` when
/// the topic does not exist, and any failure leaves the store untouched.
pub fn add_category(
    store: &mut Store,
    user_id: &str,
    topic_name: &str,
    categories: &Vec<String>,
    now: i64,
) -> (r: Result<(), StoreError>)
    requires
        old(store).wf(),
    ensures
        final(store).wf(),
        r is Ok <==> (old(store).has_topic(user_id@, topic_name@) && old(store).next_id
            + categories@.len() <= i64::MAX),
        r is Ok ==> exists|rows: Seq<CatRowI>|
            #![trigger upsert_cats_seq(old(store).categories@, old(store).next_id as int, rows, now)]
            {
                let folded = upsert_cats_seq(
                    old(store).categories@,
                    old(store).next_id as int,
                    rows,
                    now,
                );
                &&& rows.len() == categories@.len()
                &&& (forall|k: int|
                    0 <= k < rows.len() ==> is_cat_stub(#[trigger] rows[k], categories@[k], user_id@))
                &&& final(store).categories@ == folded.0
                &&& final(store).next_id as int == folded.1
                &&& final(store).topic_cat@ == add_tc_links(
                    old(store).topic_cat@,
                    old(store).topic_by_key(user_id@, topic_name@).id,
                    cat_ids_for(folded.0, rows),
                )
                &&& final(store).topics@ == old(store).topics@
                &&& final(store).bookmarks@ == old(store).bookmarks@
                &&& final(store).bookmark_cat@ == old(store).bookmark_cat@
            },
        r matches Err(e) ==> *final(store) == *old(store) && (if !old(store).has_topic(
            user_id@,
            topic_name@,
        ) {
            e == StoreError::NotFound(EntityKind::Topic)
        } else {
            e == StoreError::Unavailable
        }),
{
    let topic_id = match store.topic_get_id_by_name(user_id, topic_name) {
        Some(id) => id,
        None => {
            return Err(StoreError::NotFound(EntityKind::Topic));
        },
    };
    if (categories.len() as u64) > ((i64::MAX - store.next_id) as u64) {
        return Err(StoreError::Unavailable);
    }
    let n_cats = categories.len();
    let mut rows: Vec<CatRowI> = Vec::new();
    let mut k: usize = 0;
    while k < n_cats
        invariant
            0 <= k <= n_cats,
            n_cats == categories@.len(),
            rows@.len() == k,
            forall|w: int| 0 <= w < k ==> is_cat_stub(#[trigger] rows@[w], categories@[w], user_id@),
        decreases n_cats - k,
    {
        rows.push(
            CatRowI {
                name: categories[k].clone(),
                display_name: None,
                description: None,
                about: None,
                priority: 0,
                active: true,
                public: false,
                user_id: user_id.to_owned(),
            },
        );
        k = k + 1;
    }
    let ids = match store.upsert_categories(&rows, now) {
        Ok(ids) => ids,
        Err(_) => {
            proof {
                assert(false);
            }
            unreached()
        },
    };
    proof {
        crate::protocol::lemma_resolved_ids_allocated(*store, rows@, ids@);
        let ti = store.topic_index(user_id@, topic_name@);
        assert(crate::store::topic_keyed(store.topics@[ti], user_id@, topic_name@));
        assert(1 <= store.topics@[ti].id < store.next_id);
    }
    match store.topic_add_category_links(topic_id, &ids) {
        Ok(_) => {},
        Err(_) => {
            proof {
                assert(false);
            }
        },
    }
    Ok(())
}

/// Detaches the named categories from a topic, scoped to the owner's
/// categories; `NotFound` when the topic does not exist.
pub fn remove_category(
    store: &mut Store,
    user_id: &str,
    topic_name: &str,
    cat_names: &Vec<String>,
) -> (r: Result<(), StoreError>)
    requires
        old(store).wf(),
    ensures
        final(store).wf(),
        r is Ok <==> old(store).has_topic(user_id@, topic_name@),
        r is Ok ==> final(store).topic_cat@ == crate::store::drop_named_tc_links(
            old(store).topic_cat@,
            old(store).topic_by_key(user_id@, topic_name@).id,
            old(store).categories@,
            user_id@,
            crate::order::views_of(cat_names@),
        ),
        r is Err ==> *final(store) == *old(store) && r == Err::<(), StoreError>(
            StoreError::NotFound(EntityKind::Topic),
        ),
        final(store).categories@ == old(store).categories@,
        final(store).topics@ == old(store).topics@,
        final(store).bookmarks@ == old(store).bookmarks@,
        final(store).bookmark_cat@ == old(store).bookmark_cat@,
        final(store).next_id == old(store).next_id,
{
    let topic_id = match store.topic_get_id_by_name(user_id, topic_name) {
        Some(id) => id,
        None => {
            return Err(StoreError::NotFound(EntityKind::Topic));
        },
    };
    store.topic_remove_category_links(user_id, topic_id, cat_names);
    Ok(())
}

} // verus!
