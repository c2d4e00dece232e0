//! Category operations: explicit creation and metadata editing, lookup
//! and listing with the owning topics aggregated, and linking categories
//! to topics singly or in bulk.

use vstd::prelude::*;

use crate::errors::{EntityKind, StoreError};
use crate::listing::{cat_topic_name, topic_scoped_cat_views, user_cat_views};
use crate::order::{strictly_sorted, views_of};
use crate::rows::{cat_row_from, CatRowI, CategoryRowView, TopicCatRow};
use crate::store::Store;

verus! {

/// What a client sends to create or edit a category.
#[derive(Debug)]
pub struct CatCreateReq {
    pub name: String,
    pub display_name: Option<String>,
    pub about: Option<String>,
    pub description: Option<String>,
    pub public: bool,
    pub priority: i32,
}

/// A category as returned to a client, with the names of the user's
/// topics it belongs to.
#[derive(Debug)]
pub struct CatGetRes {
    pub name: String,
    pub display_name: Option<String>,
    pub about: Option<String>,
    pub description: Option<String>,
    pub public: bool,
    pub priority: i32,
    pub created_on: i64,
    pub updated_on: i64,
    pub topics: Vec<String>,
}

/// Topic names in a listing query.
#[derive(Debug)]
pub struct CatApiQuery {
    pub topic: Vec<String>,
}

/// Builds the insert row for a category known only by name: bare
/// metadata, owned by the user.
pub fn from_cat_name(name: &str, user_id: &str) -> (r: CatRowI)
    ensures
        r.name@ == name@,
        r.user_id@ == user_id@,
        r.display_name == None::<String>,
        r.description == None::<String>,
        r.about == None::<String>,
        r.priority == 0,
        r.active == true,
        r.public == false,
{
    CatRowI {
        name: name.to_owned(),
        display_name: None,
        description: None,
        about: None,
        priority: 0,
        active: true,
        public: false,
        user_id: user_id.to_owned(),
    }
}

/// Builds the insert row for an explicit creation request.
pub fn from_req(req: CatCreateReq, user_id: &str) -> (r: CatRowI)
    ensures
        r.name == req.name,
        r.user_id@ == user_id@,
        r.display_name == req.display_name,
        r.description == req.description,
        r.about == req.about,
        r.priority == 0,
        r.active == true,
        r.public == req.public,
{
    CatRowI {
        name: req.name,
        display_name: req.display_name,
        description: req.description,
        about: req.about,
        priority: 0,
        active: true,
        public: req.public,
        user_id: user_id.to_owned(),
    }
}

/// Creates a category through the non-upsert path: a duplicate
/// `(name, user_id)` is a conflict.
pub fn create(store: &mut Store, user_id: &str, req: CatCreateReq, now: i64) -> (r: Result<
    i64,
    StoreError,
>)
    requires
        old(store).wf(),
    ensures
        final(store).wf(),
        r is Ok <==> (!old(store).has_cat(user_id@, req.name@) && old(store).next_id < i64::MAX),
        r matches Ok(id) ==> id == old(store).next_id && (exists|c: CatRowI|
            #![trigger cat_row_from(c, id, now)]
            {
                &&& c.name == req.name
                &&& c.user_id@ == user_id@
                &&& c.display_name == req.display_name
                &&& c.description == req.description
                &&& c.about == req.about
                &&& c.priority == 0
                &&& c.active == true
                &&& c.public == req.public
                &&& final(store).categories@ == old(store).categories@.push(cat_row_from(c, id, now))
            }) && final(store).next_id == old(store).next_id + 1,
        r matches Err(e) ==> *final(store) == *old(store) && (if old(store).has_cat(
            user_id@,
            req.name@,
        ) {
            e == StoreError::Conflict(EntityKind::Category)
        } else {
            e == StoreError::Unavailable
        }),
        final(store).topics@ == old(store).topics@,
        final(store).bookmarks@ == old(store).bookmarks@,
        final(store).topic_cat@ == old(store).topic_cat@,
        final(store).bookmark_cat@ == old(store).bookmark_cat@,
{
    let row = from_req(req, user_id);
    store.cat_insert(row, now)
}

/// Looks up a category by name for a user, with the alphabetically
/// sorted names of the user's topics it belongs to; `NotFound` when it
/// does not exist.
pub fn get(store: &Store, user_id: &str, cat_name: &str) -> (r: Result<CatGetRes, StoreError>)
    requires
        store.wf(),
    ensures
        r is Ok <==> store.has_cat(user_id@, cat_name@),
        r matches Ok(res) ==> {
            let c = store.cat_by_key(user_id@, cat_name@);
            &&& res.name == c.name
            &&& res.display_name == c.display_name
            &&& res.about == c.about
            &&& res.description == c.description
            &&& res.public == c.public
            &&& res.priority == c.priority
            &&& res.created_on == c.created_on
            &&& res.updated_on == c.updated_on
            &&& strictly_sorted(views_of(res.topics@))
            &&& forall|n: Seq<char>|
                views_of(res.topics@).contains(n) <==> cat_topic_name(
                    store.topics@,
                    store.topic_cat@,
                    user_id@,
                    c.id,
                    n,
                )
        },
        r is Err ==> r == Err::<CatGetRes, StoreError>(StoreError::NotFound(EntityKind::Category)),
{
    match store.find_cat(user_id, cat_name) {
        Some(i) => {
            let c = store.categories[i].duplicate();
            let topics = store.category_topics(user_id, c.id);
            Ok(
                CatGetRes {
                    name: c.name,
                    display_name: c.display_name,
                    about: c.about,
                    description: c.description,
                    public: c.public,
                    priority: c.priority,
                    created_on: c.created_on,
                    updated_on: c.updated_on,
                    topics,
                },
            )
        },
        None => Err(StoreError::NotFound(EntityKind::Category)),
    }
}

/// One listing row corresponds to one projected category row: same
/// fields, the heavy `about` dropped, and the user's owning topics
/// aggregated alphabetically.
pub open spec fn cat_res_from_view(res: CatGetRes, v: CategoryRowView, s: Store, user: Seq<char>) -> bool {
    &&& res.name == v.name
    &&& res.display_name == v.display_name
    &&& res.about == None::<String>
    &&& res.description == v.description
    &&& res.public == v.public
    &&& res.priority == v.priority
    &&& res.created_on == v.created_on
    &&& res.updated_on == v.updated_on
    &&& strictly_sorted(views_of(res.topics@))
    &&& forall|n: Seq<char>|
        views_of(res.topics@).contains(n) <==> cat_topic_name(s.topics@, s.topic_cat@, user, v.id, n)
}

/// Lists the user's categories, all of them or only those under the
/// named topics, each with its owning topics aggregated.
pub fn list(store: &Store, user_id: &str, topics: &Vec<String>) -> (r: Vec<CatGetRes>)
    requires
        store.wf(),
    ensures
        ({
            let sel = if topics@.len() == 0 {
                user_cat_views(store.categories@, user_id@)
            } else {
                topic_scoped_cat_views(
                    store.categories@,
                    store.topics@,
                    store.topic_cat@,
                    user_id@,
                    views_of(topics@),
                )
            };
            &&& r@.len() == sel.len()
            &&& forall|k: int|
                0 <= k < sel.len() ==> cat_res_from_view(#[trigger] r@[k], sel[k], *store, user_id@)
        }),
{
    let base = if topics.len() == 0 {
        store.cat_list_all(user_id)
    } else {
        store.cat_list_by_topic_name(user_id, topics)
    };
    let ghost base0 = base@;
    let mut base = base;
    let mut out: Vec<CatGetRes> = Vec::new();
    proof {
        assert(base0.subrange(0, 0) =~= Seq::<CategoryRowView>::empty());
    }
    while base.len() > 0
        invariant
            store.wf(),
            out@.len() + base@.len() == base0.len(),
            base@ == base0.subrange(out@.len() as int, base0.len() as int),
            forall|k: int|
                0 <= k < out@.len() ==> cat_res_from_view(
                    #[trigger] out@[k],
                    base0[k],
                    *store,
                    user_id@,
                ),
        decreases base@.len(),
    {
        proof {
            assert(base@[0] == base0[out@.len() as int]);
            assert(base@.remove(0) =~= base0.subrange(out@.len() as int + 1, base0.len() as int));
        }
        let v = base.remove(0);
        let tns = store.category_topics(user_id, v.id);
        out.push(
            CatGetRes {
                name: v.name,
                display_name: v.display_name,
                about: None,
                description: v.description,
                public: v.public,
                priority: v.priority,
                created_on: v.created_on,
                updated_on: v.updated_on,
                topics: tns,
            },
        );
    }
    out
}

/// Edits a category's metadata in place, keyed by `(name, user_id)`: the
/// name, identifier and creation time are preserved, everything else is
/// taken from the request; `NotFound` when no row matched.
pub fn update(store: &mut Store, user_id: &str, cat_name: &str, req: CatCreateReq, now: i64) -> (r:
    Result<(), StoreError>)
    requires
        old(store).wf(),
    ensures
        final(store).wf(),
        r is Ok <==> old(store).has_cat(user_id@, cat_name@),
        r is Ok ==> ({
            let i = old(store).cat_index(user_id@, cat_name@);
            let c = old(store).categories@[i];
            final(store).categories@ == old(store).categories@.update(
                i,
                crate::rows::CatRow {
                    id: c.id,
                    name: c.name,
                    display_name: req.display_name,
                    description: req.description,
                    about: req.about,
                    priority: req.priority,
                    active: c.active,
                    public: req.public,
                    user_id: c.user_id,
                    created_on: c.created_on,
                    updated_on: now,
                },
            )
        }),
        r is Err ==> *final(store) == *old(store) && r == Err::<(), StoreError>(
            StoreError::NotFound(EntityKind::Category),
        ),
        final(store).topics@ == old(store).topics@,
        final(store).bookmarks@ == old(store).bookmarks@,
        final(store).topic_cat@ == old(store).topic_cat@,
        final(store).bookmark_cat@ == old(store).bookmark_cat@,
        final(store).next_id == old(store).next_id,
{
    let i = match store.find_cat(user_id, cat_name) {
        Some(i) => i,
        None => {
            return Err(StoreError::NotFound(EntityKind::Category));
        },
    };
    let ghost cats0 = store.categories@;
    let old_row = store.categories[i].duplicate();
    let new_row = crate::rows::CatRow {
        id: old_row.id,
        name: old_row.name,
        display_name: req.display_name,
        description: req.description,
        about: req.about,
        priority: req.priority,
        active: old_row.active,
        public: req.public,
        user_id: old_row.user_id,
        created_on: old_row.created_on,
        updated_on: now,
    };
    store.categories.set(i, new_row);
    proof {
        let cats1 = store.categories@;
        assert forall|p: int, q: int| 0 <= p < q < cats1.len() implies (#[trigger] cats1[p]).id != (
        #[trigger] cats1[q]).id by {
            assert(cats1[p].id == cats0[p].id);
            assert(cats1[q].id == cats0[q].id);
        }
        assert forall|p: int, q: int| 0 <= p < q < cats1.len() implies !((#[trigger] cats1[p]).user_id@
            == (#[trigger] cats1[q]).user_id@ && cats1[p].name@ == cats1[q].name@) by {
            assert(cats1[p].user_id@ == cats0[p].user_id@ && cats1[p].name@ == cats0[p].name@);
            assert(cats1[q].user_id@ == cats0[q].user_id@ && cats1[q].name@ == cats0[q].name@);
        }
        assert forall|p: int| 0 <= p < cats1.len() implies 1 <= (#[trigger] cats1[p]).id
            < store.next_id by {
            assert(cats1[p].id == cats0[p].id);
        }
    }
    Ok(())
}

/// Deletes a category by name for a user; `NotFound` if no row matched.
pub fn delete(store: &mut Store, user_id: &str, cat_name: &str) -> (r: Result<(), StoreError>)
    requires
        old(store).wf(),
    ensures
        final(store).wf(),
        r is Ok <==> old(store).has_cat(user_id@, cat_name@),
        r is Ok ==> final(store).categories@ == old(store).categories@.remove(
            old(store).cat_index(user_id@, cat_name@),
        ),
        r is Err ==> *final(store) == *old(store) && r == Err::<(), StoreError>(
            StoreError::NotFound(EntityKind::Category),
        ),
        final(store).topics@ == old(store).topics@,
        final(store).bookmarks@ == old(store).bookmarks@,
        final(store).topic_cat@ == old(store).topic_cat@,
        final(store).bookmark_cat@ == old(store).bookmark_cat@,
        final(store).next_id == old(store).next_id,
{
    match store.cat_delete(user_id, cat_name) {
        Ok(_) => Ok(()),
        Err(e) => Err(e),
    }
}

/// Links a category to a topic, both named, idempotently: linking an
/// already-linked pair succeeds and changes nothing, so the pair is
/// present exactly once afterwards; `NotFound` when either name does not
/// resolve for the user.
pub fn add_topic(store: &mut Store, user_id: &str, cat_name: &str, topic_name: &str) -> (r: Result<
    (),
    StoreError,
>)
    requires
        old(store).wf(),
    ensures
        final(store).wf(),
        r is Ok <==> (old(store).has_topic(user_id@, topic_name@) && old(store).has_cat(
            user_id@,
            cat_name@,
        )),
        r is Ok ==> final(store).topic_cat@ == ({
            let pair = TopicCatRow {
                topic_id: old(store).topic_by_key(user_id@, topic_name@).id,
                category_id: old(store).cat_by_key(user_id@, cat_name@).id,
            };
            if old(store).topic_cat@.contains(pair) {
                old(store).topic_cat@
            } else {
                old(store).topic_cat@.push(pair)
            }
        }),
        r is Ok ==> final(store).has_topic_link(
            old(store).topic_by_key(user_id@, topic_name@).id,
            old(store).cat_by_key(user_id@, cat_name@).id,
        ),
        r matches Err(e) ==> *final(store) == *old(store) && (if !old(store).has_topic(
            user_id@,
            topic_name@,
        ) {
            e == StoreError::NotFound(EntityKind::Topic)
        } else {
            e == StoreError::NotFound(EntityKind::Category)
        }),
        final(store).categories@ == old(store).categories@,
        final(store).topics@ == old(store).topics@,
        final(store).bookmarks@ == old(store).bookmarks@,
        final(store).bookmark_cat@ == old(store).bookmark_cat@,
        final(store).next_id == old(store).next_id,
{
    let topic_id = match store.topic_get_id_by_name(user_id, topic_name) {
        Some(id) => id,
        None => {
            return Err(StoreError::NotFound(EntityKind::Topic));
        },
    };
    let category_id = match store.cat_get_id_by_name(user_id, cat_name) {
        Some(id) => id,
        None => {
            return Err(StoreError::NotFound(EntityKind::Category));
        },
    };
    proof {
        let ti = store.topic_index(user_id@, topic_name@);
        assert(crate::store::topic_keyed(store.topics@[ti], user_id@, topic_name@));
        assert(1 <= store.topics@[ti].id < store.next_id);
        let ci = store.cat_index(user_id@, cat_name@);
        assert(crate::store::cat_keyed(store.categories@[ci], user_id@, cat_name@));
        assert(1 <= store.categories@[ci].id < store.next_id);
    }
    match store.connect(topic_id, category_id) {
        Ok(_) => Ok(()),
        Err(_) => {
            proof {
                assert(false);
            }
            unreached()
        },
    }
}

/// Unlinks a category from a topic, both named; `NotFound` when either
/// name does not resolve; unlinking an absent pair changes nothing.
pub fn remove_topic(store: &mut Store, user_id: &str, cat_name: &str, topic_name: &str) -> (r:
    Result<(), StoreError>)
    requires
        old(store).wf(),
    ensures
        final(store).wf(),
        r is Ok <==> (old(store).has_topic(user_id@, topic_name@) && old(store).has_cat(
            user_id@,
            cat_name@,
        )),
        r is Ok ==> forall|m: TopicCatRow|
            final(store).topic_cat@.contains(m) <==> (old(store).topic_cat@.contains(m) && m
                != TopicCatRow {
                topic_id: old(store).topic_by_key(user_id@, topic_name@).id,
                category_id: old(store).cat_by_key(user_id@, cat_name@).id,
            }),
        r matches Err(e) ==> *final(store) == *old(store) && (if !old(store).has_topic(
            user_id@,
            topic_name@,
        ) {
            e == StoreError::NotFound(EntityKind::Topic)
        } else {
            e == StoreError::NotFound(EntityKind::Category)
        }),
        final(store).categories@ == old(store).categories@,
        final(store).topics@ == old(store).topics@,
        final(store).bookmarks@ == old(store).bookmarks@,
        final(store).bookmark_cat@ == old(store).bookmark_cat@,
        final(store).next_id == old(store).next_id,
{
    let topic_id = match store.topic_get_id_by_name(user_id, topic_name) {
        Some(id) => id,
        None => {
            return Err(StoreError::NotFound(EntityKind::Topic));
        },
    };
    let category_id = match store.cat_get_id_by_name(user_id, cat_name) {
        Some(id) => id,
        None => {
            return Err(StoreError::NotFound(EntityKind::Category));
        },
    };
    store.disconnect(topic_id, category_id);
    Ok(())
}

/// The identifiers of the user's topics with the given names.
pub open spec fn topic_ids_for(s: Store, user: Seq<char>, names: Seq<Seq<char>>) -> Seq<i64> {
    Seq::new(names.len(), |k: int| s.topic_by_key(user, names[k]).id)
}

/// Links a category to several named topics at once, idempotently: the
/// category and every topic are resolved first, so a missing name fails
/// the whole call with `NotFound` before anything is linked.
pub fn add_topics_bulk(
    store: &mut Store,
    user_id: &str,
    cat_name: &str,
    topic_names: &Vec<String>,
) -> (r: Result<(), StoreError>)
    requires
        old(store).wf(),
    ensures
        final(store).wf(),
        r is Ok <==> (old(store).has_cat(user_id@, cat_name@) && (forall|k: int|
            0 <= k < topic_names@.len() ==> old(store).has_topic(
                user_id@,
                (#[trigger] topic_names@[k])@,
            ))),
        r is Ok ==> final(store).topic_cat@ == crate::store::add_ct_links(
            old(store).topic_cat@,
            old(store).cat_by_key(user_id@, cat_name@).id,
            topic_ids_for(*old(store), user_id@, views_of(topic_names@)),
        ),
        r matches Err(e) ==> *final(store) == *old(store) && (if !old(store).has_cat(
            user_id@,
            cat_name@,
        ) {
            e == StoreError::NotFound(EntityKind::Category)
        } else {
            e == StoreError::NotFound(EntityKind::Topic)
        }),
        final(store).categories@ == old(store).categories@,
        final(store).topics@ == old(store).topics@,
        final(store).bookmarks@ == old(store).bookmarks@,
        final(store).bookmark_cat@ == old(store).bookmark_cat@,
        final(store).next_id == old(store).next_id,
{
    let category_id = match store.cat_get_id_by_name(user_id, cat_name) {
        Some(id) => id,
        None => {
            return Err(StoreError::NotFound(EntityKind::Category));
        },
    };
    let n = topic_names.len();
    let mut tids: Vec<i64> = Vec::new();
    let mut k: usize = 0;
    while k < n
        invariant
            0 <= k <= n,
            n == topic_names@.len(),
            store.wf(),
            store == old(store),
            store.has_cat(user_id@, cat_name@),
            category_id == store.cat_by_key(user_id@, cat_name@).id,
            tids@.len() == k,
            forall|w: int|
                0 <= w < k ==> store.has_topic(user_id@, (#[trigger] topic_names@[w])@) && tids@[w]
                    == store.topic_by_key(user_id@, topic_names@[w]@).id,
        decreases n - k,
    {
        match store.topic_get_id_by_name(user_id, topic_names[k].as_str()) {
            Some(id) => {
                tids.push(id);
            },
            None => {
                return Err(StoreError::NotFound(EntityKind::Topic));
            },
        }
        k = k + 1;
    }
    proof {
        assert(tids@ =~= topic_ids_for(*store, user_id@, views_of(topic_names@)));
        let ci = store.cat_index(user_id@, cat_name@);
        assert(crate::store::cat_keyed(store.categories@[ci], user_id@, cat_name@));
        assert(1 <= store.categories@[ci].id < store.next_id);
        assert forall|w: int| 0 <= w < tids@.len() implies store.id_allocated(
            #[trigger] tids@[w],
        ) by {
            let ti = store.topic_index(user_id@, topic_names@[w]@);
            assert(crate::store::topic_keyed(store.topics@[ti], user_id@, topic_names@[w]@));
            assert(1 <= store.topics@[ti].id < store.next_id);
        }
    }
    match store.cat_add_topic_links(category_id, &tids) {
        Ok(_) => {},
        Err(_) => {
            proof {
                assert(false);
            }
        },
    }
    Ok(())
}

/// Unlinks a category from several named topics at once: the category
/// and every topic are resolved first, so a missing name fails the whole
/// call with `NotFound` before anything is removed.
pub fn remove_topics_bulk(
    store: &mut Store,
    user_id: &str,
    cat_name: &str,
    topic_names: &Vec<String>,
) -> (r: Result<(), StoreError>)
    requires
        old(store).wf(),
    ensures
        final(store).wf(),
        r is Ok <==> (old(store).has_cat(user_id@, cat_name@) && (forall|k: int|
            0 <= k < topic_names@.len() ==> old(store).has_topic(
                user_id@,
                (#[trigger] topic_names@[k])@,
            ))),
        r is Ok ==> forall|m: TopicCatRow|
            final(store).topic_cat@.contains(m) <==> (old(store).topic_cat@.contains(m) && !(
            m.category_id == old(store).cat_by_key(user_id@, cat_name@).id && topic_ids_for(
                *old(store),
                user_id@,
                views_of(topic_names@),
            ).contains(m.topic_id))),
        r matches Err(e) ==> *final(store) == *old(store) && (if !old(store).has_cat(
            user_id@,
            cat_name@,
        ) {
            e == StoreError::NotFound(EntityKind::Category)
        } else {
            e == StoreError::NotFound(EntityKind::Topic)
        }),
        final(store).categories@ == old(store).categories@,
        final(store).topics@ == old(store).topics@,
        final(store).bookmarks@ == old(store).bookmarks@,
        final(store).bookmark_cat@ == old(store).bookmark_cat@,
        final(store).next_id == old(store).next_id,
{
    let category_id = match store.cat_get_id_by_name(user_id, cat_name) {
        Some(id) => id,
        None => {
            return Err(StoreError::NotFound(EntityKind::Category));
        },
    };
    let n = topic_names.len();
    let mut tids: Vec<i64> = Vec::new();
    let mut k: usize = 0;
    while k < n
        invariant
            0 <= k <= n,
            n == topic_names@.len(),
            store.wf(),
            store == old(store),
            store.has_cat(user_id@, cat_name@),
            category_id == store.cat_by_key(user_id@, cat_name@).id,
            tids@.len() == k,
            forall|w: int|
                0 <= w < k ==> store.has_topic(user_id@, (#[trigger] topic_names@[w])@) && tids@[w]
                    == store.topic_by_key(user_id@, topic_names@[w]@).id,
        decreases n - k,
    {
        match store.topic_get_id_by_name(user_id, topic_names[k].as_str()) {
            Some(id) => {
                tids.push(id);
            },
            None => {
                return Err(StoreError::NotFound(EntityKind::Topic));
            },
        }
        k = k + 1;
    }
    let ghost tids0 = tids@;
    let ghost tc0 = store.topic_cat@;
    proof {
        assert(tids0 =~= topic_ids_for(*store, user_id@, views_of(topic_names@)));
        assert(tids0.take(0) =~= Seq::<i64>::empty());
    }
    let mut w: usize = 0;
    while w < n
        invariant
            0 <= w <= n,
            n == tids@.len(),
            tids@ == tids0,
            store.wf(),
            old(store).wf(),
            old(store).has_cat(user_id@, cat_name@),
            category_id == old(store).cat_by_key(user_id@, cat_name@).id,
            forall|v: int|
                0 <= v < n ==> old(store).has_topic(user_id@, (#[trigger] topic_names@[v])@),
            tids0 == topic_ids_for(*old(store), user_id@, views_of(topic_names@)),
            tc0 == old(store).topic_cat@,
            forall|m: TopicCatRow|
                store.topic_cat@.contains(m) <==> (tc0.contains(m) && !(m.category_id == category_id
                    && tids0.take(w as int).contains(m.topic_id))),
            store.categories == old(store).categories,
            store.topics == old(store).topics,
            store.bookmarks == old(store).bookmarks,
            store.bookmark_cat == old(store).bookmark_cat,
            store.next_id == old(store).next_id,
        decreases n - w,
    {
        let ghost tc_mid = store.topic_cat@;
        let ghost w0 = w as int;
        store.disconnect(tids[w], category_id);
        proof {
            let pair = TopicCatRow { topic_id: tids0[w0], category_id };
            assert forall|m: TopicCatRow| #[trigger]
                store.topic_cat@.contains(m) <==> (tc_mid.contains(m) && m != pair) by {}
            assert(tids0.take(w0 + 1) =~= tids0.take(w0).push(tids0[w0]));
            assert forall|m: TopicCatRow| #![trigger store.topic_cat@.contains(m)]
                store.topic_cat@.contains(m) implies (tc0.contains(m) && !(m.category_id
                == category_id && tids0.take(w0 + 1).contains(m.topic_id))) by {
                assert(tc_mid.contains(m) && m != pair);
                assert(tc_mid.contains(m) <==> (tc0.contains(m) && !(m.category_id == category_id
                    && tids0.take(w0).contains(m.topic_id))));
                if m.category_id == category_id && tids0.take(w0 + 1).contains(m.topic_id) {
                    let v = choose|v: int|
                        0 <= v < tids0.take(w0 + 1).len() && #[trigger] tids0.take(w0 + 1)[v] == m.topic_id;
                    if v < w0 {
                        assert(tids0.take(w0)[v] == m.topic_id);
                        assert(tids0.take(w0).contains(m.topic_id));
                    } else {
                        assert(m.topic_id == tids0[w0]);
                        assert(m == pair);
                    }
                }
            }
            assert forall|m: TopicCatRow| #![trigger tc0.contains(m)]
                (tc0.contains(m) && !(m.category_id == category_id && tids0.take(w0 + 1).contains(
                    m.topic_id,
                ))) implies store.topic_cat@.contains(m) by {
                assert(tc_mid.contains(m) <==> (tc0.contains(m) && !(m.category_id == category_id
                    && tids0.take(w0).contains(m.topic_id))));
                if tids0.take(w0).contains(m.topic_id) {
                    let v = choose|v: int|
                        0 <= v < tids0.take(w0).len() && #[trigger] tids0.take(w0)[v]
                            == m.topic_id;
                    assert(tids0.take(w0 + 1)[v] == m.topic_id);
                    assert(tids0.take(w0 + 1).contains(m.topic_id));
                }
                assert(tc_mid.contains(m));
                if m == pair {
                    assert(tids0.take(w0 + 1)[w0] == m.topic_id);
                    assert(tids0.take(w0 + 1).contains(m.topic_id));
                }
            }
        }
        w = w + 1;
        proof {
            assert(tids0.take(w as int) == tids0.take(w0 + 1));
            assert forall|m: TopicCatRow|
                store.topic_cat@.contains(m) <==> (tc0.contains(m) && !(m.category_id
                    == category_id && tids0.take(w as int).contains(m.topic_id))) by {
                if store.topic_cat@.contains(m) {
                } else {
                    if tc0.contains(m) && !(m.category_id == category_id && tids0.take(
                        w as int,
                    ).contains(m.topic_id)) {
                        if tids0.take(w0 + 1).contains(m.topic_id) {
                            assert(tids0.take(w as int).contains(m.topic_id));
                        }
                        assert(store.topic_cat@.contains(m));
                    }
                }
            }
        }
    }
    proof {
        assert(tids0.take(n as int) =~= tids0);
    }
    Ok(())
}

} // verus!
