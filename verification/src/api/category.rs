//! Explicit category edits: the single-row upsert that overwrites
//! metadata on conflict (unlike the bulk protocol path, which preserves
//! it), the bulk form of that edit, and raw pair linking.

use vstd::prelude::*;

use crate::errors::{EntityKind, StoreError};
use crate::rows::{CatRow, TopicCatRow};
use crate::store::{cat_index_in, has_cat_in, Store};

verus! {

/// What a client sends to create or edit a category with an optional
/// owning topic.
#[derive(Debug)]
pub struct CreateRequest {
    pub name: String,
    pub title: Option<String>,
    pub about: Option<String>,
    pub topic: Option<String>,
}

/// The bare metadata of a category in the flat request layer: the title
/// is stored as the display name.
#[derive(Debug)]
pub struct Category {
    pub name: String,
    pub title: Option<String>,
    pub about: Option<String>,
}

impl Category {
    /// A category known only by name.
    pub fn new(name: &str) -> (r: Category)
        ensures
            r.name@ == name@,
            r.title == None::<String>,
            r.about == None::<String>,
    {
        Category { name: name.to_owned(), title: None, about: None }
    }
}

/// One metadata-edit upsert: on a `(name, user_id)` conflict the stored
/// title and about are overwritten and the update time is set, keeping
/// the identifier and creation time; otherwise a new row is appended.
pub open spec fn meta_upsert_one(
    cats: Seq<CatRow>,
    c: Category,
    us: String,
    id: i64,
    now: i64,
) -> Seq<CatRow> {
    if has_cat_in(cats, us@, c.name@) {
        let i = cat_index_in(cats, us@, c.name@);
        cats.update(
            i,
            CatRow { display_name: c.title, about: c.about, updated_on: now, ..cats[i] },
        )
    } else {
        cats.push(
            CatRow {
                id,
                name: c.name,
                display_name: c.title,
                description: None,
                about: c.about,
                priority: 0,
                active: true,
                public: false,
                user_id: us,
                created_on: now,
                updated_on: now,
            },
        )
    }
}

/// A successful metadata-edit upsert for one category: the table made
/// one `meta_upsert_one` step with some owner string viewing as `user`,
/// and the returned identifier is the row's.
pub open spec fn cat_meta_upserted(
    pre: Store,
    post: Store,
    user: Seq<char>,
    c: Category,
    id: i64,
    now: i64,
) -> bool {
    exists|us: String|
        #![trigger meta_upsert_one(pre.categories@, c, us, id, now)]
        {
            &&& us@ == user
            &&& (if pre.has_cat(user, c.name@) {
                post.categories@ == meta_upsert_one(pre.categories@, c, us, id, now) && id
                    == pre.cat_by_key(user, c.name@).id && post.next_id == pre.next_id
            } else {
                post.categories@ == meta_upsert_one(pre.categories@, c, us, id, now) && id
                    == pre.next_id && post.next_id as int == pre.next_id as int + 1
            })
            &&& post.topics@ == pre.topics@
            &&& post.bookmarks@ == pre.bookmarks@
            &&& post.topic_cat@ == pre.topic_cat@
            &&& post.bookmark_cat@ == pre.bookmark_cat@
        }
}

/// Upserts one category's metadata for a user: an explicit edit, so a
/// conflicting row is overwritten, never silently kept.
pub fn cat_upsert_meta(store: &mut Store, user_id: &str, c: Category, now: i64) -> (r: Result<
    i64,
    StoreError,
>)
    requires
        old(store).wf(),
    ensures
        final(store).wf(),
        r is Ok <==> (old(store).has_cat(user_id@, c.name@) || old(store).next_id < i64::MAX),
        r matches Ok(id) ==> cat_meta_upserted(*old(store), *final(store), user_id@, c, id, now),
        r matches Ok(id) ==> final(store).id_allocated(id) && old(store).next_id <= final(store).next_id,
        r is Err ==> *final(store) == *old(store) && r == Err::<i64, StoreError>(
            StoreError::Unavailable,
        ),
{
    let ghost pre = *store;
    match store.find_cat(user_id, c.name.as_str()) {
        Some(i) => {
            let ghost cats0 = store.categories@;
            let old_row = store.categories[i].duplicate();
            let id = old_row.id;
            let new_row = CatRow {
                id: old_row.id,
                name: old_row.name,
                display_name: c.title,
                description: old_row.description,
                about: c.about,
                priority: old_row.priority,
                active: old_row.active,
                public: old_row.public,
                user_id: old_row.user_id,
                created_on: old_row.created_on,
                updated_on: now,
            };
            store.categories.set(i, new_row);
            proof {
                let cats1 = store.categories@;
                assert forall|p: int, q: int| 0 <= p < q < cats1.len() implies (
                #[trigger] cats1[p]).id != (#[trigger] cats1[q]).id by {
                    assert(cats1[p].id == cats0[p].id);
                    assert(cats1[q].id == cats0[q].id);
                }
                assert forall|p: int, q: int| 0 <= p < q < cats1.len() implies !((
                #[trigger] cats1[p]).user_id@ == (#[trigger] cats1[q]).user_id@ && cats1[p].name@
                    == cats1[q].name@) by {
                    assert(cats1[p].user_id@ == cats0[p].user_id@ && cats1[p].name@
                        == cats0[p].name@);
                    assert(cats1[q].user_id@ == cats0[q].user_id@ && cats1[q].name@
                        == cats0[q].name@);
                }
                assert forall|p: int| 0 <= p < cats1.len() implies 1 <= (#[trigger] cats1[p]).id
                    < store.next_id by {
                    assert(cats1[p].id == cats0[p].id);
                }
                let us = old_row.user_id;
                assert(us@ == user_id@);
                assert(store.categories@ =~= meta_upsert_one(pre.categories@, c, us, id, now));
                assert(cat_meta_upserted(pre, *store, user_id@, c, id, now));
                assert(1 <= cats0[i as int].id < store.next_id);
            }
            Ok(id)
        },
        None => {
            if store.next_id == i64::MAX {
                return Err(StoreError::Unavailable);
            }
            let ghost cats0 = store.categories@;
            let id = store.next_id;
            store.next_id = store.next_id + 1;
            let us = user_id.to_owned();
            let ghost us0 = us;
            let new_row = CatRow {
                id,
                name: c.name,
                display_name: c.title,
                description: None,
                about: c.about,
                priority: 0,
                active: true,
                public: false,
                user_id: us,
                created_on: now,
                updated_on: now,
            };
            store.categories.push(new_row);
            proof {
                let cats1 = store.categories@;
                assert forall|p: int, q: int| 0 <= p < q < cats1.len() implies !((
                #[trigger] cats1[p]).user_id@ == (#[trigger] cats1[q]).user_id@ && cats1[p].name@
                    == cats1[q].name@) by {
                    if q == cats1.len() - 1 {
                        assert(!crate::store::cat_keyed(cats0[p], user_id@, c.name@));
                        assert(cats1[q].user_id@ == user_id@ && cats1[q].name@ == c.name@);
                    }
                }
                assert(store.categories@ == meta_upsert_one(pre.categories@, c, us0, id, now));
                assert(cat_meta_upserted(pre, *store, user_id@, c, id, now));
            }
            Ok(id)
        },
    }
}

/// The bulk metadata-edit upsert: the table after stepping through the
/// given categories in order.
pub open spec fn meta_upsert_seq(
    cats: Seq<CatRow>,
    rows: Seq<Category>,
    uss: Seq<String>,
    next: int,
    now: i64,
) -> (Seq<CatRow>, int)
    decreases rows.len(),
{
    if rows.len() == 0 {
        (cats, next)
    } else {
        let prev = meta_upsert_seq(cats, rows.drop_last(), uss.drop_last(), next, now);
        if has_cat_in(prev.0, uss.last()@, rows.last().name@) {
            (meta_upsert_one(prev.0, rows.last(), uss.last(), 0, now), prev.1)
        } else {
            (meta_upsert_one(prev.0, rows.last(), uss.last(), prev.1 as i64, now), prev.1 + 1)
        }
    }
}

/// The identifier each upserted name resolves to, read off the final
/// table.
pub open spec fn meta_ids_for(cats: Seq<CatRow>, rows: Seq<Category>, user: Seq<char>) -> Seq<
    i64,
> {
    Seq::new(rows.len(), |k: int| cats[cat_index_in(cats, user, rows[k].name@)].id)
}

/// A successful bulk metadata-edit upsert: the table stepped through the
/// rows in order for some owner strings viewing as `user`, and `ids`
/// holds the identifier each name resolved to.
pub open spec fn cats_meta_upserted(
    pre: Store,
    post: Store,
    user: Seq<char>,
    rows: Seq<Category>,
    ids: Seq<i64>,
    now: i64,
) -> bool {
    exists|uss: Seq<String>|
        #![trigger meta_upsert_seq(pre.categories@, rows, uss, pre.next_id as int, now)]
        {
            let folded = meta_upsert_seq(pre.categories@, rows, uss, pre.next_id as int, now);
            &&& uss.len() == rows.len()
            &&& (forall|k: int| 0 <= k < uss.len() ==> (#[trigger] uss[k])@ == user)
            &&& post.categories@ == folded.0
            &&& post.next_id as int == folded.1
            &&& ids == meta_ids_for(folded.0, rows, user)
            &&& (forall|k: int|
                0 <= k < rows.len() ==> has_cat_in(folded.0, user, (#[trigger] rows[k]).name@))
            &&& post.topics@ == pre.topics@
            &&& post.bookmarks@ == pre.bookmarks@
            &&& post.topic_cat@ == pre.topic_cat@
            &&& post.bookmark_cat@ == pre.bookmark_cat@
        }
}

/// Upserts several categories' metadata for a user, one explicit edit
/// per row, returning the identifier each name resolved to, aligned with
/// the input.
pub fn upsert_categories(store: &mut Store, user_id: &str, cats: &Vec<Category>, now: i64) -> (r:
    Result<Vec<i64>, StoreError>)
    requires
        old(store).wf(),
    ensures
        final(store).wf(),
        r is Ok <==> old(store).next_id + cats@.len() <= i64::MAX,
        r matches Ok(ids) ==> cats_meta_upserted(
            *old(store),
            *final(store),
            user_id@,
            cats@,
            ids@,
            now,
        ),
        r matches Ok(ids) ==> (forall|k: int|
            0 <= k < ids@.len() ==> final(store).id_allocated(#[trigger] ids@[k])) && old(
            store,
        ).next_id <= final(store).next_id,
        r is Err ==> *final(store) == *old(store) && r == Err::<Vec<i64>, StoreError>(
            StoreError::Unavailable,
        ),
        final(store).topics@ == old(store).topics@,
        final(store).bookmarks@ == old(store).bookmarks@,
        final(store).topic_cat@ == old(store).topic_cat@,
        final(store).bookmark_cat@ == old(store).bookmark_cat@,
{
    let n = cats.len();
    if (n as u64) > ((i64::MAX - store.next_id) as u64) {
        return Err(StoreError::Unavailable);
    }
    let ghost cats0 = store.categories@;
    let ghost next0 = store.next_id as int;
    let ghost mut uss: Seq<String> = Seq::empty();
    let mut ids: Vec<i64> = Vec::new();
    let mut k: usize = 0;
    proof {
        assert(cats@.take(0) =~= Seq::<Category>::empty());
        assert(uss.take(0) =~= Seq::<String>::empty());
    }
    while k < n
        invariant
            0 <= k <= n,
            n == cats@.len(),
            old(store).wf(),
            store.wf(),
            cats0 == old(store).categories@,
            next0 == old(store).next_id as int,
            next0 + n <= i64::MAX,
            uss.len() == k,
            forall|w: int| 0 <= w < k ==> (#[trigger] uss[w])@ == user_id@,
            store.categories@ == meta_upsert_seq(cats0, cats@.take(k as int), uss, next0, now).0,
            store.next_id as int == meta_upsert_seq(cats0, cats@.take(k as int), uss, next0, now).1,
            store.next_id as int <= next0 + k,
            next0 <= store.next_id as int,
            store.topics@ == old(store).topics@,
            store.bookmarks@ == old(store).bookmarks@,
            store.topic_cat@ == old(store).topic_cat@,
            store.bookmark_cat@ == old(store).bookmark_cat@,
            ids@.len() == k,
            forall|w: int|
                0 <= w < k ==> has_cat_in(store.categories@, user_id@, (#[trigger] cats@[w]).name@)
                    && ids@[w] == store.categories@[cat_index_in(
                    store.categories@,
                    user_id@,
                    cats@[w].name@,
                )].id,
        decreases n - k,
    {
        let ghost cats_before = store.categories@;
        let ghost had = store.has_cat(user_id@, cats@[k as int].name@);
        let c = Category {
            name: cats[k].name.clone(),
            title: crate::rows::dup_opt(&cats[k].title),
            about: crate::rows::dup_opt(&cats[k].about),
        };
        proof {
            assert(c == cats@[k as int]);
        }
        let id = match cat_upsert_meta(store, user_id, c, now) {
            Ok(id) => id,
            Err(_) => {
                proof {
                    assert(false);
                }
                unreached()
            },
        };
        ids.push(id);
        proof {
            let u = user_id@;
            let nm = cats@[k as int].name@;
            let us = choose|us: String|
                #![trigger meta_upsert_one(cats_before, cats@[k as int], us, id, now)]
                us@ == u && (if had {
                    store.categories@ == meta_upsert_one(cats_before, cats@[k as int], us, id, now)
                } else {
                    store.categories@ == meta_upsert_one(cats_before, cats@[k as int], us, id, now)
                });
            let uss_prev = uss;
            uss = uss.push(us);
            assert(cats@.take(k + 1).drop_last() =~= cats@.take(k as int));
            assert(cats@.take(k + 1).last() == cats@[k as int]);
            assert(uss.drop_last() =~= uss_prev);
            assert(uss.last() == us);
            let cs = store.categories@;
            // the upserted key is now present and resolves to `id`
            if had {
                let i0 = cat_index_in(cats_before, u, nm);
                assert(crate::store::cat_keyed(cats_before[i0], u, nm));
                assert(crate::store::cat_keyed(cs[i0], u, nm));
                assert(has_cat_in(cs, u, nm));
                let j = cat_index_in(cs, u, nm);
                if j != i0 {
                    assert(crate::store::cat_keyed(cs[j], u, nm));
                    if j < i0 {
                        assert(!(cs[j].user_id@ == cs[i0].user_id@ && cs[j].name@ == cs[i0].name@));
                    } else {
                        assert(!(cs[i0].user_id@ == cs[j].user_id@ && cs[i0].name@ == cs[j].name@));
                    }
                }
                assert(cs[j].id == id);
            } else {
                assert(crate::store::cat_keyed(cs[cs.len() - 1], u, nm));
                assert(has_cat_in(cs, u, nm));
                let j = cat_index_in(cs, u, nm);
                assert(crate::store::cat_keyed(cs[j], u, nm));
                if j != cs.len() - 1 {
                    assert(crate::store::cat_keyed(cats_before[j], u, nm));
                }
                assert(cs[j].id == id);
            }
            // keys resolved earlier keep their identifiers
            assert forall|w: int| 0 <= w < k implies has_cat_in(
                cs,
                user_id@,
                (#[trigger] cats@[w]).name@,
            ) && ids@[w] == cs[cat_index_in(cs, user_id@, cats@[w].name@)].id by {
                let nw = cats@[w].name@;
                let j0 = cat_index_in(cats_before, u, nw);
                assert(crate::store::cat_keyed(cats_before[j0], u, nw));
                assert(crate::store::cat_keyed(cs[j0], u, nw) && cs[j0].id == cats_before[j0].id)
                    by {
                    if had {
                        let i0 = cat_index_in(cats_before, u, nm);
                        if j0 != i0 {
                        } else {
                            assert(nw == nm);
                        }
                    }
                }
                assert(has_cat_in(cs, u, nw));
                let j1 = cat_index_in(cs, u, nw);
                assert(crate::store::cat_keyed(cs[j1], u, nw));
                if j1 != j0 {
                    if j1 < j0 {
                        assert(!(cs[j1].user_id@ == cs[j0].user_id@ && cs[j1].name@
                            == cs[j0].name@));
                    } else {
                        assert(!(cs[j0].user_id@ == cs[j1].user_id@ && cs[j0].name@
                            == cs[j1].name@));
                    }
                }
            }
        }
        k = k + 1;
    }
    proof {
        assert(cats@.take(n as int) =~= cats@);
        assert(store.categories@ == meta_upsert_seq(cats0, cats@, uss, next0, now).0);
        assert(store.next_id as int == meta_upsert_seq(cats0, cats@, uss, next0, now).1);
        assert(ids@ =~= meta_ids_for(store.categories@, cats@, user_id@));
        assert forall|k: int| 0 <= k < ids@.len() implies store.id_allocated(
            #[trigger] ids@[k],
        ) by {
            let j = cat_index_in(store.categories@, user_id@, cats@[k].name@);
            assert(crate::store::cat_keyed(store.categories@[j], user_id@, cats@[k].name@));
            assert(1 <= store.categories@[j].id < store.next_id);
        }
    }
    Ok(ids)
}

/// The topic mapping rows after idempotently inserting each
/// `(category_id, topic_id)` pair, in order.
pub open spec fn add_pair_links(maps: Seq<TopicCatRow>, pairs: Seq<(i64, i64)>) -> Seq<TopicCatRow>
    decreases pairs.len(),
{
    if pairs.len() == 0 {
        maps
    } else {
        let prev = add_pair_links(maps, pairs.drop_last());
        let row = TopicCatRow { topic_id: pairs.last().1, category_id: pairs.last().0 };
        if prev.contains(row) {
            prev
        } else {
            prev.push(row)
        }
    }
}

/// Inserts `(category_id, topic_id)` pairs into the topic mapping table,
/// idempotently; an identifier the sequence never handed out is refused
/// with `NotFound` before anything is linked.
pub fn cat_topic_map(store: &mut Store, map: &Vec<(i64, i64)>) -> (r: Result<(), StoreError>)
    requires
        old(store).wf(),
    ensures
        final(store).wf(),
        r is Ok <==> (forall|k: int|
            0 <= k < map@.len() ==> old(store).id_allocated((#[trigger] map@[k]).0) && old(
                store,
            ).id_allocated(map@[k].1)),
        r is Ok ==> final(store).topic_cat@ == add_pair_links(old(store).topic_cat@, map@),
        r is Err ==> *final(store) == *old(store) && r == Err::<(), StoreError>(
            StoreError::NotFound(EntityKind::Category),
        ),
        final(store).categories@ == old(store).categories@,
        final(store).topics@ == old(store).topics@,
        final(store).bookmarks@ == old(store).bookmarks@,
        final(store).bookmark_cat@ == old(store).bookmark_cat@,
        final(store).next_id == old(store).next_id,
{
    let n = map.len();
    let mut v: usize = 0;
    while v < n
        invariant
            0 <= v <= n,
            n == map@.len(),
            store == old(store),
            store.wf(),
            forall|k: int|
                0 <= k < v ==> store.id_allocated((#[trigger] map@[k]).0) && store.id_allocated(
                    map@[k].1,
                ),
        decreases n - v,
    {
        let p = map[v];
        if !(1 <= p.0 && p.0 < store.next_id && 1 <= p.1 && p.1 < store.next_id) {
            proof {
                assert(!(store.id_allocated(map@[v as int].0) && store.id_allocated(
                    map@[v as int].1,
                )));
            }
            return Err(StoreError::NotFound(EntityKind::Category));
        }
        v = v + 1;
    }
    let mut k: usize = 0;
    proof {
        assert(map@.take(0) =~= Seq::<(i64, i64)>::empty());
    }
    while k < n
        invariant
            0 <= k <= n,
            n == map@.len(),
            old(store).wf(),
            store.wf(),
            forall|w: int|
                0 <= w < n ==> store.id_allocated((#[trigger] map@[w]).0) && store.id_allocated(
                    map@[w].1,
                ),
            store.topic_cat@ == add_pair_links(old(store).topic_cat@, map@.take(k as int)),
            store.categories@ == old(store).categories@,
            store.topics@ == old(store).topics@,
            store.bookmarks@ == old(store).bookmarks@,
            store.bookmark_cat@ == old(store).bookmark_cat@,
            store.next_id == old(store).next_id,
        decreases n - k,
    {
        proof {
            assert(map@.take(k + 1).drop_last() =~= map@.take(k as int));
            assert(map@.take(k + 1).last() == map@[k as int]);
        }
        let pair = map[k];
        let row_topic = pair.1;
        let row_cat = pair.0;
        let ghost tc_before = store.topic_cat@;
        if !store.contains_topic_link(row_topic, row_cat) {
            store.topic_cat.push(TopicCatRow { topic_id: row_topic, category_id: row_cat });
            proof {
                let tc1 = store.topic_cat@;
                let row = TopicCatRow { topic_id: row_topic, category_id: row_cat };
                assert forall|i: int, j: int| 0 <= i < j < tc1.len() implies tc1[i] != tc1[j] by {
                    if j == tc1.len() - 1 {
                        if tc1[i] == row {
                            assert(tc_before.contains(row)) by {
                                assert(tc_before[i] == row);
                            }
                        }
                    }
                }
                assert(store.id_allocated(map@[k as int].0) && store.id_allocated(
                    map@[k as int].1,
                ));
                assert forall|i: int| 0 <= i < tc1.len() implies 1 <= (
                #[trigger] tc1[i]).topic_id < store.next_id && 1 <= tc1[i].category_id
                    < store.next_id by {
                    if i < tc1.len() - 1 {
                        assert(tc1[i] == tc_before[i]);
                    }
                }
            }
        }
        k = k + 1;
    }
    proof {
        assert(map@.take(n as int) =~= map@);
    }
    Ok(())
}

/// Creates or edits one category through the explicit metadata upsert
/// and, when an owning topic name is given, upserts that topic and links
/// the pair idempotently.
pub fn create(store: &mut Store, user_id: &str, req: CreateRequest, now: i64) -> (r: Result<
    i64,
    StoreError,
>)
    requires
        old(store).wf(),
    ensures
        final(store).wf(),
        r matches Ok(cat_id) ==> exists|mid1: Store, c: Category|
            #![trigger cat_meta_upserted(*old(store), mid1, user_id@, c, cat_id, now)]
            {
                &&& c.name == req.name
                &&& c.title == req.title
                &&& c.about == req.about
                &&& cat_meta_upserted(*old(store), mid1, user_id@, c, cat_id, now)
                &&& match req.topic {
                    None => *final(store) == mid1,
                    Some(tn) => exists|mid2: Store, tc: crate::api::topic::TopicCreate, tid: i64|
                        #![trigger crate::api::topic::topic_meta_upserted(mid1, mid2, user_id@, tc, tid, now)]
                        {
                            &&& tc.name@ == tn@
                            &&& tc.description == None::<String>
                            &&& crate::api::topic::topic_meta_upserted(
                                mid1,
                                mid2,
                                user_id@,
                                tc,
                                tid,
                                now,
                            )
                            &&& final(store).topic_cat@ == add_pair_links(
                                mid2.topic_cat@,
                                seq![(cat_id, tid)],
                            )
                            &&& final(store).categories@ == mid2.categories@
                            &&& final(store).topics@ == mid2.topics@
                            &&& final(store).bookmarks@ == mid2.bookmarks@
                            &&& final(store).bookmark_cat@ == mid2.bookmark_cat@
                            &&& final(store).next_id == mid2.next_id
                        },
                }
            },
        r is Ok <==> old(store).next_id as int + 2 <= i64::MAX,
        r is Err ==> *final(store) == *old(store) && r == Err::<i64, StoreError>(
            StoreError::Unavailable,
        ),
{
    if store.next_id > i64::MAX - 2 {
        return Err(StoreError::Unavailable);
    }
    let CreateRequest { name, title, about, topic } = req;
    let c = Category { name, title, about };
    let ghost c0 = c;
    let cat_id = match cat_upsert_meta(store, user_id, c, now) {
        Ok(id) => id,
        Err(_) => {
            proof {
                assert(false);
            }
            unreached()
        },
    };
    let ghost mid1 = *store;
    match topic {
        Some(tn) => {
            let tc = crate::api::topic::TopicCreate::new(tn.as_str());
            let ghost tc0 = tc;
            let tid = match crate::api::topic::upsert_topic(store, user_id, &tc, now) {
                Ok(tid) => tid,
                Err(_) => {
                    proof {
                        assert(cat_meta_upserted(*old(store), mid1, user_id@, c0, cat_id, now));
                        assert(false);
                    }
                    unreached()
                },
            };
            let ghost mid2 = *store;
            let pairs = vec![(cat_id, tid)];
            proof {
                assert(pairs@ =~= seq![(cat_id, tid)]);
                // both identifiers were handed out by the sequence, which
                // only grew since
                assert(mid1.id_allocated(cat_id));
                assert(mid2.id_allocated(tid));
                assert(store.id_allocated(cat_id) && store.id_allocated(tid));
                assert forall|k: int|
                    0 <= k < pairs@.len() implies store.id_allocated((#[trigger] pairs@[k]).0)
                    && store.id_allocated(pairs@[k].1) by {
                    assert(pairs@[k] == (cat_id, tid));
                }
            }
            match cat_topic_map(store, &pairs) {
                Ok(_) => {},
                Err(_) => {
                    proof {
                        assert(false);
                    }
                },
            }
            proof {
                assert(cat_meta_upserted(*old(store), mid1, user_id@, c0, cat_id, now));
                assert(crate::api::topic::topic_meta_upserted(mid1, mid2, user_id@, tc0, tid, now));
            }
            Ok(cat_id)
        },
        None => {
            proof {
                assert(cat_meta_upserted(*old(store), mid1, user_id@, c0, cat_id, now));
            }
            Ok(cat_id)
        },
    }
}

} // verus!
