//! The in-memory relational store: three entity tables, two junction
//! tables, and one identifier sequence.
//!
//! Every operation keeps the store well formed: identifiers are unique and
//! below the sequence counter, `(name, user_id)` is unique per entity
//! table, junction pairs are unique, and no bookmark mapping row ever
//! references a missing bookmark.

use vstd::prelude::*;

use crate::errors::{EntityKind, StoreError};
use crate::rows::{
    cat_row_from, topic_rec_from, BookmarkCatRow, BookmarkI, BookmarkRec, CatRow, CatRowI,
    TopicCatRow, TopicRec, TopicRowI,
};

verus! {

/// True when the category row is keyed by the given owner and name.
pub open spec fn cat_keyed(c: CatRow, user: Seq<char>, name: Seq<char>) -> bool {
    c.user_id@ == user && c.name@ == name
}

/// True when some category row is keyed by the given owner and name.
pub open spec fn has_cat_in(cats: Seq<CatRow>, user: Seq<char>, name: Seq<char>) -> bool {
    exists|i: int| 0 <= i < cats.len() && #[trigger] cat_keyed(cats[i], user, name)
}

/// The index of the category row keyed by the given owner and name; with
/// unique keys there is at most one.
pub open spec fn cat_index_in(cats: Seq<CatRow>, user: Seq<char>, name: Seq<char>) -> int {
    choose|i: int| 0 <= i < cats.len() && #[trigger] cat_keyed(cats[i], user, name)
}

/// True when the topic row is keyed by the given owner and name.
pub open spec fn topic_keyed(t: TopicRec, user: Seq<char>, name: Seq<char>) -> bool {
    t.user_id@ == user && t.name@ == name
}

/// True when some topic row is keyed by the given owner and name.
pub open spec fn has_topic_in(topics: Seq<TopicRec>, user: Seq<char>, name: Seq<char>) -> bool {
    exists|i: int| 0 <= i < topics.len() && #[trigger] topic_keyed(topics[i], user, name)
}

/// The index of the topic row keyed by the given owner and name.
pub open spec fn topic_index_in(topics: Seq<TopicRec>, user: Seq<char>, name: Seq<char>) -> int {
    choose|i: int| 0 <= i < topics.len() && #[trigger] topic_keyed(topics[i], user, name)
}

/// True when some category row carries the given identifier.
pub open spec fn has_cat_id_in(cats: Seq<CatRow>, id: i64) -> bool {
    exists|i: int| 0 <= i < cats.len() && (#[trigger] cats[i]).id == id
}

/// The index of the category row with the given identifier.
pub open spec fn cat_index_by_id(cats: Seq<CatRow>, id: i64) -> int {
    choose|i: int| 0 <= i < cats.len() && (#[trigger] cats[i]).id == id
}

/// True when some bookmark row carries the given identifier.
pub open spec fn has_bookmark_in(bms: Seq<BookmarkRec>, id: i64) -> bool {
    exists|i: int| 0 <= i < bms.len() && (#[trigger] bms[i]).id == id
}

/// The index of the bookmark row with the given identifier.
pub open spec fn bookmark_index_in(bms: Seq<BookmarkRec>, id: i64) -> int {
    choose|i: int| 0 <= i < bms.len() && (#[trigger] bms[i]).id == id
}

/// The topic mapping rows after idempotently linking `topic_id` to each
/// category identifier in `ids`, in order: a pair already present is not
/// duplicated.
pub open spec fn add_tc_links(maps: Seq<TopicCatRow>, topic_id: i64, ids: Seq<i64>) -> Seq<
    TopicCatRow,
>
    decreases ids.len(),
{
    if ids.len() == 0 {
        maps
    } else {
        let prev = add_tc_links(maps, topic_id, ids.drop_last());
        let row = TopicCatRow { topic_id, category_id: ids.last() };
        if prev.contains(row) {
            prev
        } else {
            prev.push(row)
        }
    }
}

/// The bookmark mapping rows after idempotently linking `bookmark_id` to
/// each category identifier in `ids`, in order.
pub open spec fn add_bc_links(maps: Seq<BookmarkCatRow>, bookmark_id: i64, ids: Seq<i64>) -> Seq<
    BookmarkCatRow,
>
    decreases ids.len(),
{
    if ids.len() == 0 {
        maps
    } else {
        let prev = add_bc_links(maps, bookmark_id, ids.drop_last());
        let row = BookmarkCatRow { bookmark_id, category_id: ids.last() };
        if prev.contains(row) {
            prev
        } else {
            prev.push(row)
        }
    }
}

/// Idempotent linking adds exactly the missing pairs: a row is in the
/// result when it was already there or is one of the requested pairs, and
/// pairwise distinctness is preserved.
pub proof fn lemma_add_tc_links(maps: Seq<TopicCatRow>, topic_id: i64, ids: Seq<i64>)
    ensures
        forall|m: TopicCatRow|
            add_tc_links(maps, topic_id, ids).contains(m) <==> (maps.contains(m) || (m.topic_id
                == topic_id && ids.contains(m.category_id))),
        (forall|i: int, j: int| 0 <= i < j < maps.len() ==> maps[i] != maps[j]) ==> (forall|
            i: int,
            j: int,
        |
            0 <= i < j < add_tc_links(maps, topic_id, ids).len() ==> add_tc_links(
                maps,
                topic_id,
                ids,
            )[i] != add_tc_links(maps, topic_id, ids)[j]),
        maps.len() <= add_tc_links(maps, topic_id, ids).len(),
        forall|k: int| 0 <= k < maps.len() ==> add_tc_links(maps, topic_id, ids)[k] == maps[k],
    decreases ids.len(),
{
    if ids.len() == 0 {
    } else {
        lemma_add_tc_links(maps, topic_id, ids.drop_last());
        let prev = add_tc_links(maps, topic_id, ids.drop_last());
        let row = TopicCatRow { topic_id, category_id: ids.last() };
        assert forall|m: TopicCatRow|
            add_tc_links(maps, topic_id, ids).contains(m) implies (maps.contains(m) || (m.topic_id
            == topic_id && ids.contains(m.category_id))) by {
            if !prev.contains(m) {
                assert(m == row);
                assert(ids[ids.len() - 1] == ids.last());
            } else {
                if !maps.contains(m) {
                    let w = choose|w: int| 0 <= w < ids.drop_last().len() && ids.drop_last()[w]
                        == m.category_id;
                    assert(ids[w] == m.category_id);
                }
            }
        }
        assert forall|m: TopicCatRow|
            (maps.contains(m) || (m.topic_id == topic_id && ids.contains(
                m.category_id,
            ))) implies add_tc_links(maps, topic_id, ids).contains(m) by {
            if maps.contains(m) {
                assert(prev.contains(m));
                if !prev.contains(row) {
                    let w = choose|w: int| 0 <= w < prev.len() && prev[w] == m;
                    assert(prev.push(row)[w] == m);
                }
            } else {
                let w = choose|w: int| 0 <= w < ids.len() && ids[w] == m.category_id;
                if w < ids.len() - 1 {
                    assert(ids.drop_last()[w] == m.category_id);
                    assert(prev.contains(m));
                    if !prev.contains(row) {
                        let v = choose|v: int| 0 <= v < prev.len() && prev[v] == m;
                        assert(prev.push(row)[v] == m);
                    }
                } else {
                    assert(m == row);
                    if !prev.contains(row) {
                        assert(prev.push(row)[prev.len() as int] == row);
                    }
                }
            }
        }
    }
}

/// The same statement for bookmark mapping rows.
pub proof fn lemma_add_bc_links(maps: Seq<BookmarkCatRow>, bookmark_id: i64, ids: Seq<i64>)
    ensures
        forall|m: BookmarkCatRow|
            add_bc_links(maps, bookmark_id, ids).contains(m) <==> (maps.contains(m) || (
            m.bookmark_id == bookmark_id && ids.contains(m.category_id))),
        (forall|i: int, j: int| 0 <= i < j < maps.len() ==> maps[i] != maps[j]) ==> (forall|
            i: int,
            j: int,
        |
            0 <= i < j < add_bc_links(maps, bookmark_id, ids).len() ==> add_bc_links(
                maps,
                bookmark_id,
                ids,
            )[i] != add_bc_links(maps, bookmark_id, ids)[j]),
        maps.len() <= add_bc_links(maps, bookmark_id, ids).len(),
        forall|k: int| 0 <= k < maps.len() ==> add_bc_links(maps, bookmark_id, ids)[k] == maps[k],
    decreases ids.len(),
{
    if ids.len() == 0 {
    } else {
        lemma_add_bc_links(maps, bookmark_id, ids.drop_last());
        let prev = add_bc_links(maps, bookmark_id, ids.drop_last());
        let row = BookmarkCatRow { bookmark_id, category_id: ids.last() };
        assert forall|m: BookmarkCatRow|
            add_bc_links(maps, bookmark_id, ids).contains(m) implies (maps.contains(m) || (
        m.bookmark_id == bookmark_id && ids.contains(m.category_id))) by {
            if !prev.contains(m) {
                assert(m == row);
                assert(ids[ids.len() - 1] == ids.last());
            } else {
                if !maps.contains(m) {
                    let w = choose|w: int| 0 <= w < ids.drop_last().len() && ids.drop_last()[w]
                        == m.category_id;
                    assert(ids[w] == m.category_id);
                }
            }
        }
        assert forall|m: BookmarkCatRow|
            (maps.contains(m) || (m.bookmark_id == bookmark_id && ids.contains(
                m.category_id,
            ))) implies add_bc_links(maps, bookmark_id, ids).contains(m) by {
            if maps.contains(m) {
                assert(prev.contains(m));
                if !prev.contains(row) {
                    let w = choose|w: int| 0 <= w < prev.len() && prev[w] == m;
                    assert(prev.push(row)[w] == m);
                }
            } else {
                let w = choose|w: int| 0 <= w < ids.len() && ids[w] == m.category_id;
                if w < ids.len() - 1 {
                    assert(ids.drop_last()[w] == m.category_id);
                    assert(prev.contains(m));
                    if !prev.contains(row) {
                        let v = choose|v: int| 0 <= v < prev.len() && prev[v] == m;
                        assert(prev.push(row)[v] == m);
                    }
                } else {
                    assert(m == row);
                    if !prev.contains(row) {
                        assert(prev.push(row)[prev.len() as int] == row);
                    }
                }
            }
        }
    }
}

/// The topic mapping rows after idempotently linking each topic in
/// `tids`, in order, to the category `category_id`.
pub open spec fn add_ct_links(maps: Seq<TopicCatRow>, category_id: i64, tids: Seq<i64>) -> Seq<
    TopicCatRow,
>
    decreases tids.len(),
{
    if tids.len() == 0 {
        maps
    } else {
        let prev = add_ct_links(maps, category_id, tids.drop_last());
        let row = TopicCatRow { topic_id: tids.last(), category_id };
        if prev.contains(row) {
            prev
        } else {
            prev.push(row)
        }
    }
}

/// Idempotent linking of topics to one category adds exactly the missing
/// pairs and preserves pairwise distinctness.
pub proof fn lemma_add_ct_links(maps: Seq<TopicCatRow>, category_id: i64, tids: Seq<i64>)
    ensures
        forall|m: TopicCatRow|
            add_ct_links(maps, category_id, tids).contains(m) <==> (maps.contains(m) || (
            m.category_id == category_id && tids.contains(m.topic_id))),
        (forall|i: int, j: int| 0 <= i < j < maps.len() ==> maps[i] != maps[j]) ==> (forall|
            i: int,
            j: int,
        |
            0 <= i < j < add_ct_links(maps, category_id, tids).len() ==> add_ct_links(
                maps,
                category_id,
                tids,
            )[i] != add_ct_links(maps, category_id, tids)[j]),
        maps.len() <= add_ct_links(maps, category_id, tids).len(),
        forall|k: int| 0 <= k < maps.len() ==> add_ct_links(maps, category_id, tids)[k] == maps[k],
    decreases tids.len(),
{
    if tids.len() == 0 {
    } else {
        lemma_add_ct_links(maps, category_id, tids.drop_last());
        let prev = add_ct_links(maps, category_id, tids.drop_last());
        let row = TopicCatRow { topic_id: tids.last(), category_id };
        assert forall|m: TopicCatRow|
            add_ct_links(maps, category_id, tids).contains(m) implies (maps.contains(m) || (
        m.category_id == category_id && tids.contains(m.topic_id))) by {
            if !prev.contains(m) {
                assert(m == row);
                assert(tids[tids.len() - 1] == tids.last());
            } else {
                if !maps.contains(m) {
                    let w = choose|w: int| 0 <= w < tids.drop_last().len() && tids.drop_last()[w]
                        == m.topic_id;
                    assert(tids[w] == m.topic_id);
                }
            }
        }
        assert forall|m: TopicCatRow|
            (maps.contains(m) || (m.category_id == category_id && tids.contains(
                m.topic_id,
            ))) implies add_ct_links(maps, category_id, tids).contains(m) by {
            if maps.contains(m) {
                assert(prev.contains(m));
                if !prev.contains(row) {
                    let w = choose|w: int| 0 <= w < prev.len() && prev[w] == m;
                    assert(prev.push(row)[w] == m);
                }
            } else {
                let w = choose|w: int| 0 <= w < tids.len() && tids[w] == m.topic_id;
                if w < tids.len() - 1 {
                    assert(tids.drop_last()[w] == m.topic_id);
                    assert(prev.contains(m));
                    if !prev.contains(row) {
                        let v = choose|v: int| 0 <= v < prev.len() && prev[v] == m;
                        assert(prev.push(row)[v] == m);
                    }
                } else {
                    assert(m == row);
                    if !prev.contains(row) {
                        assert(prev.push(row)[prev.len() as int] == row);
                    }
                }
            }
        }
    }
}

/// True when `cid` is the identifier of one of the user's categories whose
/// name is in `names`: the name-based lookup that scopes mapping removal.
pub open spec fn named_link(
    cats: Seq<CatRow>,
    user: Seq<char>,
    names: Seq<Seq<char>>,
    cid: i64,
) -> bool {
    exists|k: int|
        0 <= k < cats.len() && (#[trigger] cats[k]).user_id@ == user && cats[k].id == cid
            && names.contains(cats[k].name@)
}

/// The bookmark mapping rows left after removing the links of
/// `bookmark_id` to the user's categories named in `names`; other owners'
/// rows and other bookmarks' rows are untouched.
pub open spec fn drop_named_bc_links(
    maps: Seq<BookmarkCatRow>,
    bookmark_id: i64,
    cats: Seq<CatRow>,
    user: Seq<char>,
    names: Seq<Seq<char>>,
) -> Seq<BookmarkCatRow>
    decreases maps.len(),
{
    if maps.len() == 0 {
        maps
    } else {
        let prev = drop_named_bc_links(maps.drop_last(), bookmark_id, cats, user, names);
        let m = maps.last();
        if m.bookmark_id == bookmark_id && named_link(cats, user, names, m.category_id) {
            prev
        } else {
            prev.push(m)
        }
    }
}

/// The topic mapping rows left after removing the links of `topic_id` to
/// the user's categories named in `names`.
pub open spec fn drop_named_tc_links(
    maps: Seq<TopicCatRow>,
    topic_id: i64,
    cats: Seq<CatRow>,
    user: Seq<char>,
    names: Seq<Seq<char>>,
) -> Seq<TopicCatRow>
    decreases maps.len(),
{
    if maps.len() == 0 {
        maps
    } else {
        let prev = drop_named_tc_links(maps.drop_last(), topic_id, cats, user, names);
        let m = maps.last();
        if m.topic_id == topic_id && named_link(cats, user, names, m.category_id) {
            prev
        } else {
            prev.push(m)
        }
    }
}

/// The bookmark mapping rows left after removing every row of
/// `bookmark_id`: the cascade step of bookmark deletion.
pub open spec fn without_bookmark(maps: Seq<BookmarkCatRow>, bookmark_id: i64) -> Seq<
    BookmarkCatRow,
>
    decreases maps.len(),
{
    if maps.len() == 0 {
        maps
    } else {
        let prev = without_bookmark(maps.drop_last(), bookmark_id);
        let m = maps.last();
        if m.bookmark_id == bookmark_id {
            prev
        } else {
            prev.push(m)
        }
    }
}

/// Name-scoped removal keeps exactly the rows it does not target, and
/// preserves pairwise distinctness.
pub proof fn lemma_drop_named_bc_links(
    maps: Seq<BookmarkCatRow>,
    bookmark_id: i64,
    cats: Seq<CatRow>,
    user: Seq<char>,
    names: Seq<Seq<char>>,
)
    ensures
        forall|m: BookmarkCatRow|
            drop_named_bc_links(maps, bookmark_id, cats, user, names).contains(m) <==> (
            maps.contains(m) && !(m.bookmark_id == bookmark_id && named_link(
                cats,
                user,
                names,
                m.category_id,
            ))),
        (forall|i: int, j: int| 0 <= i < j < maps.len() ==> maps[i] != maps[j]) ==> (forall|
            i: int,
            j: int,
        |
            0 <= i < j < drop_named_bc_links(maps, bookmark_id, cats, user, names).len()
                ==> drop_named_bc_links(maps, bookmark_id, cats, user, names)[i]
                != drop_named_bc_links(maps, bookmark_id, cats, user, names)[j]),
    decreases maps.len(),
{
    if maps.len() == 0 {
    } else {
        lemma_drop_named_bc_links(maps.drop_last(), bookmark_id, cats, user, names);
        let prev = drop_named_bc_links(maps.drop_last(), bookmark_id, cats, user, names);
        let m0 = maps.last();
        assert(maps[maps.len() - 1] == m0);
        assert forall|m: BookmarkCatRow|
            drop_named_bc_links(maps, bookmark_id, cats, user, names).contains(m) implies (
        maps.contains(m) && !(m.bookmark_id == bookmark_id && named_link(
            cats,
            user,
            names,
            m.category_id,
        ))) by {
            if prev.contains(m) {
                assert(maps.drop_last().contains(m));
                let w = choose|w: int|
                    0 <= w < maps.drop_last().len() && maps.drop_last()[w] == m;
                assert(maps[w] == m);
            } else {
                assert(m == m0);
            }
        }
        assert forall|m: BookmarkCatRow|
            (maps.contains(m) && !(m.bookmark_id == bookmark_id && named_link(
                cats,
                user,
                names,
                m.category_id,
            ))) implies drop_named_bc_links(maps, bookmark_id, cats, user, names).contains(m) by {
            let w = choose|w: int| 0 <= w < maps.len() && maps[w] == m;
            if w < maps.len() - 1 {
                assert(maps.drop_last()[w] == m);
                assert(maps.drop_last().contains(m));
                assert(prev.contains(m));
                if !(m0.bookmark_id == bookmark_id && named_link(cats, user, names, m0.category_id)) {
                    let v = choose|v: int| 0 <= v < prev.len() && prev[v] == m;
                    assert(prev.push(m0)[v] == m);
                }
            } else {
                assert(m == m0);
                assert(prev.push(m0)[prev.len() as int] == m);
            }
        }
        if forall|i: int, j: int| 0 <= i < j < maps.len() ==> maps[i] != maps[j] {
            assert forall|i: int, j: int|
                0 <= i < j < maps.drop_last().len() implies maps.drop_last()[i]
                != maps.drop_last()[j] by {
                assert(maps[i] == maps.drop_last()[i]);
                assert(maps[j] == maps.drop_last()[j]);
            }
            if !(m0.bookmark_id == bookmark_id && named_link(cats, user, names, m0.category_id)) {
                assert forall|i: int, j: int|
                    0 <= i < j < prev.push(m0).len() implies prev.push(m0)[i] != prev.push(
                    m0,
                )[j] by {
                    if j == prev.len() as int {
                        if prev[i] == m0 {
                            assert(prev.contains(m0));
                            assert(maps.drop_last().contains(m0));
                            let w = choose|w: int|
                                0 <= w < maps.drop_last().len() && maps.drop_last()[w] == m0;
                            assert(maps[w] == m0);
                            assert(maps[maps.len() - 1] == m0);
                        }
                    }
                }
            }
        }
    }
}

/// The same statement for topic mapping rows.
pub proof fn lemma_drop_named_tc_links(
    maps: Seq<TopicCatRow>,
    topic_id: i64,
    cats: Seq<CatRow>,
    user: Seq<char>,
    names: Seq<Seq<char>>,
)
    ensures
        forall|m: TopicCatRow|
            drop_named_tc_links(maps, topic_id, cats, user, names).contains(m) <==> (maps.contains(
                m,
            ) && !(m.topic_id == topic_id && named_link(cats, user, names, m.category_id))),
        (forall|i: int, j: int| 0 <= i < j < maps.len() ==> maps[i] != maps[j]) ==> (forall|
            i: int,
            j: int,
        |
            0 <= i < j < drop_named_tc_links(maps, topic_id, cats, user, names).len()
                ==> drop_named_tc_links(maps, topic_id, cats, user, names)[i]
                != drop_named_tc_links(maps, topic_id, cats, user, names)[j]),
    decreases maps.len(),
{
    if maps.len() == 0 {
    } else {
        lemma_drop_named_tc_links(maps.drop_last(), topic_id, cats, user, names);
        let prev = drop_named_tc_links(maps.drop_last(), topic_id, cats, user, names);
        let m0 = maps.last();
        assert(maps[maps.len() - 1] == m0);
        assert forall|m: TopicCatRow|
            drop_named_tc_links(maps, topic_id, cats, user, names).contains(m) implies (
        maps.contains(m) && !(m.topic_id == topic_id && named_link(
            cats,
            user,
            names,
            m.category_id,
        ))) by {
            if prev.contains(m) {
                assert(maps.drop_last().contains(m));
                let w = choose|w: int|
                    0 <= w < maps.drop_last().len() && maps.drop_last()[w] == m;
                assert(maps[w] == m);
            } else {
                assert(m == m0);
            }
        }
        assert forall|m: TopicCatRow|
            (maps.contains(m) && !(m.topic_id == topic_id && named_link(
                cats,
                user,
                names,
                m.category_id,
            ))) implies drop_named_tc_links(maps, topic_id, cats, user, names).contains(m) by {
            let w = choose|w: int| 0 <= w < maps.len() && maps[w] == m;
            if w < maps.len() - 1 {
                assert(maps.drop_last()[w] == m);
                assert(maps.drop_last().contains(m));
                assert(prev.contains(m));
                if !(m0.topic_id == topic_id && named_link(cats, user, names, m0.category_id)) {
                    let v = choose|v: int| 0 <= v < prev.len() && prev[v] == m;
                    assert(prev.push(m0)[v] == m);
                }
            } else {
                assert(m == m0);
                assert(prev.push(m0)[prev.len() as int] == m);
            }
        }
        if forall|i: int, j: int| 0 <= i < j < maps.len() ==> maps[i] != maps[j] {
            assert forall|i: int, j: int|
                0 <= i < j < maps.drop_last().len() implies maps.drop_last()[i]
                != maps.drop_last()[j] by {
                assert(maps[i] == maps.drop_last()[i]);
                assert(maps[j] == maps.drop_last()[j]);
            }
            if !(m0.topic_id == topic_id && named_link(cats, user, names, m0.category_id)) {
                assert forall|i: int, j: int|
                    0 <= i < j < prev.push(m0).len() implies prev.push(m0)[i] != prev.push(
                    m0,
                )[j] by {
                    if j == prev.len() as int {
                        if prev[i] == m0 {
                            assert(prev.contains(m0));
                            assert(maps.drop_last().contains(m0));
                            let w = choose|w: int|
                                0 <= w < maps.drop_last().len() && maps.drop_last()[w] == m0;
                            assert(maps[w] == m0);
                            assert(maps[maps.len() - 1] == m0);
                        }
                    }
                }
            }
        }
    }
}

/// Cascade removal keeps exactly the rows of other bookmarks, and
/// preserves pairwise distinctness.
pub proof fn lemma_without_bookmark(maps: Seq<BookmarkCatRow>, bookmark_id: i64)
    ensures
        forall|m: BookmarkCatRow|
            without_bookmark(maps, bookmark_id).contains(m) <==> (maps.contains(m)
                && m.bookmark_id != bookmark_id),
        (forall|i: int, j: int| 0 <= i < j < maps.len() ==> maps[i] != maps[j]) ==> (forall|
            i: int,
            j: int,
        |
            0 <= i < j < without_bookmark(maps, bookmark_id).len() ==> without_bookmark(
                maps,
                bookmark_id,
            )[i] != without_bookmark(maps, bookmark_id)[j]),
    decreases maps.len(),
{
    if maps.len() == 0 {
    } else {
        lemma_without_bookmark(maps.drop_last(), bookmark_id);
        let prev = without_bookmark(maps.drop_last(), bookmark_id);
        let m0 = maps.last();
        assert(maps[maps.len() - 1] == m0);
        assert forall|m: BookmarkCatRow|
            without_bookmark(maps, bookmark_id).contains(m) implies (maps.contains(m)
            && m.bookmark_id != bookmark_id) by {
            if prev.contains(m) {
                assert(maps.drop_last().contains(m));
                let w = choose|w: int|
                    0 <= w < maps.drop_last().len() && maps.drop_last()[w] == m;
                assert(maps[w] == m);
            } else {
                assert(m == m0);
            }
        }
        assert forall|m: BookmarkCatRow|
            (maps.contains(m) && m.bookmark_id != bookmark_id) implies without_bookmark(
            maps,
            bookmark_id,
        ).contains(m) by {
            let w = choose|w: int| 0 <= w < maps.len() && maps[w] == m;
            if w < maps.len() - 1 {
                assert(maps.drop_last()[w] == m);
                assert(maps.drop_last().contains(m));
                assert(prev.contains(m));
                if m0.bookmark_id != bookmark_id {
                    let v = choose|v: int| 0 <= v < prev.len() && prev[v] == m;
                    assert(prev.push(m0)[v] == m);
                }
            } else {
                assert(m == m0);
                assert(prev.push(m0)[prev.len() as int] == m);
            }
        }
        if forall|i: int, j: int| 0 <= i < j < maps.len() ==> maps[i] != maps[j] {
            assert forall|i: int, j: int|
                0 <= i < j < maps.drop_last().len() implies maps.drop_last()[i]
                != maps.drop_last()[j] by {
                assert(maps[i] == maps.drop_last()[i]);
                assert(maps[j] == maps.drop_last()[j]);
            }
            if m0.bookmark_id != bookmark_id {
                assert forall|i: int, j: int|
                    0 <= i < j < prev.push(m0).len() implies prev.push(m0)[i] != prev.push(
                    m0,
                )[j] by {
                    if j == prev.len() as int {
                        if prev[i] == m0 {
                            assert(prev.contains(m0));
                            assert(maps.drop_last().contains(m0));
                            let w = choose|w: int|
                                0 <= w < maps.drop_last().len() && maps.drop_last()[w] == m0;
                            assert(maps[w] == m0);
                            assert(maps[maps.len() - 1] == m0);
                        }
                    }
                }
            }
        }
    }
}

/// The in-memory store.
pub struct Store {
    pub categories: Vec<CatRow>,
    pub topics: Vec<TopicRec>,
    pub bookmarks: Vec<BookmarkRec>,
    pub topic_cat: Vec<TopicCatRow>,
    pub bookmark_cat: Vec<BookmarkCatRow>,
    pub next_id: i64,
}

impl Store {
    /// Category identifiers are unique, positive and below the sequence;
    /// `(name, user_id)` is unique among categories.
    pub open spec fn categories_wf(self) -> bool {
        let cats = self.categories@;
        &&& forall|i: int| 0 <= i < cats.len() ==> 1 <= (#[trigger] cats[i]).id < self.next_id
        &&& forall|i: int, j: int|
            0 <= i < j < cats.len() ==> (#[trigger] cats[i]).id != (#[trigger] cats[j]).id
        &&& forall|i: int, j: int|
            0 <= i < j < cats.len() ==> !((#[trigger] cats[i]).user_id@ == (#[trigger] cats[j]).user_id@
                && cats[i].name@ == cats[j].name@)
    }

    /// Topic identifiers are unique, positive and below the sequence;
    /// `(name, user_id)` is unique among topics.
    pub open spec fn topics_wf(self) -> bool {
        let ts = self.topics@;
        &&& forall|i: int| 0 <= i < ts.len() ==> 1 <= (#[trigger] ts[i]).id < self.next_id
        &&& forall|i: int, j: int|
            0 <= i < j < ts.len() ==> (#[trigger] ts[i]).id != (#[trigger] ts[j]).id
        &&& forall|i: int, j: int|
            0 <= i < j < ts.len() ==> !((#[trigger] ts[i]).user_id@ == (#[trigger] ts[j]).user_id@
                && ts[i].name@ == ts[j].name@)
    }

    /// Bookmark identifiers are unique, positive and below the sequence.
    pub open spec fn bookmarks_wf(self) -> bool {
        let bs = self.bookmarks@;
        &&& forall|i: int| 0 <= i < bs.len() ==> 1 <= (#[trigger] bs[i]).id < self.next_id
        &&& forall|i: int, j: int|
            0 <= i < j < bs.len() ==> (#[trigger] bs[i]).id != (#[trigger] bs[j]).id
    }

    /// Junction pairs are unique, and every bookmark mapping row references
    /// an existing bookmark: a deleted bookmark never leaves dangling
    /// mapping rows behind.
    pub open spec fn links_wf(self) -> bool {
        let tc = self.topic_cat@;
        let bc = self.bookmark_cat@;
        &&& forall|i: int, j: int| 0 <= i < j < tc.len() ==> tc[i] != tc[j]
        &&& forall|i: int, j: int| 0 <= i < j < bc.len() ==> bc[i] != bc[j]
        &&& forall|i: int|
            0 <= i < bc.len() ==> has_bookmark_in(self.bookmarks@, (#[trigger] bc[i]).bookmark_id)
        &&& forall|i: int|
            0 <= i < tc.len() ==> 1 <= (#[trigger] tc[i]).topic_id < self.next_id && 1
                <= tc[i].category_id < self.next_id
        &&& forall|i: int| 0 <= i < bc.len() ==> 1 <= (#[trigger] bc[i]).category_id < self.next_id
    }

    /// True when an identifier was handed out by the sequence at some
    /// point: the only identifiers a junction row may reference.
    pub open spec fn id_allocated(self, id: i64) -> bool {
        1 <= id < self.next_id
    }

    /// The store invariant.
    pub open spec fn wf(self) -> bool {
        &&& 1 <= self.next_id
        &&& self.categories_wf()
        &&& self.topics_wf()
        &&& self.bookmarks_wf()
        &&& self.links_wf()
    }

    pub open spec fn has_cat(self, user: Seq<char>, name: Seq<char>) -> bool {
        has_cat_in(self.categories@, user, name)
    }

    pub open spec fn cat_index(self, user: Seq<char>, name: Seq<char>) -> int {
        cat_index_in(self.categories@, user, name)
    }

    /// The category row keyed by the given owner and name.
    pub open spec fn cat_by_key(self, user: Seq<char>, name: Seq<char>) -> CatRow {
        self.categories@[self.cat_index(user, name)]
    }

    pub open spec fn has_topic(self, user: Seq<char>, name: Seq<char>) -> bool {
        has_topic_in(self.topics@, user, name)
    }

    pub open spec fn topic_index(self, user: Seq<char>, name: Seq<char>) -> int {
        topic_index_in(self.topics@, user, name)
    }

    /// The topic row keyed by the given owner and name.
    pub open spec fn topic_by_key(self, user: Seq<char>, name: Seq<char>) -> TopicRec {
        self.topics@[self.topic_index(user, name)]
    }

    pub open spec fn has_bookmark(self, id: i64) -> bool {
        has_bookmark_in(self.bookmarks@, id)
    }

    pub open spec fn bookmark_index(self, id: i64) -> int {
        bookmark_index_in(self.bookmarks@, id)
    }

    /// The bookmark row with the given identifier.
    pub open spec fn bookmark_by_id(self, id: i64) -> BookmarkRec {
        self.bookmarks@[self.bookmark_index(id)]
    }

    /// True when the topic is linked to the category.
    pub open spec fn has_topic_link(self, topic_id: i64, category_id: i64) -> bool {
        self.topic_cat@.contains(TopicCatRow { topic_id, category_id })
    }

    /// True when the bookmark is linked to the category.
    pub open spec fn has_bm_link(self, bookmark_id: i64, category_id: i64) -> bool {
        self.bookmark_cat@.contains(BookmarkCatRow { bookmark_id, category_id })
    }

    /// Creates an empty store.
    pub fn new() -> (s: Store)
        ensures
            s.wf(),
            s.categories@ =~= Seq::<CatRow>::empty(),
            s.topics@ =~= Seq::<TopicRec>::empty(),
            s.bookmarks@ =~= Seq::<BookmarkRec>::empty(),
            s.topic_cat@ =~= Seq::<TopicCatRow>::empty(),
            s.bookmark_cat@ =~= Seq::<BookmarkCatRow>::empty(),
            s.next_id == 1,
    {
        Store {
            categories: Vec::new(),
            topics: Vec::new(),
            bookmarks: Vec::new(),
            topic_cat: Vec::new(),
            bookmark_cat: Vec::new(),
            next_id: 1,
        }
    }

    /// Finds the category row keyed by `(name, user_id)`; both predicates
    /// are always applied together, so one user never sees another's rows.
    pub fn find_cat(&self, user_id: &str, name: &str) -> (r: Option<usize>)
        requires
            self.wf(),
        ensures
            r is Some <==> self.has_cat(user_id@, name@),
            r matches Some(i) ==> 0 <= i < self.categories@.len() && cat_keyed(
                self.categories@[i as int],
                user_id@,
                name@,
            ) && i as int == self.cat_index(user_id@, name@),
    {
        let n = self.categories.len();
        let mut i: usize = 0;
        while i < n
            invariant
                self.wf(),
                0 <= i <= n,
                n == self.categories@.len(),
                forall|k: int| 0 <= k < i ==> !cat_keyed(self.categories@[k], user_id@, name@),
            decreases n - i,
        {
            let c = &self.categories[i];
            if crate::order::str_eq(c.user_id.as_str(), user_id) && crate::order::str_eq(
                c.name.as_str(),
                name,
            ) {
                proof {
                    assert(cat_keyed(self.categories@[i as int], user_id@, name@));
                    let j = self.cat_index(user_id@, name@);
                    assert(cat_keyed(self.categories@[j], user_id@, name@));
                    if i as int != j {
                        assert(false);
                    }
                }
                return Some(i);
            }
            i = i + 1;
        }
        None
    }

    /// Finds the topic row keyed by `(name, user_id)`.
    pub fn find_topic(&self, user_id: &str, name: &str) -> (r: Option<usize>)
        requires
            self.wf(),
        ensures
            r is Some <==> self.has_topic(user_id@, name@),
            r matches Some(i) ==> 0 <= i < self.topics@.len() && topic_keyed(
                self.topics@[i as int],
                user_id@,
                name@,
            ) && i as int == self.topic_index(user_id@, name@),
    {
        let n = self.topics.len();
        let mut i: usize = 0;
        while i < n
            invariant
                self.wf(),
                0 <= i <= n,
                n == self.topics@.len(),
                forall|k: int| 0 <= k < i ==> !topic_keyed(self.topics@[k], user_id@, name@),
            decreases n - i,
        {
            let t = &self.topics[i];
            if crate::order::str_eq(t.user_id.as_str(), user_id) && crate::order::str_eq(
                t.name.as_str(),
                name,
            ) {
                proof {
                    assert(topic_keyed(self.topics@[i as int], user_id@, name@));
                    let j = self.topic_index(user_id@, name@);
                    assert(topic_keyed(self.topics@[j], user_id@, name@));
                    if i as int != j {
                        assert(false);
                    }
                }
                return Some(i);
            }
            i = i + 1;
        }
        None
    }

    /// Finds the bookmark row with the given identifier.
    pub fn find_bookmark(&self, id: i64) -> (r: Option<usize>)
        requires
            self.wf(),
        ensures
            r is Some <==> self.has_bookmark(id),
            r matches Some(i) ==> 0 <= i < self.bookmarks@.len() && self.bookmarks@[i as int].id
                == id && i as int == self.bookmark_index(id),
    {
        let n = self.bookmarks.len();
        let mut i: usize = 0;
        while i < n
            invariant
                self.wf(),
                0 <= i <= n,
                n == self.bookmarks@.len(),
                forall|k: int| 0 <= k < i ==> (#[trigger] self.bookmarks@[k]).id != id,
            decreases n - i,
        {
            if self.bookmarks[i].id == id {
                proof {
                    let j = self.bookmark_index(id);
                    assert(self.bookmarks@[j].id == id);
                    if i as int != j {
                        assert(false);
                    }
                }
                return Some(i);
            }
            i = i + 1;
        }
        None
    }

    /// Finds the category row with the given identifier.
    pub fn find_cat_by_id(&self, id: i64) -> (r: Option<usize>)
        requires
            self.wf(),
        ensures
            r is Some <==> has_cat_id_in(self.categories@, id),
            r matches Some(i) ==> 0 <= i < self.categories@.len() && self.categories@[i as int].id
                == id && i as int == cat_index_by_id(self.categories@, id),
    {
        let n = self.categories.len();
        let mut i: usize = 0;
        while i < n
            invariant
                self.wf(),
                0 <= i <= n,
                n == self.categories@.len(),
                forall|k: int| 0 <= k < i ==> (#[trigger] self.categories@[k]).id != id,
            decreases n - i,
        {
            if self.categories[i].id == id {
                proof {
                    let j = cat_index_by_id(self.categories@, id);
                    assert(self.categories@[j].id == id);
                    if i as int != j {
                        assert(false);
                    }
                }
                return Some(i);
            }
            i = i + 1;
        }
        None
    }

    /// Inserts a category row without an upsert clause: a duplicate
    /// `(name, user_id)` is a conflict and nothing changes.
    pub fn cat_insert(&mut self, row: CatRowI, now: i64) -> (r: Result<i64, StoreError>)
        requires
            old(self).wf(),
        ensures
            final(self).wf(),
            r is Ok <==> (!old(self).has_cat(row.user_id@, row.name@) && old(self).next_id
                < i64::MAX),
            r matches Ok(id) ==> id == old(self).next_id && final(self).categories@ == old(self).categories@.push(cat_row_from(row, id, now)) && final(self).next_id == old(self).next_id + 1,
            r matches Err(e) ==> *final(self) == *old(self) && (if old(self).has_cat(
                row.user_id@,
                row.name@,
            ) {
                e == StoreError::Conflict(EntityKind::Category)
            } else {
                e == StoreError::Unavailable
            }),
            final(self).topics == old(self).topics,
            final(self).bookmarks == old(self).bookmarks,
            final(self).topic_cat == old(self).topic_cat,
            final(self).bookmark_cat == old(self).bookmark_cat,
    {
        let ghost u = row.user_id@;
        let ghost nm = row.name@;
        let ghost cats0 = self.categories@;
        if self.find_cat(row.user_id.as_str(), row.name.as_str()).is_some() {
            return Err(StoreError::Conflict(EntityKind::Category));
        }
        if self.next_id == i64::MAX {
            return Err(StoreError::Unavailable);
        }
        let id = self.next_id;
        self.next_id = self.next_id + 1;
        let stored = CatRow {
            id,
            name: row.name,
            display_name: row.display_name,
            description: row.description,
            about: row.about,
            priority: row.priority,
            active: row.active,
            public: row.public,
            user_id: row.user_id,
            created_on: now,
            updated_on: now,
        };
        self.categories.push(stored);
        proof {
            let cats1 = self.categories@;
            assert forall|i: int, j: int| 0 <= i < j < cats1.len() implies !((
            #[trigger] cats1[i]).user_id@ == (#[trigger] cats1[j]).user_id@ && cats1[i].name@
                == cats1[j].name@) by {
                if j == cats1.len() - 1 {
                    assert(!cat_keyed(cats0[i], u, nm));
                    assert(cats1[j].user_id@ == u && cats1[j].name@ == nm);
                }
            }
        }
        Ok(id)
    }

    /// Inserts a topic row without an upsert clause: a duplicate
    /// `(name, user_id)` is a conflict and nothing changes.
    pub fn topic_insert(&mut self, row: TopicRowI, now: i64) -> (r: Result<i64, StoreError>)
        requires
            old(self).wf(),
        ensures
            final(self).wf(),
            r is Ok <==> (!old(self).has_topic(row.user_id@, row.name@) && old(self).next_id
                < i64::MAX),
            r matches Ok(id) ==> id == old(self).next_id && final(self).topics@ == old(self).topics@.push(topic_rec_from(row, id, now)) && final(self).next_id == old(self).next_id + 1,
            r matches Err(e) ==> *final(self) == *old(self) && (if old(self).has_topic(
                row.user_id@,
                row.name@,
            ) {
                e == StoreError::Conflict(EntityKind::Topic)
            } else {
                e == StoreError::Unavailable
            }),
            final(self).categories == old(self).categories,
            final(self).bookmarks == old(self).bookmarks,
            final(self).topic_cat == old(self).topic_cat,
            final(self).bookmark_cat == old(self).bookmark_cat,
    {
        let ghost u = row.user_id@;
        let ghost nm = row.name@;
        let ghost ts0 = self.topics@;
        if self.find_topic(row.user_id.as_str(), row.name.as_str()).is_some() {
            return Err(StoreError::Conflict(EntityKind::Topic));
        }
        if self.next_id == i64::MAX {
            return Err(StoreError::Unavailable);
        }
        let id = self.next_id;
        self.next_id = self.next_id + 1;
        let stored = TopicRec {
            id,
            name: row.name,
            display_name: row.display_name,
            description: row.description,
            about: row.about,
            priority: row.priority,
            active: row.active,
            public: row.public,
            user_id: row.user_id,
            created_on: now,
            updated_on: now,
        };
        self.topics.push(stored);
        proof {
            let ts1 = self.topics@;
            assert forall|i: int, j: int| 0 <= i < j < ts1.len() implies !((
            #[trigger] ts1[i]).user_id@ == (#[trigger] ts1[j]).user_id@ && ts1[i].name@
                == ts1[j].name@) by {
                if j == ts1.len() - 1 {
                    assert(!topic_keyed(ts0[i], u, nm));
                    assert(ts1[j].user_id@ == u && ts1[j].name@ == nm);
                }
            }
        }
        Ok(id)
    }

    /// Inserts a bookmark row; the row carries its own timestamps.
    pub fn bookmark_insert(&mut self, row: BookmarkI) -> (r: Result<i64, StoreError>)
        requires
            old(self).wf(),
        ensures
            final(self).wf(),
            r is Ok <==> old(self).next_id < i64::MAX,
            r matches Ok(id) ==> id == old(self).next_id && final(self).bookmarks@ == old(self).bookmarks@.push(crate::rows::bookmark_rec_from(row, id)) && final(self).next_id
                == old(self).next_id + 1,
            r is Err ==> *final(self) == *old(self) && r == Err::<i64, StoreError>(
                StoreError::Unavailable,
            ),
            final(self).categories == old(self).categories,
            final(self).topics == old(self).topics,
            final(self).topic_cat == old(self).topic_cat,
            final(self).bookmark_cat == old(self).bookmark_cat,
    {
        if self.next_id == i64::MAX {
            return Err(StoreError::Unavailable);
        }
        let id = self.next_id;
        self.next_id = self.next_id + 1;
        let stored = BookmarkRec {
            id,
            url: row.url,
            user_id: row.user_id,
            title: row.title,
            content: row.content,
            referrer: row.referrer,
            status: row.status,
            created_on: row.created_on,
            updated_on: row.updated_on,
        };
        self.bookmarks.push(stored);
        proof {
            assert forall|i: int|
                0 <= i < self.bookmark_cat@.len() implies has_bookmark_in(
                self.bookmarks@,
                (#[trigger] self.bookmark_cat@[i]).bookmark_id,
            ) by {
                assert(has_bookmark_in(old(self).bookmarks@, self.bookmark_cat@[i].bookmark_id));
                let w = bookmark_index_in(old(self).bookmarks@, self.bookmark_cat@[i].bookmark_id);
                assert(self.bookmarks@[w].id == self.bookmark_cat@[i].bookmark_id);
            }
        }
        Ok(id)
    }

    /// Looks up a category by name for a user; absence is not an error at
    /// this layer.
    pub fn cat_get_by_name(&self, user_id: &str, name: &str) -> (r: Option<CatRow>)
        requires
            self.wf(),
        ensures
            r is Some <==> self.has_cat(user_id@, name@),
            r matches Some(c) ==> c == self.cat_by_key(user_id@, name@),
    {
        match self.find_cat(user_id, name) {
            Some(i) => Some(self.categories[i].duplicate()),
            None => None,
        }
    }

    /// Looks up a category's identifier by name for a user.
    pub fn cat_get_id_by_name(&self, user_id: &str, name: &str) -> (r: Option<i64>)
        requires
            self.wf(),
        ensures
            r is Some <==> self.has_cat(user_id@, name@),
            r matches Some(id) ==> id == self.cat_by_key(user_id@, name@).id,
    {
        match self.find_cat(user_id, name) {
            Some(i) => Some(self.categories[i].id),
            None => None,
        }
    }

    /// Looks up a topic's identifier by name for a user.
    pub fn topic_get_id_by_name(&self, user_id: &str, name: &str) -> (r: Option<i64>)
        requires
            self.wf(),
        ensures
            r is Some <==> self.has_topic(user_id@, name@),
            r matches Some(id) ==> id == self.topic_by_key(user_id@, name@).id,
    {
        match self.find_topic(user_id, name) {
            Some(i) => Some(self.topics[i].id),
            None => None,
        }
    }

    /// Deletes the category keyed by `(name, user_id)`; `NotFound` if no
    /// row matched.  Mapping rows are not cascaded: their deletion is an
    /// explicit, separate operation.
    pub fn cat_delete(&mut self, user_id: &str, name: &str) -> (r: Result<i64, StoreError>)
        requires
            old(self).wf(),
        ensures
            final(self).wf(),
            r is Ok <==> old(self).has_cat(user_id@, name@),
            r matches Ok(id) ==> id == old(self).cat_by_key(user_id@, name@).id && final(self).categories@ == old(self).categories@.remove(
                old(self).cat_index(user_id@, name@),
            ) && final(self).next_id == old(self).next_id,
            r is Err ==> *final(self) == *old(self) && r == Err::<i64, StoreError>(
                StoreError::NotFound(EntityKind::Category),
            ),
            final(self).topics == old(self).topics,
            final(self).bookmarks == old(self).bookmarks,
            final(self).topic_cat == old(self).topic_cat,
            final(self).bookmark_cat == old(self).bookmark_cat,
    {
        match self.find_cat(user_id, name) {
            Some(i) => {
                let id = self.categories[i].id;
                self.categories.remove(i);
                Ok(id)
            },
            None => Err(StoreError::NotFound(EntityKind::Category)),
        }
    }

    /// Deletes the topic keyed by `(name, user_id)`; `NotFound` if no row
    /// matched.
    pub fn topic_delete(&mut self, user_id: &str, name: &str) -> (r: Result<i64, StoreError>)
        requires
            old(self).wf(),
        ensures
            final(self).wf(),
            r is Ok <==> old(self).has_topic(user_id@, name@),
            r matches Ok(id) ==> id == old(self).topic_by_key(user_id@, name@).id && final(self).topics@ == old(self).topics@.remove(old(self).topic_index(user_id@, name@)) && final(self).next_id == old(self).next_id,
            r is Err ==> *final(self) == *old(self) && r == Err::<i64, StoreError>(
                StoreError::NotFound(EntityKind::Topic),
            ),
            final(self).categories == old(self).categories,
            final(self).bookmarks == old(self).bookmarks,
            final(self).topic_cat == old(self).topic_cat,
            final(self).bookmark_cat == old(self).bookmark_cat,
    {
        match self.find_topic(user_id, name) {
            Some(i) => {
                let id = self.topics[i].id;
                self.topics.remove(i);
                Ok(id)
            },
            None => Err(StoreError::NotFound(EntityKind::Topic)),
        }
    }

    /// Finds the index of a topic mapping pair.
    fn find_tc(&self, row: TopicCatRow) -> (r: Option<usize>)
        ensures
            r is Some <==> self.topic_cat@.contains(row),
            r matches Some(i) ==> 0 <= i < self.topic_cat@.len() && self.topic_cat@[i as int]
                == row,
    {
        let n = self.topic_cat.len();
        let mut i: usize = 0;
        while i < n
            invariant
                0 <= i <= n,
                n == self.topic_cat@.len(),
                forall|k: int| 0 <= k < i ==> self.topic_cat@[k] != row,
            decreases n - i,
        {
            if self.topic_cat[i] == row {
                return Some(i);
            }
            i = i + 1;
        }
        proof {
            if self.topic_cat@.contains(row) {
                let w = choose|w: int| 0 <= w < self.topic_cat@.len() && self.topic_cat@[w] == row;
                assert(false);
            }
        }
        None
    }

    /// Finds the index of a bookmark mapping pair.
    fn find_bc(&self, row: BookmarkCatRow) -> (r: Option<usize>)
        ensures
            r is Some <==> self.bookmark_cat@.contains(row),
            r matches Some(i) ==> 0 <= i < self.bookmark_cat@.len() && self.bookmark_cat@[i as int]
                == row,
    {
        let n = self.bookmark_cat.len();
        let mut i: usize = 0;
        while i < n
            invariant
                0 <= i <= n,
                n == self.bookmark_cat@.len(),
                forall|k: int| 0 <= k < i ==> self.bookmark_cat@[k] != row,
            decreases n - i,
        {
            if self.bookmark_cat[i] == row {
                return Some(i);
            }
            i = i + 1;
        }
        proof {
            if self.bookmark_cat@.contains(row) {
                let w = choose|w: int|
                    0 <= w < self.bookmark_cat@.len() && self.bookmark_cat@[w] == row;
                assert(false);
            }
        }
        None
    }

    /// Decides whether the topic is linked to the category.
    pub fn contains_topic_link(&self, topic_id: i64, category_id: i64) -> (r: bool)
        ensures
            r == self.has_topic_link(topic_id, category_id),
    {
        self.find_tc(TopicCatRow { topic_id, category_id }).is_some()
    }

    /// Decides whether the bookmark is linked to the category.
    pub fn contains_bm_link(&self, bookmark_id: i64, category_id: i64) -> (r: bool)
        ensures
            r == self.has_bm_link(bookmark_id, category_id),
    {
        self.find_bc(BookmarkCatRow { bookmark_id, category_id }).is_some()
    }

    /// Links a topic to a category, idempotently: inserting a pair that
    /// is already present succeeds and changes nothing, so the pair is
    /// present exactly once afterwards.  An identifier the sequence never
    /// handed out is refused with `NotFound`.
    pub fn connect(&mut self, topic_id: i64, category_id: i64) -> (r: Result<(), StoreError>)
        requires
            old(self).wf(),
        ensures
            final(self).wf(),
            r is Ok <==> (old(self).id_allocated(topic_id) && old(self).id_allocated(category_id)),
            r is Ok ==> final(self).topic_cat@ == (if old(self).has_topic_link(
                topic_id,
                category_id,
            ) {
                old(self).topic_cat@
            } else {
                old(self).topic_cat@.push(TopicCatRow { topic_id, category_id })
            }),
            r is Ok ==> final(self).has_topic_link(topic_id, category_id),
            r matches Err(e) ==> *final(self) == *old(self) && (if !old(self).id_allocated(
                topic_id,
            ) {
                e == StoreError::NotFound(EntityKind::Topic)
            } else {
                e == StoreError::NotFound(EntityKind::Category)
            }),
            final(self).categories == old(self).categories,
            final(self).topics == old(self).topics,
            final(self).bookmarks == old(self).bookmarks,
            final(self).bookmark_cat == old(self).bookmark_cat,
            final(self).next_id == old(self).next_id,
    {
        if !(1 <= topic_id && topic_id < self.next_id) {
            return Err(StoreError::NotFound(EntityKind::Topic));
        }
        if !(1 <= category_id && category_id < self.next_id) {
            return Err(StoreError::NotFound(EntityKind::Category));
        }
        let row = TopicCatRow { topic_id, category_id };
        if self.find_tc(row).is_some() {
            return Ok(());
        }
        self.topic_cat.push(row);
        proof {
            let tc1 = self.topic_cat@;
            assert forall|i: int, j: int| 0 <= i < j < tc1.len() implies tc1[i] != tc1[j] by {
                if j == tc1.len() - 1 {
                    assert(!old(self).topic_cat@.contains(row));
                    assert(old(self).topic_cat@[i] == tc1[i]);
                    if tc1[i] == row {
                        assert(old(self).topic_cat@.contains(row));
                    }
                }
            }
            assert(tc1[tc1.len() - 1] == row);
            assert(tc1.contains(row));
        }
        Ok(())
    }

    /// Unlinks a topic from a category; removing an absent pair changes
    /// nothing.
    pub fn disconnect(&mut self, topic_id: i64, category_id: i64)
        requires
            old(self).wf(),
        ensures
            final(self).wf(),
            forall|m: TopicCatRow|
                final(self).topic_cat@.contains(m) <==> (old(self).topic_cat@.contains(m) && m
                    != TopicCatRow { topic_id, category_id }),
            final(self).categories == old(self).categories,
            final(self).topics == old(self).topics,
            final(self).bookmarks == old(self).bookmarks,
            final(self).bookmark_cat == old(self).bookmark_cat,
            final(self).next_id == old(self).next_id,
    {
        let row = TopicCatRow { topic_id, category_id };
        match self.find_tc(row) {
            Some(i) => {
                self.topic_cat.remove(i);
                proof {
                    let tc0 = old(self).topic_cat@;
                    let tc1 = self.topic_cat@;
                    assert forall|p: int| 0 <= p < tc1.len() implies tc1[p] == tc0[
                        if p < i as int {
                            p
                        } else {
                            p + 1
                        }
                    ] by {}
                    assert forall|p: int, q: int| 0 <= p < q < tc1.len() implies tc1[p]
                        != tc1[q] by {}
                    assert forall|m: TopicCatRow| tc1.contains(m) implies (tc0.contains(m) && m
                        != row) by {
                        let w = choose|w: int| 0 <= w < tc1.len() && tc1[w] == m;
                        let w0 = if w < i as int {
                            w
                        } else {
                            w + 1
                        };
                        assert(tc0[w0] == m);
                        if m == row {
                            assert(tc0[i as int] == row);
                        }
                    }
                    assert forall|m: TopicCatRow| (tc0.contains(m) && m != row) implies
                        tc1.contains(m) by {
                        let w = choose|w: int| 0 <= w < tc0.len() && tc0[w] == m;
                        if w < i as int {
                            assert(tc1[w] == m);
                        } else {
                            assert(w != i as int);
                            assert(tc1[w - 1] == m);
                        }
                    }
                }
            },
            None => {
                proof {
                    assert forall|m: TopicCatRow|
                        self.topic_cat@.contains(m) implies (old(self).topic_cat@.contains(m) && m
                        != row) by {
                        if m == row {
                            assert(old(self).topic_cat@.contains(row));
                        }
                    }
                }
            },
        }
    }

    /// Decides whether every identifier in the list was handed out by
    /// the sequence at some point.
    fn all_allocated(&self, ids: &Vec<i64>) -> (r: bool)
        ensures
            r == (forall|k: int|
                0 <= k < ids@.len() ==> self.id_allocated(#[trigger] ids@[k])),
    {
        let n = ids.len();
        let mut k: usize = 0;
        while k < n
            invariant
                0 <= k <= n,
                n == ids@.len(),
                forall|w: int| 0 <= w < k ==> self.id_allocated(#[trigger] ids@[w]),
            decreases n - k,
        {
            let id = ids[k];
            if !(1 <= id && id < self.next_id) {
                proof {
                    assert(!self.id_allocated(ids@[k as int]));
                }
                return false;
            }
            k = k + 1;
        }
        true
    }

    /// Idempotently links a topic to each of the given category
    /// identifiers: pairs already present are left alone, never
    /// duplicated; an identifier the sequence never handed out is refused
    /// with `NotFound` before anything is linked.
    pub fn topic_add_category_links(&mut self, topic_id: i64, category_ids: &Vec<i64>) -> (r:
        Result<(), StoreError>)
        requires
            old(self).wf(),
        ensures
            final(self).wf(),
            r is Ok <==> (old(self).id_allocated(topic_id) && (forall|k: int|
                0 <= k < category_ids@.len() ==> old(self).id_allocated(
                    #[trigger] category_ids@[k],
                ))),
            r is Ok ==> final(self).topic_cat@ == add_tc_links(
                old(self).topic_cat@,
                topic_id,
                category_ids@,
            ),
            r matches Err(e) ==> *final(self) == *old(self) && (if !old(self).id_allocated(
                topic_id,
            ) {
                e == StoreError::NotFound(EntityKind::Topic)
            } else {
                e == StoreError::NotFound(EntityKind::Category)
            }),
            final(self).categories == old(self).categories,
            final(self).topics == old(self).topics,
            final(self).bookmarks == old(self).bookmarks,
            final(self).bookmark_cat == old(self).bookmark_cat,
            final(self).next_id == old(self).next_id,
    {
        if !(1 <= topic_id && topic_id < self.next_id) {
            return Err(StoreError::NotFound(EntityKind::Topic));
        }
        if !self.all_allocated(category_ids) {
            return Err(StoreError::NotFound(EntityKind::Category));
        }
        let n = category_ids.len();
        let mut k: usize = 0;
        proof {
            assert(category_ids@.take(0) =~= Seq::<i64>::empty());
        }
        while k < n
            invariant
                0 <= k <= n,
                n == category_ids@.len(),
                old(self).wf(),
                self.topic_cat@ == add_tc_links(old(self).topic_cat@, topic_id, category_ids@.take(k as int)),
                self.categories == old(self).categories,
                self.topics == old(self).topics,
                self.bookmarks == old(self).bookmarks,
                self.bookmark_cat == old(self).bookmark_cat,
                self.next_id == old(self).next_id,
            decreases n - k,
        {
            let row = TopicCatRow { topic_id, category_id: category_ids[k] };
            proof {
                assert(category_ids@.take(k + 1).drop_last() =~= category_ids@.take(k as int));
                assert(category_ids@.take(k + 1).last() == category_ids@[k as int]);
            }
            if self.find_tc(row).is_none() {
                self.topic_cat.push(row);
            }
            k = k + 1;
        }
        proof {
            assert(category_ids@.take(n as int) =~= category_ids@);
            lemma_add_tc_links(old(self).topic_cat@, topic_id, category_ids@);
            assert forall|i: int|
                0 <= i < self.topic_cat@.len() implies 1 <= (#[trigger] self.topic_cat@[i]).topic_id
                < self.next_id && 1 <= self.topic_cat@[i].category_id < self.next_id by {
                let m = self.topic_cat@[i];
                assert(self.topic_cat@.contains(m));
                if old(self).topic_cat@.contains(m) {
                    let w = choose|w: int|
                        0 <= w < old(self).topic_cat@.len() && old(self).topic_cat@[w] == m;
                    assert(1 <= old(self).topic_cat@[w].topic_id < old(self).next_id);
                } else {
                    assert(m.topic_id == topic_id && category_ids@.contains(m.category_id));
                    let w = choose|w: int|
                        0 <= w < category_ids@.len() && category_ids@[w] == m.category_id;
                    assert(self.id_allocated(category_ids@[w]));
                }
            }
        }
        Ok(())
    }

    /// Idempotently links each of the given topics to one category:
    /// pairs already present are left alone, never duplicated; an
    /// identifier the sequence never handed out is refused with
    /// `NotFound` before anything is linked.
    pub fn cat_add_topic_links(&mut self, category_id: i64, topic_ids: &Vec<i64>) -> (r: Result<
        (),
        StoreError,
    >)
        requires
            old(self).wf(),
        ensures
            final(self).wf(),
            r is Ok <==> (old(self).id_allocated(category_id) && (forall|k: int|
                0 <= k < topic_ids@.len() ==> old(self).id_allocated(#[trigger] topic_ids@[k]))),
            r is Ok ==> final(self).topic_cat@ == add_ct_links(
                old(self).topic_cat@,
                category_id,
                topic_ids@,
            ),
            r matches Err(e) ==> *final(self) == *old(self) && (if !old(self).id_allocated(
                category_id,
            ) {
                e == StoreError::NotFound(EntityKind::Category)
            } else {
                e == StoreError::NotFound(EntityKind::Topic)
            }),
            final(self).categories == old(self).categories,
            final(self).topics == old(self).topics,
            final(self).bookmarks == old(self).bookmarks,
            final(self).bookmark_cat == old(self).bookmark_cat,
            final(self).next_id == old(self).next_id,
    {
        if !(1 <= category_id && category_id < self.next_id) {
            return Err(StoreError::NotFound(EntityKind::Category));
        }
        if !self.all_allocated(topic_ids) {
            return Err(StoreError::NotFound(EntityKind::Topic));
        }
        let n = topic_ids.len();
        let mut k: usize = 0;
        proof {
            assert(topic_ids@.take(0) =~= Seq::<i64>::empty());
        }
        while k < n
            invariant
                0 <= k <= n,
                n == topic_ids@.len(),
                old(self).wf(),
                self.topic_cat@ == add_ct_links(
                    old(self).topic_cat@,
                    category_id,
                    topic_ids@.take(k as int),
                ),
                self.categories == old(self).categories,
                self.topics == old(self).topics,
                self.bookmarks == old(self).bookmarks,
                self.bookmark_cat == old(self).bookmark_cat,
                self.next_id == old(self).next_id,
            decreases n - k,
        {
            let row = TopicCatRow { topic_id: topic_ids[k], category_id };
            proof {
                assert(topic_ids@.take(k + 1).drop_last() =~= topic_ids@.take(k as int));
                assert(topic_ids@.take(k + 1).last() == topic_ids@[k as int]);
            }
            if self.find_tc(row).is_none() {
                self.topic_cat.push(row);
            }
            k = k + 1;
        }
        proof {
            assert(topic_ids@.take(n as int) =~= topic_ids@);
            lemma_add_ct_links(old(self).topic_cat@, category_id, topic_ids@);
            assert forall|i: int|
                0 <= i < self.topic_cat@.len() implies 1 <= (#[trigger] self.topic_cat@[i]).topic_id
                < self.next_id && 1 <= self.topic_cat@[i].category_id < self.next_id by {
                let m = self.topic_cat@[i];
                assert(self.topic_cat@.contains(m));
                if old(self).topic_cat@.contains(m) {
                    let w = choose|w: int|
                        0 <= w < old(self).topic_cat@.len() && old(self).topic_cat@[w] == m;
                    assert(1 <= old(self).topic_cat@[w].topic_id < old(self).next_id);
                } else {
                    assert(m.category_id == category_id && topic_ids@.contains(m.topic_id));
                    let w = choose|w: int|
                        0 <= w < topic_ids@.len() && topic_ids@[w] == m.topic_id;
                    assert(self.id_allocated(topic_ids@[w]));
                }
            }
        }
        Ok(())
    }

    /// Idempotently links a bookmark to each of the given category
    /// identifiers; the bookmark must exist and every identifier must
    /// have been handed out by the sequence, so that no mapping row ever
    /// dangles or forestalls a future identifier.
    pub fn bm_add_category_links(&mut self, bookmark_id: i64, category_ids: &Vec<i64>) -> (r:
        Result<(), StoreError>)
        requires
            old(self).wf(),
        ensures
            final(self).wf(),
            r is Ok <==> (old(self).has_bookmark(bookmark_id) && (forall|k: int|
                0 <= k < category_ids@.len() ==> old(self).id_allocated(
                    #[trigger] category_ids@[k],
                ))),
            r is Ok ==> final(self).bookmark_cat@ == add_bc_links(
                old(self).bookmark_cat@,
                bookmark_id,
                category_ids@,
            ),
            r matches Err(e) ==> *final(self) == *old(self) && (if !old(self).has_bookmark(
                bookmark_id,
            ) {
                e == StoreError::NotFound(EntityKind::Bookmark)
            } else {
                e == StoreError::NotFound(EntityKind::Category)
            }),
            final(self).categories == old(self).categories,
            final(self).topics == old(self).topics,
            final(self).bookmarks == old(self).bookmarks,
            final(self).topic_cat == old(self).topic_cat,
            final(self).next_id == old(self).next_id,
    {
        if self.find_bookmark(bookmark_id).is_none() {
            return Err(StoreError::NotFound(EntityKind::Bookmark));
        }
        if !self.all_allocated(category_ids) {
            return Err(StoreError::NotFound(EntityKind::Category));
        }
        let n = category_ids.len();
        let mut k: usize = 0;
        proof {
            assert(category_ids@.take(0) =~= Seq::<i64>::empty());
        }
        while k < n
            invariant
                0 <= k <= n,
                n == category_ids@.len(),
                old(self).wf(),
                old(self).has_bookmark(bookmark_id),
                self.bookmark_cat@ == add_bc_links(
                    old(self).bookmark_cat@,
                    bookmark_id,
                    category_ids@.take(k as int),
                ),
                self.categories == old(self).categories,
                self.topics == old(self).topics,
                self.bookmarks == old(self).bookmarks,
                self.topic_cat == old(self).topic_cat,
                self.next_id == old(self).next_id,
            decreases n - k,
        {
            let row = BookmarkCatRow { bookmark_id, category_id: category_ids[k] };
            proof {
                assert(category_ids@.take(k + 1).drop_last() =~= category_ids@.take(k as int));
                assert(category_ids@.take(k + 1).last() == category_ids@[k as int]);
            }
            if self.find_bc(row).is_none() {
                self.bookmark_cat.push(row);
            }
            k = k + 1;
        }
        proof {
            assert(category_ids@.take(n as int) =~= category_ids@);
            lemma_add_bc_links(old(self).bookmark_cat@, bookmark_id, category_ids@);
            assert forall|i: int|
                0 <= i < self.bookmark_cat@.len() implies has_bookmark_in(
                self.bookmarks@,
                (#[trigger] self.bookmark_cat@[i]).bookmark_id,
            ) && 1 <= self.bookmark_cat@[i].category_id < self.next_id by {
                let m = self.bookmark_cat@[i];
                assert(self.bookmark_cat@.contains(m));
                if old(self).bookmark_cat@.contains(m) {
                    let w = choose|w: int|
                        0 <= w < old(self).bookmark_cat@.len() && old(self).bookmark_cat@[w] == m;
                    assert(1 <= old(self).bookmark_cat@[w].category_id < old(self).next_id);
                } else {
                    assert(m.bookmark_id == bookmark_id && category_ids@.contains(m.category_id));
                    let w = choose|w: int|
                        0 <= w < category_ids@.len() && category_ids@[w] == m.category_id;
                    assert(self.id_allocated(category_ids@[w]));
                }
            }
        }
        Ok(())
    }

    /// Decides whether `cid` is the identifier of one of the user's
    /// categories named in `names`.
    fn link_named(&self, user_id: &str, names: &Vec<String>, cid: i64) -> (r: bool)
        requires
            self.wf(),
        ensures
            r == named_link(self.categories@, user_id@, crate::order::views_of(names@), cid),
    {
        let ghost vs = crate::order::views_of(names@);
        let n = names.len();
        let mut j: usize = 0;
        proof {
            assert(!named_link(self.categories@, user_id@, vs.take(0), cid));
        }
        while j < n
            invariant
                0 <= j <= n,
                n == names@.len(),
                self.wf(),
                vs == crate::order::views_of(names@),
                !named_link(self.categories@, user_id@, vs.take(j as int), cid),
            decreases n - j,
        {
            match self.find_cat(user_id, names[j].as_str()) {
                Some(i) => {
                    if self.categories[i].id == cid {
                        proof {
                            assert(vs[j as int] == names@[j as int]@);
                            assert(vs.contains(names@[j as int]@));
                            assert(cat_keyed(self.categories@[i as int], user_id@, names@[j as int]@));
                        }
                        return true;
                    }
                    proof {
                        assert forall|k: int|
                            0 <= k < self.categories@.len() && (#[trigger] self.categories@[k]).user_id@
                                == user_id@ && self.categories@[k].id == cid implies !vs.take(
                            j + 1,
                        ).contains(self.categories@[k].name@) by {
                            if vs.take(j + 1).contains(self.categories@[k].name@) {
                                let w = choose|w: int|
                                    0 <= w < j + 1 && #[trigger] vs.take(j + 1)[w] == self.categories@[k].name@;
                                if w < j {
                                    assert(vs.take(j as int)[w] == self.categories@[k].name@);
                                    assert(vs.take(j as int).contains(self.categories@[k].name@));
                                    assert(named_link(
                                        self.categories@,
                                        user_id@,
                                        vs.take(j as int),
                                        cid,
                                    ));
                                } else {
                                    // the user's row named `names[j]` is unique, and it is
                                    // the row at `i`, whose id is not `cid`
                                    assert(self.categories@[k].name@ == names@[j as int]@);
                                    assert(cat_keyed(self.categories@[k], user_id@, names@[j as int]@));
                                    let i0 = i as int;
                                    if k != i0 {
                                        if k < i0 {
                                            assert(!(self.categories@[k].user_id@
                                                == self.categories@[i0].user_id@
                                                && self.categories@[k].name@
                                                == self.categories@[i0].name@));
                                        } else {
                                            assert(!(self.categories@[i0].user_id@
                                                == self.categories@[k].user_id@
                                                && self.categories@[i0].name@
                                                == self.categories@[k].name@));
                                        }
                                    }
                                }
                            }
                        }
                    }
                },
                None => {
                    proof {
                        assert forall|k: int|
                            0 <= k < self.categories@.len() && (#[trigger] self.categories@[k]).user_id@
                                == user_id@ && self.categories@[k].id == cid implies !vs.take(
                            j + 1,
                        ).contains(self.categories@[k].name@) by {
                            if vs.take(j + 1).contains(self.categories@[k].name@) {
                                let w = choose|w: int|
                                    0 <= w < j + 1 && #[trigger] vs.take(j + 1)[w] == self.categories@[k].name@;
                                if w < j {
                                    assert(vs.take(j as int)[w] == self.categories@[k].name@);
                                    assert(vs.take(j as int).contains(self.categories@[k].name@));
                                    assert(named_link(
                                        self.categories@,
                                        user_id@,
                                        vs.take(j as int),
                                        cid,
                                    ));
                                } else {
                                    assert(self.categories@[k].name@ == names@[j as int]@);
                                    assert(cat_keyed(self.categories@[k], user_id@, names@[j as int]@));
                                    assert(self.has_cat(user_id@, names@[j as int]@));
                                }
                            }
                        }
                    }
                },
            }
            j = j + 1;
        }
        proof {
            assert(vs.take(n as int) =~= vs);
        }
        false
    }

    /// Removes the links of `bookmark_id` to the user's categories named
    /// in `names`; rows of other owners or other bookmarks are untouched.
    pub fn bm_remove_category_links(&mut self, user_id: &str, bookmark_id: i64, names: &Vec<String>)
        requires
            old(self).wf(),
        ensures
            final(self).wf(),
            final(self).bookmark_cat@ == drop_named_bc_links(
                old(self).bookmark_cat@,
                bookmark_id,
                old(self).categories@,
                user_id@,
                crate::order::views_of(names@),
            ),
            final(self).categories == old(self).categories,
            final(self).topics == old(self).topics,
            final(self).bookmarks == old(self).bookmarks,
            final(self).topic_cat == old(self).topic_cat,
            final(self).next_id == old(self).next_id,
    {
        let ghost vs = crate::order::views_of(names@);
        let ghost maps0 = self.bookmark_cat@;
        let n = self.bookmark_cat.len();
        let mut kept: Vec<BookmarkCatRow> = Vec::new();
        let mut i: usize = 0;
        proof {
            assert(maps0.take(0) =~= Seq::<BookmarkCatRow>::empty());
        }
        while i < n
            invariant
                0 <= i <= n,
                n == maps0.len(),
                old(self).wf(),
                self == old(self),
                maps0 == self.bookmark_cat@,
                vs == crate::order::views_of(names@),
                kept@ == drop_named_bc_links(
                    maps0.take(i as int),
                    bookmark_id,
                    self.categories@,
                    user_id@,
                    vs,
                ),
            decreases n - i,
        {
            let m = self.bookmark_cat[i];
            let is_named = self.link_named(user_id, names, m.category_id);
            proof {
                assert(maps0.take(i + 1).drop_last() =~= maps0.take(i as int));
                assert(maps0.take(i + 1).last() == maps0[i as int]);
            }
            if !(m.bookmark_id == bookmark_id && is_named) {
                kept.push(m);
            }
            i = i + 1;
        }
        proof {
            assert(maps0.take(n as int) =~= maps0);
            lemma_drop_named_bc_links(maps0, bookmark_id, self.categories@, user_id@, vs);
        }
        self.bookmark_cat = kept;
        proof {
            assert forall|k: int|
                0 <= k < self.bookmark_cat@.len() implies has_bookmark_in(
                self.bookmarks@,
                (#[trigger] self.bookmark_cat@[k]).bookmark_id,
            ) && 1 <= self.bookmark_cat@[k].category_id < self.next_id by {
                assert(self.bookmark_cat@.contains(self.bookmark_cat@[k]));
                assert(maps0.contains(self.bookmark_cat@[k]));
                let w = choose|w: int| 0 <= w < maps0.len() && maps0[w] == self.bookmark_cat@[k];
                assert(has_bookmark_in(old(self).bookmarks@, maps0[w].bookmark_id));
                assert(1 <= maps0[w].category_id < old(self).next_id);
            }
        }
    }

    /// Removes the links of `topic_id` to the user's categories named in
    /// `names`.
    pub fn topic_remove_category_links(&mut self, user_id: &str, topic_id: i64, names: &Vec<String>)
        requires
            old(self).wf(),
        ensures
            final(self).wf(),
            final(self).topic_cat@ == drop_named_tc_links(
                old(self).topic_cat@,
                topic_id,
                old(self).categories@,
                user_id@,
                crate::order::views_of(names@),
            ),
            final(self).categories == old(self).categories,
            final(self).topics == old(self).topics,
            final(self).bookmarks == old(self).bookmarks,
            final(self).bookmark_cat == old(self).bookmark_cat,
            final(self).next_id == old(self).next_id,
    {
        let ghost vs = crate::order::views_of(names@);
        let ghost maps0 = self.topic_cat@;
        let n = self.topic_cat.len();
        let mut kept: Vec<TopicCatRow> = Vec::new();
        let mut i: usize = 0;
        proof {
            assert(maps0.take(0) =~= Seq::<TopicCatRow>::empty());
        }
        while i < n
            invariant
                0 <= i <= n,
                n == maps0.len(),
                old(self).wf(),
                self == old(self),
                maps0 == self.topic_cat@,
                vs == crate::order::views_of(names@),
                kept@ == drop_named_tc_links(
                    maps0.take(i as int),
                    topic_id,
                    self.categories@,
                    user_id@,
                    vs,
                ),
            decreases n - i,
        {
            let m = self.topic_cat[i];
            let is_named = self.link_named(user_id, names, m.category_id);
            proof {
                assert(maps0.take(i + 1).drop_last() =~= maps0.take(i as int));
                assert(maps0.take(i + 1).last() == maps0[i as int]);
            }
            if !(m.topic_id == topic_id && is_named) {
                kept.push(m);
            }
            i = i + 1;
        }
        proof {
            assert(maps0.take(n as int) =~= maps0);
            lemma_drop_named_tc_links(maps0, topic_id, self.categories@, user_id@, vs);
        }
        self.topic_cat = kept;
        proof {
            assert forall|k: int|
                0 <= k < self.topic_cat@.len() implies 1 <= (#[trigger] self.topic_cat@[k]).topic_id
                < self.next_id && 1 <= self.topic_cat@[k].category_id < self.next_id by {
                assert(self.topic_cat@.contains(self.topic_cat@[k]));
                assert(maps0.contains(self.topic_cat@[k]));
                let w = choose|w: int| 0 <= w < maps0.len() && maps0[w] == self.topic_cat@[k];
                assert(1 <= maps0[w].topic_id < old(self).next_id);
            }
        }
    }

    /// Removes every mapping row of `bookmark_id`: the cascade step that
    /// bookmark deletion runs so that no mapping row is left dangling.
    pub fn bm_delete_maps(&mut self, bookmark_id: i64)
        requires
            old(self).wf(),
        ensures
            final(self).wf(),
            final(self).bookmark_cat@ == without_bookmark(old(self).bookmark_cat@, bookmark_id),
            final(self).categories == old(self).categories,
            final(self).topics == old(self).topics,
            final(self).bookmarks == old(self).bookmarks,
            final(self).topic_cat == old(self).topic_cat,
            final(self).next_id == old(self).next_id,
    {
        let ghost maps0 = self.bookmark_cat@;
        let n = self.bookmark_cat.len();
        let mut kept: Vec<BookmarkCatRow> = Vec::new();
        let mut i: usize = 0;
        proof {
            assert(maps0.take(0) =~= Seq::<BookmarkCatRow>::empty());
        }
        while i < n
            invariant
                0 <= i <= n,
                n == maps0.len(),
                old(self).wf(),
                self == old(self),
                maps0 == self.bookmark_cat@,
                kept@ == without_bookmark(maps0.take(i as int), bookmark_id),
            decreases n - i,
        {
            let m = self.bookmark_cat[i];
            proof {
                assert(maps0.take(i + 1).drop_last() =~= maps0.take(i as int));
                assert(maps0.take(i + 1).last() == maps0[i as int]);
            }
            if m.bookmark_id != bookmark_id {
                kept.push(m);
            }
            i = i + 1;
        }
        proof {
            assert(maps0.take(n as int) =~= maps0);
            lemma_without_bookmark(maps0, bookmark_id);
        }
        self.bookmark_cat = kept;
        proof {
            assert forall|k: int|
                0 <= k < self.bookmark_cat@.len() implies has_bookmark_in(
                self.bookmarks@,
                (#[trigger] self.bookmark_cat@[k]).bookmark_id,
            ) && 1 <= self.bookmark_cat@[k].category_id < self.next_id by {
                assert(self.bookmark_cat@.contains(self.bookmark_cat@[k]));
                assert(maps0.contains(self.bookmark_cat@[k]));
                let w = choose|w: int| 0 <= w < maps0.len() && maps0[w] == self.bookmark_cat@[k];
                assert(has_bookmark_in(old(self).bookmarks@, maps0[w].bookmark_id));
                assert(1 <= maps0[w].category_id < old(self).next_id);
            }
        }
    }
}

} // verus!
