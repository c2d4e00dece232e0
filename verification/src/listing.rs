//! Category aggregation and entity lookups with aggregated views.
//!
//! A bookmark's (or topic's) category array is the distinct set of names
//! of the categories reachable through its junction rows, materialized in
//! alphabetical order; an entity without links gets an empty array, never
//! a missing one.

use vstd::prelude::*;
use vstd::seq_lib::group_to_multiset_ensures;

use crate::order::{insert_name, intersects_names, str_eq, strictly_sorted, views_of};
use crate::rows::{
    bookmark_row_of, category_view_of, topic_row_of, BookmarkCatRow, BookmarkRec, BookmarkRow,
    CatRow, CategoryRowView, TopicCatRow, TopicRec, TopicRow,
};
use crate::store::{has_cat_id_in, Store};

verus! {

/// True when `n` is the name of a category linked to bookmark `bid`.
pub open spec fn bm_cat_name(
    cats: Seq<CatRow>,
    maps: Seq<BookmarkCatRow>,
    bid: i64,
    n: Seq<char>,
) -> bool {
    exists|j: int, k: int|
        0 <= j < maps.len() && 0 <= k < cats.len() && (#[trigger] maps[j]).bookmark_id == bid && (
        #[trigger] cats[k]).id == maps[j].category_id && cats[k].name@ == n
}

/// True when `n` is the name of a category linked to topic `tid`.
pub open spec fn topic_cat_name(
    cats: Seq<CatRow>,
    maps: Seq<TopicCatRow>,
    tid: i64,
    n: Seq<char>,
) -> bool {
    exists|j: int, k: int|
        0 <= j < maps.len() && 0 <= k < cats.len() && (#[trigger] maps[j]).topic_id == tid && (
        #[trigger] cats[k]).id == maps[j].category_id && cats[k].name@ == n
}

/// The character views of an optional name filter.
pub open spec fn opt_views(c: Option<&Vec<String>>) -> Option<Seq<Seq<char>>> {
    match c {
        Some(v) => Some(views_of(v@)),
        None => None,
    }
}

/// The character view of an optional string.
pub open spec fn opt_chars(s: Option<String>) -> Option<Seq<char>> {
    match s {
        Some(x) => Some(x@),
        None => None,
    }
}

/// The character view of an optional string slice.
pub open spec fn opt_str(s: Option<&str>) -> Option<Seq<char>> {
    match s {
        Some(x) => Some(x@),
        None => None,
    }
}

/// True when some category linked to bookmark `bid` carries one of the
/// names in `f`: the filter runs on the aggregate, after grouping, so it
/// never corrupts the per-row category array.
pub open spec fn bm_intersects(
    cats: Seq<CatRow>,
    bc: Seq<BookmarkCatRow>,
    bid: i64,
    f: Seq<Seq<char>>,
) -> bool {
    exists|w: int| 0 <= w < f.len() && bm_cat_name(cats, bc, bid, #[trigger] f[w])
}

/// True when bookmark `bid` reaches topic `tid` through some category:
/// the existence check along the topic-category-bookmark chain.
pub open spec fn tc_bc_linked(
    tc: Seq<TopicCatRow>,
    bc: Seq<BookmarkCatRow>,
    bid: i64,
    tid: i64,
) -> bool {
    exists|j: int|
        0 <= j < bc.len() && (#[trigger] bc[j]).bookmark_id == bid && tc.contains(
            TopicCatRow { topic_id: tid, category_id: bc[j].category_id },
        )
}

/// The listing predicate on a single bookmark row: owner equality, the
/// optional status equality, the optional post-aggregation category
/// filter (an empty filter keeps everything), and the optional topic
/// existence check.
pub open spec fn bm_selected(
    s: Store,
    b: BookmarkRec,
    user: Seq<char>,
    topic: Option<Seq<char>>,
    f: Option<Seq<Seq<char>>>,
    st: Option<Seq<char>>,
) -> bool {
    &&& b.user_id@ == user
    &&& match st {
        Some(x) => b.status@ == x,
        None => true,
    }
    &&& match f {
        Some(names) => names.len() == 0 || bm_intersects(s.categories@, s.bookmark_cat@, b.id, names),
        None => true,
    }
    &&& match topic {
        Some(tn) => s.has_topic(user, tn) && tc_bc_linked(
            s.topic_cat@,
            s.bookmark_cat@,
            b.id,
            s.topic_by_key(user, tn).id,
        ),
        None => true,
    }
}

/// The subsequence of `bms` selected by the listing predicate, in table
/// order.
pub open spec fn selected_bookmarks(
    s: Store,
    bms: Seq<BookmarkRec>,
    user: Seq<char>,
    topic: Option<Seq<char>>,
    f: Option<Seq<Seq<char>>>,
    st: Option<Seq<char>>,
) -> Seq<BookmarkRec>
    decreases bms.len(),
{
    if bms.len() == 0 {
        bms
    } else {
        let prev = selected_bookmarks(s, bms.drop_last(), user, topic, f, st);
        if bm_selected(s, bms.last(), user, topic, f, st) {
            prev.push(bms.last())
        } else {
            prev
        }
    }
}

/// Result rows correspond one to one with selected stored rows: same
/// scalar fields, and each carries that row's aggregate.
pub open spec fn rows_correspond(s: Store, rows: Seq<BookmarkRow>, sel: Seq<BookmarkRec>) -> bool {
    &&& rows.len() == sel.len()
    &&& forall|k: int|
        0 <= k < sel.len() ==> (#[trigger] rows[k]) == bookmark_row_of(sel[k], rows[k].categories)
            && is_bm_aggregate(s, sel[k].id, rows[k].categories@)
}

/// Listing order: most recent first, ties broken by identifier ascending
/// for determinism.
pub open spec fn row_le(a: BookmarkRow, b: BookmarkRow) -> bool {
    a.created_on > b.created_on || (a.created_on == b.created_on && a.id <= b.id)
}

/// A sequence of rows in listing order.
pub open spec fn rows_sorted(s: Seq<BookmarkRow>) -> bool {
    forall|i: int, j: int| 0 <= i < j < s.len() ==> row_le(s[i], s[j])
}

/// The page size after the server-side clamp: at most one hundred rows,
/// regardless of what the client asked for; sizes of zero or below are
/// passed through and select an empty page.
pub open spec fn clamp_size_spec(size: i32) -> int {
    if size > 100 {
        100
    } else {
        size as int
    }
}

/// The offset of a 1-indexed page: `max(0, (page - 1) * size)`.
pub open spec fn page_offset_spec(page: i32, size: int) -> int {
    if page <= 1 {
        0
    } else if (page - 1) * size < 0 {
        0
    } else {
        (page - 1) * size
    }
}

/// Where the page's window starts: the offset, clipped to the row count.
pub open spec fn page_lo(off: int, len: int) -> int {
    if off < len {
        off
    } else {
        len
    }
}

/// Where the page's window stops: `offset + size`, clipped into
/// `[start, row count]`, so a size of zero or below yields the empty
/// window.
pub open spec fn page_hi(off: int, size: int, len: int) -> int {
    let lo = page_lo(off, len);
    let e = if off + size < len {
        off + size
    } else {
        len
    };
    if e < lo {
        lo
    } else {
        e
    }
}

/// One page of listed bookmarks with its navigation flags.
pub struct BookmarkPage {
    pub rows: Vec<BookmarkRow>,
    pub has_next: bool,
    pub has_prev: bool,
}

/// The listing projections of the user's category rows, in table order.
pub open spec fn user_cat_views(cats: Seq<CatRow>, user: Seq<char>) -> Seq<CategoryRowView>
    decreases cats.len(),
{
    if cats.len() == 0 {
        Seq::empty()
    } else {
        let prev = user_cat_views(cats.drop_last(), user);
        if cats.last().user_id@ == user {
            prev.push(category_view_of(cats.last()))
        } else {
            prev
        }
    }
}

/// True when category `c` is linked to one of the user's topics named in
/// `names`.
pub open spec fn cat_in_topics(
    topics: Seq<TopicRec>,
    tc: Seq<TopicCatRow>,
    user: Seq<char>,
    names: Seq<Seq<char>>,
    c: CatRow,
) -> bool {
    exists|l: int|
        0 <= l < topics.len() && (#[trigger] topics[l]).user_id@ == user && names.contains(
            topics[l].name@,
        ) && tc.contains(TopicCatRow { topic_id: topics[l].id, category_id: c.id })
}

/// The listing projections of the user's categories that are linked to
/// one of the named topics, in table order.
pub open spec fn topic_scoped_cat_views(
    cats: Seq<CatRow>,
    topics: Seq<TopicRec>,
    tc: Seq<TopicCatRow>,
    user: Seq<char>,
    names: Seq<Seq<char>>,
) -> Seq<CategoryRowView>
    decreases cats.len(),
{
    if cats.len() == 0 {
        Seq::empty()
    } else {
        let prev = topic_scoped_cat_views(cats.drop_last(), topics, tc, user, names);
        if cats.last().user_id@ == user && cat_in_topics(topics, tc, user, names, cats.last()) {
            prev.push(category_view_of(cats.last()))
        } else {
            prev
        }
    }
}

/// The user's topic rows, in table order.
pub open spec fn user_topics(topics: Seq<TopicRec>, user: Seq<char>) -> Seq<TopicRec>
    decreases topics.len(),
{
    if topics.len() == 0 {
        topics
    } else {
        let prev = user_topics(topics.drop_last(), user);
        if topics.last().user_id@ == user {
            prev.push(topics.last())
        } else {
            prev
        }
    }
}

/// True when topic `t` is linked to one of the user's categories named in
/// `names`.
pub open spec fn topic_in_cats(
    cats: Seq<CatRow>,
    tc: Seq<TopicCatRow>,
    user: Seq<char>,
    names: Seq<Seq<char>>,
    tid: i64,
) -> bool {
    exists|k: int|
        0 <= k < cats.len() && (#[trigger] cats[k]).user_id@ == user && names.contains(
            cats[k].name@,
        ) && tc.contains(TopicCatRow { topic_id: tid, category_id: cats[k].id })
}

/// The user's topics that are linked to one of the named categories, in
/// table order.
pub open spec fn cat_scoped_topics(
    topics: Seq<TopicRec>,
    cats: Seq<CatRow>,
    tc: Seq<TopicCatRow>,
    user: Seq<char>,
    names: Seq<Seq<char>>,
) -> Seq<TopicRec>
    decreases topics.len(),
{
    if topics.len() == 0 {
        topics
    } else {
        let prev = cat_scoped_topics(topics.drop_last(), cats, tc, user, names);
        if topics.last().user_id@ == user && topic_in_cats(cats, tc, user, names, topics.last().id) {
            prev.push(topics.last())
        } else {
            prev
        }
    }
}

/// Topic listing rows correspond one to one with selected topic rows:
/// same scalar fields, each carrying that topic's aggregate.
pub open spec fn topic_views_correspond(
    s: Store,
    rows: Seq<crate::rows::TopicRowView>,
    sel: Seq<TopicRec>,
) -> bool {
    &&& rows.len() == sel.len()
    &&& forall|k: int|
        0 <= k < sel.len() ==> (#[trigger] rows[k]) == crate::rows::topic_view_of(
            sel[k],
            rows[k].categories,
        ) && is_topic_aggregate(s, sel[k].id, rows[k].categories@)
}

/// True when `n` names one of the user's topics linked to category `cid`.
pub open spec fn cat_topic_name(
    topics: Seq<TopicRec>,
    tc: Seq<TopicCatRow>,
    user: Seq<char>,
    cid: i64,
    n: Seq<char>,
) -> bool {
    exists|l: int|
        0 <= l < topics.len() && (#[trigger] topics[l]).user_id@ == user && topics[l].name@ == n
            && tc.contains(TopicCatRow { topic_id: topics[l].id, category_id: cid })
}

/// A vector of names is the aggregate for some set-membership predicate
/// when it is strictly sorted and holds exactly the names satisfying it.
pub open spec fn is_bm_aggregate(s: Store, bid: i64, names: Seq<String>) -> bool {
    &&& strictly_sorted(views_of(names))
    &&& forall|n: Seq<char>|
        views_of(names).contains(n) <==> bm_cat_name(s.categories@, s.bookmark_cat@, bid, n)
}

/// The same for a topic's aggregate.
pub open spec fn is_topic_aggregate(s: Store, tid: i64, names: Seq<String>) -> bool {
    &&& strictly_sorted(views_of(names))
    &&& forall|n: Seq<char>|
        views_of(names).contains(n) <==> topic_cat_name(s.categories@, s.topic_cat@, tid, n)
}

/// Compares two rows in listing order.
fn row_le_exec(a: &BookmarkRow, b: &BookmarkRow) -> (r: bool)
    ensures
        r == row_le(*a, *b),
{
    a.created_on > b.created_on || (a.created_on == b.created_on && a.id <= b.id)
}

/// Inserting anywhere in a sequence adds one occurrence to its multiset.
proof fn lemma_insert_to_multiset(v: Seq<BookmarkRow>, p: int, x: BookmarkRow)
    requires
        0 <= p <= v.len(),
    ensures
        v.insert(p, x).to_multiset() == v.to_multiset().insert(x),
{
    broadcast use group_to_multiset_ensures;
    broadcast use vstd::multiset::group_multiset_axioms;

    let v1 = v.insert(p, x);
    assert(v1.remove(p) =~= v);
    assert(v1[p] == x);
    assert(v1.remove(p).to_multiset() =~= v1.to_multiset().remove(x));
    assert(v1.contains(x)) by {
        assert(v1[p] == x);
    }
    assert(v1.to_multiset().count(x) > 0);
    assert(v1.to_multiset() =~= v.to_multiset().insert(x));
}

/// Sorts listing rows into listing order: most recent first, ties broken
/// by identifier ascending.  The result holds exactly the given rows.
pub fn sort_rows(rows: Vec<BookmarkRow>) -> (r: Vec<BookmarkRow>)
    ensures
        rows_sorted(r@),
        r@.to_multiset() == rows@.to_multiset(),
{
    broadcast use group_to_multiset_ensures;
    broadcast use vstd::multiset::group_multiset_axioms;

    let ghost orig = rows@;
    let mut rest = rows;
    let mut out: Vec<BookmarkRow> = Vec::new();
    proof {
        assert(out@.to_multiset().add(rest@.to_multiset()) =~= orig.to_multiset());
    }
    while rest.len() > 0
        invariant
            rows_sorted(out@),
            out@.to_multiset().add(rest@.to_multiset()) == orig.to_multiset(),
        decreases rest@.len(),
    {
        let ghost rest0 = rest@;
        let x = match rest.pop() {
            Some(x) => x,
            None => {
                proof {
                    assert(false);
                }
                unreached()
            },
        };
        proof {
            assert(rest0 =~= rest@.push(x));
        }
        let n = out.len();
        let mut p: usize = 0;
        while p < n && row_le_exec(&out[p], &x)
            invariant
                0 <= p <= n,
                n == out@.len(),
                forall|k: int| 0 <= k < p ==> row_le(out@[k], x),
            decreases n - p,
        {
            p = p + 1;
        }
        let ghost out0 = out@;
        proof {
            if p < n {
                assert(row_le(x, out0[p as int]));
            }
        }
        out.insert(p, x);
        proof {
            lemma_insert_to_multiset(out0, p as int, x);
            let out1 = out@;
            assert(out1 == out0.insert(p as int, x));
            assert forall|i: int, j: int| 0 <= i < j < out1.len() implies row_le(
                out1[i],
                out1[j],
            ) by {
                let i0 = if i < p {
                    i
                } else {
                    i - 1
                };
                let j0 = if j < p {
                    j
                } else {
                    j - 1
                };
                if i < p {
                    assert(out1[i] == out0[i]);
                }
                if j < p {
                    assert(out1[j] == out0[j]);
                }
                if i > p {
                    assert(out1[i] == out0[i - 1]);
                }
                if j > p {
                    assert(out1[j] == out0[j - 1]);
                }
                if i == p && j > p {
                    assert(row_le(x, out0[p as int]));
                    assert(row_le(out0[p as int], out0[j - 1]) || p as int == j - 1);
                }
                if j == p && i < p {
                    assert(row_le(out0[i], x));
                }
            }
            rest@.to_multiset_ensures();
            assert(rest0.to_multiset() == rest@.push(x).to_multiset());
            assert(rest@.push(x).to_multiset() == rest@.to_multiset().insert(x));
            assert(out@.to_multiset().add(rest@.to_multiset()) =~= orig.to_multiset());
        }
    }
    proof {
        assert(rest@.to_multiset() =~= Seq::<BookmarkRow>::empty().to_multiset());
        assert(out@.to_multiset() =~= orig.to_multiset());
    }
    out
}

/// Cuts one 1-indexed page out of rows already in listing order:
/// `offset = max(0, (page - 1) * size)` with the size clamped at one
/// hundred, `has_next` exactly when rows remain beyond the page,
/// `has_prev` exactly when the page is not the first.
pub fn page_of(rows: Vec<BookmarkRow>, page_no: i32, page_size: i32) -> (r: BookmarkPage)
    ensures
        ({
            let size = clamp_size_spec(page_size);
            let off = page_offset_spec(page_no, size);
            let len = rows@.len() as int;
            &&& r.has_prev == (page_no > 1)
            &&& r.has_next == (len > off + size)
            &&& r.rows@ == rows@.subrange(page_lo(off, len), page_hi(off, size, len))
        }),
{
    let ghost orig = rows@;
    let size: i32 = if page_size > 100 {
        100
    } else {
        page_size
    };
    let off: i64 = if page_no <= 1 {
        0
    } else {
        let pm1: i64 = page_no as i64 - 1;
        let s64: i64 = size as i64;
        proof {
            assert(-2147483648i64 * 2147483646i64 <= pm1 * s64 && pm1 * s64
                <= 214748364600i64) by (nonlinear_arith)
                requires
                    1 <= pm1 <= 2147483646i64,
                    -2147483648i64 <= s64 <= 100i64,
            ;
        }
        let p = pm1 * s64;
        if p < 0 {
            0
        } else {
            p
        }
    };
    let len = rows.len();
    let has_prev = page_no > 1;
    let stop: i64 = off + size as i64;
    let start: usize = if (off as u64) < (len as u64) {
        off as usize
    } else {
        len
    };
    let end: usize = if stop < 0 {
        start
    } else if (stop as u64) < (len as u64) {
        let e = stop as usize;
        if e < start {
            start
        } else {
            e
        }
    } else {
        len
    };
    let has_next = if stop < 0 {
        true
    } else {
        (stop as u64) < (len as u64)
    };
    let mut rows = rows;
    rows.truncate(end);
    let ghost base = rows@;
    let mut k: usize = 0;
    while k < start
        invariant
            0 <= k <= start,
            start <= base.len(),
            rows@ == base.subrange(k as int, base.len() as int),
        decreases start - k,
    {
        proof {
            assert(rows@.remove(0) =~= base.subrange(k + 1, base.len() as int));
        }
        rows.remove(0);
        k = k + 1;
    }
    proof {
        let size_s = clamp_size_spec(page_size);
        let off_s = page_offset_spec(page_no, size_s);
        let len_s = orig.len() as int;
        assert(start == page_lo(off_s, len_s));
        assert(end == page_hi(off_s, size_s, len_s));
        assert(rows@ =~= orig.subrange(page_lo(off_s, len_s), page_hi(off_s, size_s, len_s)));
    }
    BookmarkPage { rows, has_next, has_prev }
}

impl Store {
    /// Aggregates the distinct names of the categories linked to the
    /// bookmark, alphabetically sorted; an unlinked bookmark yields an
    /// empty array.
    pub fn bookmark_categories(&self, bid: i64) -> (r: Vec<String>)
        requires
            self.wf(),
        ensures
            is_bm_aggregate(*self, bid, r@),
    {
        let ghost cats = self.categories@;
        let ghost maps = self.bookmark_cat@;
        let mut out: Vec<String> = Vec::new();
        let n = self.bookmark_cat.len();
        let mut j: usize = 0;
        proof {
            assert(maps.take(0) =~= Seq::<BookmarkCatRow>::empty());
        }
        while j < n
            invariant
                0 <= j <= n,
                n == maps.len(),
                self.wf(),
                cats == self.categories@,
                maps == self.bookmark_cat@,
                strictly_sorted(views_of(out@)),
                forall|nm: Seq<char>|
                    views_of(out@).contains(nm) <==> bm_cat_name(cats, maps.take(j as int), bid, nm),
            decreases n - j,
        {
            let m = self.bookmark_cat[j];
            proof {
                assert(maps.take(j + 1).drop_last() =~= maps.take(j as int));
                assert(maps.take(j + 1)[j as int] == maps[j as int]);
                assert forall|j2: int| 0 <= j2 < j implies maps.take(j + 1)[j2] == maps.take(
                    j as int,
                )[j2] by {}
            }
            if m.bookmark_id == bid {
                match self.find_cat_by_id(m.category_id) {
                    Some(k) => {
                        let ghost prev = out@;
                        let nm = self.categories[k].name.clone();
                        insert_name(&mut out, nm);
                        proof {
                            let added = cats[k as int].name@;
                            assert forall|q: Seq<char>|
                                views_of(out@).contains(q) implies bm_cat_name(
                                cats,
                                maps.take(j + 1),
                                bid,
                                q,
                            ) by {
                                if views_of(prev).contains(q) {
                                    let (j2, k2) = choose|j2: int, k2: int|
                                        0 <= j2 < maps.take(j as int).len() && 0 <= k2 < cats.len()
                                            && (#[trigger] maps.take(j as int)[j2]).bookmark_id
                                            == bid && (#[trigger] cats[k2]).id == maps.take(
                                            j as int,
                                        )[j2].category_id && cats[k2].name@ == q;
                                    assert(maps.take(j + 1)[j2] == maps.take(j as int)[j2]);
                                } else {
                                    assert(q == added);
                                    assert(maps.take(j + 1)[j as int].bookmark_id == bid);
                                    assert(cats[k as int].id == maps.take(
                                        j + 1,
                                    )[j as int].category_id);
                                }
                            }
                            assert forall|q: Seq<char>|
                                bm_cat_name(cats, maps.take(j + 1), bid, q) implies views_of(
                                out@,
                            ).contains(q) by {
                                let (j2, k2) = choose|j2: int, k2: int|
                                    0 <= j2 < maps.take(j + 1).len() && 0 <= k2 < cats.len() && (
                                    #[trigger] maps.take(j + 1)[j2]).bookmark_id == bid && (
                                    #[trigger] cats[k2]).id == maps.take(j + 1)[j2].category_id
                                        && cats[k2].name@ == q;
                                if j2 < j {
                                    assert(maps.take(j as int)[j2] == maps.take(j + 1)[j2]);
                                    assert(bm_cat_name(cats, maps.take(j as int), bid, q));
                                } else {
                                    // the row at `j` names the category found at `k`,
                                    // whose id is unique
                                    if k2 != k as int {
                                        if k2 < k as int {
                                            assert(cats[k2].id != cats[k as int].id);
                                        } else {
                                            assert(cats[k as int].id != cats[k2].id);
                                        }
                                    }
                                    assert(q == added);
                                }
                            }
                        }
                    },
                    None => {
                        proof {
                            assert forall|q: Seq<char>|
                                bm_cat_name(cats, maps.take(j + 1), bid, q) implies bm_cat_name(
                                cats,
                                maps.take(j as int),
                                bid,
                                q,
                            ) by {
                                let (j2, k2) = choose|j2: int, k2: int|
                                    0 <= j2 < maps.take(j + 1).len() && 0 <= k2 < cats.len() && (
                                    #[trigger] maps.take(j + 1)[j2]).bookmark_id == bid && (
                                    #[trigger] cats[k2]).id == maps.take(j + 1)[j2].category_id
                                        && cats[k2].name@ == q;
                                if j2 < j {
                                    assert(maps.take(j as int)[j2] == maps.take(j + 1)[j2]);
                                } else {
                                    assert(cats[k2].id == m.category_id);
                                    assert(has_cat_id_in(cats, m.category_id));
                                }
                            }
                            assert forall|q: Seq<char>|
                                bm_cat_name(cats, maps.take(j as int), bid, q) implies bm_cat_name(
                                cats,
                                maps.take(j + 1),
                                bid,
                                q,
                            ) by {
                                let (j2, k2) = choose|j2: int, k2: int|
                                    0 <= j2 < maps.take(j as int).len() && 0 <= k2 < cats.len()
                                        && (#[trigger] maps.take(j as int)[j2]).bookmark_id == bid
                                        && (#[trigger] cats[k2]).id == maps.take(
                                        j as int,
                                    )[j2].category_id && cats[k2].name@ == q;
                                assert(maps.take(j + 1)[j2] == maps.take(j as int)[j2]);
                            }
                        }
                    },
                }
            } else {
                proof {
                    assert forall|q: Seq<char>|
                        bm_cat_name(cats, maps.take(j + 1), bid, q) implies bm_cat_name(
                        cats,
                        maps.take(j as int),
                        bid,
                        q,
                    ) by {
                        let (j2, k2) = choose|j2: int, k2: int|
                            0 <= j2 < maps.take(j + 1).len() && 0 <= k2 < cats.len() && (
                            #[trigger] maps.take(j + 1)[j2]).bookmark_id == bid && (
                            #[trigger] cats[k2]).id == maps.take(j + 1)[j2].category_id
                                && cats[k2].name@ == q;
                        if j2 < j {
                            assert(maps.take(j as int)[j2] == maps.take(j + 1)[j2]);
                        }
                    }
                    assert forall|q: Seq<char>|
                        bm_cat_name(cats, maps.take(j as int), bid, q) implies bm_cat_name(
                        cats,
                        maps.take(j + 1),
                        bid,
                        q,
                    ) by {
                        let (j2, k2) = choose|j2: int, k2: int|
                            0 <= j2 < maps.take(j as int).len() && 0 <= k2 < cats.len() && (
                            #[trigger] maps.take(j as int)[j2]).bookmark_id == bid && (
                            #[trigger] cats[k2]).id == maps.take(j as int)[j2].category_id
                                && cats[k2].name@ == q;
                        assert(maps.take(j + 1)[j2] == maps.take(j as int)[j2]);
                    }
                }
            }
            j = j + 1;
        }
        proof {
            assert(maps.take(n as int) =~= maps);
        }
        out
    }

    /// Aggregates the distinct names of the categories linked to the
    /// topic, alphabetically sorted.
    pub fn topic_categories(&self, tid: i64) -> (r: Vec<String>)
        requires
            self.wf(),
        ensures
            is_topic_aggregate(*self, tid, r@),
    {
        let ghost cats = self.categories@;
        let ghost maps = self.topic_cat@;
        let mut out: Vec<String> = Vec::new();
        let n = self.topic_cat.len();
        let mut j: usize = 0;
        proof {
            assert(maps.take(0) =~= Seq::<TopicCatRow>::empty());
        }
        while j < n
            invariant
                0 <= j <= n,
                n == maps.len(),
                self.wf(),
                cats == self.categories@,
                maps == self.topic_cat@,
                strictly_sorted(views_of(out@)),
                forall|nm: Seq<char>|
                    views_of(out@).contains(nm) <==> topic_cat_name(
                        cats,
                        maps.take(j as int),
                        tid,
                        nm,
                    ),
            decreases n - j,
        {
            let m = self.topic_cat[j];
            proof {
                assert(maps.take(j + 1).drop_last() =~= maps.take(j as int));
                assert(maps.take(j + 1)[j as int] == maps[j as int]);
            }
            if m.topic_id == tid {
                match self.find_cat_by_id(m.category_id) {
                    Some(k) => {
                        let ghost prev = out@;
                        let nm = self.categories[k].name.clone();
                        insert_name(&mut out, nm);
                        proof {
                            let added = cats[k as int].name@;
                            assert forall|q: Seq<char>|
                                views_of(out@).contains(q) implies topic_cat_name(
                                cats,
                                maps.take(j + 1),
                                tid,
                                q,
                            ) by {
                                if views_of(prev).contains(q) {
                                    let (j2, k2) = choose|j2: int, k2: int|
                                        0 <= j2 < maps.take(j as int).len() && 0 <= k2 < cats.len()
                                            && (#[trigger] maps.take(j as int)[j2]).topic_id == tid
                                            && (#[trigger] cats[k2]).id == maps.take(
                                            j as int,
                                        )[j2].category_id && cats[k2].name@ == q;
                                    assert(maps.take(j + 1)[j2] == maps.take(j as int)[j2]);
                                } else {
                                    assert(q == added);
                                    assert(maps.take(j + 1)[j as int].topic_id == tid);
                                    assert(cats[k as int].id == maps.take(
                                        j + 1,
                                    )[j as int].category_id);
                                }
                            }
                            assert forall|q: Seq<char>|
                                topic_cat_name(cats, maps.take(j + 1), tid, q) implies views_of(
                                out@,
                            ).contains(q) by {
                                let (j2, k2) = choose|j2: int, k2: int|
                                    0 <= j2 < maps.take(j + 1).len() && 0 <= k2 < cats.len() && (
                                    #[trigger] maps.take(j + 1)[j2]).topic_id == tid && (
                                    #[trigger] cats[k2]).id == maps.take(j + 1)[j2].category_id
                                        && cats[k2].name@ == q;
                                if j2 < j {
                                    assert(maps.take(j as int)[j2] == maps.take(j + 1)[j2]);
                                    assert(topic_cat_name(cats, maps.take(j as int), tid, q));
                                } else {
                                    if k2 != k as int {
                                        if k2 < k as int {
                                            assert(cats[k2].id != cats[k as int].id);
                                        } else {
                                            assert(cats[k as int].id != cats[k2].id);
                                        }
                                    }
                                    assert(q == added);
                                }
                            }
                        }
                    },
                    None => {
                        proof {
                            assert forall|q: Seq<char>|
                                topic_cat_name(cats, maps.take(j + 1), tid, q) implies
                                topic_cat_name(cats, maps.take(j as int), tid, q) by {
                                let (j2, k2) = choose|j2: int, k2: int|
                                    0 <= j2 < maps.take(j + 1).len() && 0 <= k2 < cats.len() && (
                                    #[trigger] maps.take(j + 1)[j2]).topic_id == tid && (
                                    #[trigger] cats[k2]).id == maps.take(j + 1)[j2].category_id
                                        && cats[k2].name@ == q;
                                if j2 < j {
                                    assert(maps.take(j as int)[j2] == maps.take(j + 1)[j2]);
                                } else {
                                    assert(cats[k2].id == m.category_id);
                                    assert(has_cat_id_in(cats, m.category_id));
                                }
                            }
                            assert forall|q: Seq<char>|
                                topic_cat_name(cats, maps.take(j as int), tid, q) implies
                                topic_cat_name(cats, maps.take(j + 1), tid, q) by {
                                let (j2, k2) = choose|j2: int, k2: int|
                                    0 <= j2 < maps.take(j as int).len() && 0 <= k2 < cats.len()
                                        && (#[trigger] maps.take(j as int)[j2]).topic_id == tid && (
                                    #[trigger] cats[k2]).id == maps.take(j as int)[j2].category_id
                                        && cats[k2].name@ == q;
                                assert(maps.take(j + 1)[j2] == maps.take(j as int)[j2]);
                            }
                        }
                    },
                }
            } else {
                proof {
                    assert forall|q: Seq<char>|
                        topic_cat_name(cats, maps.take(j + 1), tid, q) implies topic_cat_name(
                        cats,
                        maps.take(j as int),
                        tid,
                        q,
                    ) by {
                        let (j2, k2) = choose|j2: int, k2: int|
                            0 <= j2 < maps.take(j + 1).len() && 0 <= k2 < cats.len() && (
                            #[trigger] maps.take(j + 1)[j2]).topic_id == tid && (
                            #[trigger] cats[k2]).id == maps.take(j + 1)[j2].category_id
                                && cats[k2].name@ == q;
                        if j2 < j {
                            assert(maps.take(j as int)[j2] == maps.take(j + 1)[j2]);
                        }
                    }
                    assert forall|q: Seq<char>|
                        topic_cat_name(cats, maps.take(j as int), tid, q) implies topic_cat_name(
                        cats,
                        maps.take(j + 1),
                        tid,
                        q,
                    ) by {
                        let (j2, k2) = choose|j2: int, k2: int|
                            0 <= j2 < maps.take(j as int).len() && 0 <= k2 < cats.len() && (
                            #[trigger] maps.take(j as int)[j2]).topic_id == tid && (
                            #[trigger] cats[k2]).id == maps.take(j as int)[j2].category_id
                                && cats[k2].name@ == q;
                        assert(maps.take(j + 1)[j2] == maps.take(j as int)[j2]);
                    }
                }
            }
            j = j + 1;
        }
        proof {
            assert(maps.take(n as int) =~= maps);
        }
        out
    }

    /// Looks up a bookmark by identifier, carrying its aggregated,
    /// alphabetically sorted category names.
    pub fn bookmark_get_by_id(&self, id: i64) -> (r: Option<BookmarkRow>)
        requires
            self.wf(),
        ensures
            r is Some <==> self.has_bookmark(id),
            r matches Some(row) ==> row == bookmark_row_of(self.bookmark_by_id(id), row.categories)
                && is_bm_aggregate(*self, id, row.categories@),
    {
        match self.find_bookmark(id) {
            Some(i) => {
                let b = self.bookmarks[i].duplicate();
                let cats = self.bookmark_categories(id);
                Some(
                    BookmarkRow {
                        id: b.id,
                        url: b.url,
                        user_id: b.user_id,
                        title: b.title,
                        content: b.content,
                        referrer: b.referrer,
                        status: b.status,
                        created_on: b.created_on,
                        updated_on: b.updated_on,
                        categories: cats,
                    },
                )
            },
            None => None,
        }
    }

    /// Decides whether bookmark `bid` reaches topic `tid` through some
    /// category.
    fn bm_topic_linked(&self, bid: i64, tid: i64) -> (r: bool)
        ensures
            r == tc_bc_linked(self.topic_cat@, self.bookmark_cat@, bid, tid),
    {
        let n = self.bookmark_cat.len();
        let mut j: usize = 0;
        while j < n
            invariant
                0 <= j <= n,
                n == self.bookmark_cat@.len(),
                forall|k: int|
                    0 <= k < j ==> !((#[trigger] self.bookmark_cat@[k]).bookmark_id == bid
                        && self.topic_cat@.contains(
                        TopicCatRow { topic_id: tid, category_id: self.bookmark_cat@[k].category_id },
                    )),
            decreases n - j,
        {
            let m = self.bookmark_cat[j];
            if m.bookmark_id == bid {
                if self.contains_topic_link(tid, m.category_id) {
                    return true;
                }
            }
            j = j + 1;
        }
        false
    }

    /// Lists the bookmarks selected by the owner, the optional topic, the
    /// optional post-aggregation category filter and the optional status,
    /// in table order, each carrying its aggregated category names.
    pub fn select_rows(
        &self,
        user_id: &str,
        topic: Option<&str>,
        categories: Option<&Vec<String>>,
        status: &Option<String>,
    ) -> (r: Vec<BookmarkRow>)
        requires
            self.wf(),
        ensures
            rows_correspond(
                *self,
                r@,
                selected_bookmarks(
                    *self,
                    self.bookmarks@,
                    user_id@,
                    opt_str(topic),
                    opt_views(categories),
                    opt_chars(*status),
                ),
            ),
    {
        let ghost bms = self.bookmarks@;
        let ghost tv = opt_str(topic);
        let ghost fv = opt_views(categories);
        let ghost sv = opt_chars(*status);
        let mut out: Vec<BookmarkRow> = Vec::new();
        let n = self.bookmarks.len();
        let mut i: usize = 0;
        proof {
            assert(bms.take(0) =~= Seq::<BookmarkRec>::empty());
        }
        while i < n
            invariant
                0 <= i <= n,
                n == bms.len(),
                self.wf(),
                bms == self.bookmarks@,
                tv == opt_str(topic),
                fv == opt_views(categories),
                sv == opt_chars(*status),
                rows_correspond(*self, out@, selected_bookmarks(*self, bms.take(i as int), user_id@, tv, fv, sv)),
            decreases n - i,
        {
            proof {
                assert(bms.take(i + 1).drop_last() =~= bms.take(i as int));
                assert(bms.take(i + 1).last() == bms[i as int]);
            }
            let bid = self.bookmarks[i].id;
            let owner_ok = str_eq(self.bookmarks[i].user_id.as_str(), user_id);
            let status_ok = match status {
                Some(st) => str_eq(self.bookmarks[i].status.as_str(), st.as_str()),
                None => true,
            };
            let topic_ok = match topic {
                Some(tn) => match self.find_topic(user_id, tn) {
                    Some(ti) => self.bm_topic_linked(bid, self.topics[ti].id),
                    None => false,
                },
                None => true,
            };
            if owner_ok && status_ok && topic_ok {
                let cats_of_b = self.bookmark_categories(bid);
                let keep = match categories {
                    Some(f) => {
                        if f.len() == 0 {
                            true
                        } else {
                            let hit = intersects_names(&cats_of_b, f);
                            proof {
                                if hit {
                                    let w = choose|w: int|
                                        0 <= w < views_of(f@).len() && views_of(
                                            cats_of_b@,
                                        ).contains(#[trigger] views_of(f@)[w]);
                                    assert(bm_cat_name(
                                        self.categories@,
                                        self.bookmark_cat@,
                                        bid,
                                        views_of(f@)[w],
                                    ));
                                } else {
                                    if bm_intersects(
                                        self.categories@,
                                        self.bookmark_cat@,
                                        bid,
                                        views_of(f@),
                                    ) {
                                        let w = choose|w: int|
                                            0 <= w < views_of(f@).len() && bm_cat_name(
                                                self.categories@,
                                                self.bookmark_cat@,
                                                bid,
                                                #[trigger] views_of(f@)[w],
                                            );
                                        assert(views_of(cats_of_b@).contains(views_of(f@)[w]));
                                    }
                                }
                            }
                            hit
                        }
                    },
                    None => true,
                };
                if keep {
                    let b = self.bookmarks[i].duplicate();
                    let row = BookmarkRow {
                        id: b.id,
                        url: b.url,
                        user_id: b.user_id,
                        title: b.title,
                        content: b.content,
                        referrer: b.referrer,
                        status: b.status,
                        created_on: b.created_on,
                        updated_on: b.updated_on,
                        categories: cats_of_b,
                    };
                    out.push(row);
                    proof {
                        assert(bm_selected(*self, bms[i as int], user_id@, tv, fv, sv));
                        let sel1 = selected_bookmarks(*self, bms.take(i + 1), user_id@, tv, fv, sv);
                        let sel0 = selected_bookmarks(*self, bms.take(i as int), user_id@, tv, fv, sv);
                        assert(sel1 == sel0.push(bms[i as int]));
                        assert forall|k: int| 0 <= k < sel1.len() implies (#[trigger] out@[k])
                            == bookmark_row_of(sel1[k], out@[k].categories) && is_bm_aggregate(
                            *self,
                            sel1[k].id,
                            out@[k].categories@,
                        ) by {
                            if k < sel0.len() {
                                assert(sel1[k] == sel0[k]);
                            }
                        }
                    }
                } else {
                    proof {
                        assert(!bm_selected(*self, bms[i as int], user_id@, tv, fv, sv));
                    }
                }
            } else {
                proof {
                    assert(!bm_selected(*self, bms[i as int], user_id@, tv, fv, sv));
                }
            }
            i = i + 1;
        }
        proof {
            assert(bms.take(n as int) =~= bms);
        }
        out
    }

    /// Lists a user's bookmarks under the optional category-set and status
    /// filters, each row carrying its aggregated category names.
    pub fn filter(
        &self,
        user_id: &str,
        categories: Option<&Vec<String>>,
        status: &Option<String>,
    ) -> (r: Vec<BookmarkRow>)
        requires
            self.wf(),
        ensures
            rows_correspond(
                *self,
                r@,
                selected_bookmarks(
                    *self,
                    self.bookmarks@,
                    user_id@,
                    None,
                    opt_views(categories),
                    opt_chars(*status),
                ),
            ),
    {
        self.select_rows(user_id, None, categories, status)
    }

    /// Lists a user's bookmarks under a topic, expressed as an existence
    /// check along the topic-category-bookmark chain rather than a join,
    /// so rows are never multiplied.
    pub fn filter_by_topic(
        &self,
        user_id: &str,
        topic_name: &str,
        categories: Option<&Vec<String>>,
        status: &Option<String>,
    ) -> (r: Vec<BookmarkRow>)
        requires
            self.wf(),
        ensures
            rows_correspond(
                *self,
                r@,
                selected_bookmarks(
                    *self,
                    self.bookmarks@,
                    user_id@,
                    Some(topic_name@),
                    opt_views(categories),
                    opt_chars(*status),
                ),
            ),
    {
        self.select_rows(user_id, Some(topic_name), categories, status)
    }

    /// Lists the bookmarks selected by the filters, in listing order
    /// (most recent first, identifier ascending on ties), cut to one
    /// 1-indexed page with its navigation flags.
    pub fn list_bookmarks(
        &self,
        user_id: &str,
        topic: Option<&str>,
        categories: Option<&Vec<String>>,
        status: &Option<String>,
        page_no: i32,
        page_size: i32,
    ) -> (r: BookmarkPage)
        requires
            self.wf(),
        ensures
            r.has_prev == (page_no > 1),
            exists|all: Seq<BookmarkRow>, sorted: Seq<BookmarkRow>|
                #![trigger rows_correspond(*self, all, selected_bookmarks(*self, self.bookmarks@, user_id@, opt_str(topic), opt_views(categories), opt_chars(*status))), sorted.to_multiset()]
                {
                    let size = clamp_size_spec(page_size);
                    let off = page_offset_spec(page_no, size);
                    let len = sorted.len() as int;
                    &&& rows_correspond(
                        *self,
                        all,
                        selected_bookmarks(
                            *self,
                            self.bookmarks@,
                            user_id@,
                            opt_str(topic),
                            opt_views(categories),
                            opt_chars(*status),
                        ),
                    )
                    &&& sorted.to_multiset() == all.to_multiset()
                    &&& rows_sorted(sorted)
                    &&& r.has_next == (len > off + size)
                    &&& r.rows@ == sorted.subrange(
                        page_lo(off, len),
                        page_hi(off, size, len),
                    )
                },
    {
        let all = self.select_rows(user_id, topic, categories, status);
        let ghost all0 = all@;
        let sorted = sort_rows(all);
        let ghost sorted0 = sorted@;
        let page = page_of(sorted, page_no, page_size);
        proof {
            assert(rows_correspond(
                *self,
                all0,
                selected_bookmarks(
                    *self,
                    self.bookmarks@,
                    user_id@,
                    opt_str(topic),
                    opt_views(categories),
                    opt_chars(*status),
                ),
            ));
            assert(sorted0.to_multiset() == all0.to_multiset());
        }
        page
    }

    /// Lists the user's category projections, in table order.
    pub fn cat_list_all(&self, user_id: &str) -> (r: Vec<CategoryRowView>)
        requires
            self.wf(),
        ensures
            r@ == user_cat_views(self.categories@, user_id@),
    {
        let ghost cats = self.categories@;
        let mut out: Vec<CategoryRowView> = Vec::new();
        let n = self.categories.len();
        let mut i: usize = 0;
        proof {
            assert(cats.take(0) =~= Seq::<CatRow>::empty());
        }
        while i < n
            invariant
                0 <= i <= n,
                n == cats.len(),
                self.wf(),
                cats == self.categories@,
                out@ == user_cat_views(cats.take(i as int), user_id@),
            decreases n - i,
        {
            proof {
                assert(cats.take(i + 1).drop_last() =~= cats.take(i as int));
                assert(cats.take(i + 1).last() == cats[i as int]);
            }
            if crate::order::str_eq(self.categories[i].user_id.as_str(), user_id) {
                out.push(self.categories[i].to_view());
            }
            i = i + 1;
        }
        proof {
            assert(cats.take(n as int) =~= cats);
        }
        out
    }

    /// Decides whether category `cat_id` is linked to one of the user's
    /// topics named in `names`.
    fn cat_in_topics_exec(&self, user_id: &str, names: &Vec<String>, cat_id: i64) -> (r: bool)
        requires
            self.wf(),
        ensures
            r == (exists|l: int|
                0 <= l < self.topics@.len() && (#[trigger] self.topics@[l]).user_id@ == user_id@
                    && views_of(names@).contains(self.topics@[l].name@) && self.topic_cat@.contains(
                    TopicCatRow { topic_id: self.topics@[l].id, category_id: cat_id },
                )),
    {
        let n = self.topics.len();
        let mut l: usize = 0;
        while l < n
            invariant
                0 <= l <= n,
                n == self.topics@.len(),
                self.wf(),
                forall|k: int|
                    0 <= k < l ==> !((#[trigger] self.topics@[k]).user_id@ == user_id@
                        && views_of(names@).contains(self.topics@[k].name@)
                        && self.topic_cat@.contains(
                        TopicCatRow { topic_id: self.topics@[k].id, category_id: cat_id },
                    )),
            decreases n - l,
        {
            if str_eq(self.topics[l].user_id.as_str(), user_id) && crate::order::contains_name(
                names,
                self.topics[l].name.as_str(),
            ) && self.contains_topic_link(self.topics[l].id, cat_id) {
                return true;
            }
            l = l + 1;
        }
        false
    }

    /// Lists the user's category projections restricted to those linked
    /// to one of the named topics, in table order.
    pub fn cat_list_by_topic_name(&self, user_id: &str, topic_names: &Vec<String>) -> (r: Vec<
        CategoryRowView,
    >)
        requires
            self.wf(),
        ensures
            r@ == topic_scoped_cat_views(
                self.categories@,
                self.topics@,
                self.topic_cat@,
                user_id@,
                views_of(topic_names@),
            ),
    {
        let ghost cats = self.categories@;
        let ghost nv = views_of(topic_names@);
        let mut out: Vec<CategoryRowView> = Vec::new();
        let n = self.categories.len();
        let mut i: usize = 0;
        proof {
            assert(cats.take(0) =~= Seq::<CatRow>::empty());
        }
        while i < n
            invariant
                0 <= i <= n,
                n == cats.len(),
                self.wf(),
                cats == self.categories@,
                nv == views_of(topic_names@),
                out@ == topic_scoped_cat_views(
                    cats.take(i as int),
                    self.topics@,
                    self.topic_cat@,
                    user_id@,
                    nv,
                ),
            decreases n - i,
        {
            proof {
                assert(cats.take(i + 1).drop_last() =~= cats.take(i as int));
                assert(cats.take(i + 1).last() == cats[i as int]);
            }
            if crate::order::str_eq(self.categories[i].user_id.as_str(), user_id) {
                let cid = self.categories[i].id;
                if self.cat_in_topics_exec(user_id, topic_names, cid) {
                    out.push(self.categories[i].to_view());
                }
            }
            i = i + 1;
        }
        proof {
            assert(cats.take(n as int) =~= cats);
        }
        out
    }

    /// Lists the user's topics, in table order, each carrying its
    /// aggregated category names.
    pub fn topic_list_all(&self, user_id: &str) -> (r: Vec<crate::rows::TopicRowView>)
        requires
            self.wf(),
        ensures
            topic_views_correspond(*self, r@, user_topics(self.topics@, user_id@)),
    {
        let ghost ts = self.topics@;
        let mut out: Vec<crate::rows::TopicRowView> = Vec::new();
        let n = self.topics.len();
        let mut i: usize = 0;
        proof {
            assert(ts.take(0) =~= Seq::<TopicRec>::empty());
        }
        while i < n
            invariant
                0 <= i <= n,
                n == ts.len(),
                self.wf(),
                ts == self.topics@,
                topic_views_correspond(*self, out@, user_topics(ts.take(i as int), user_id@)),
            decreases n - i,
        {
            proof {
                assert(ts.take(i + 1).drop_last() =~= ts.take(i as int));
                assert(ts.take(i + 1).last() == ts[i as int]);
            }
            if crate::order::str_eq(self.topics[i].user_id.as_str(), user_id) {
                let t = self.topics[i].duplicate();
                let cats_of_t = self.topic_categories(t.id);
                let row = crate::rows::TopicRowView {
                    id: t.id,
                    name: t.name,
                    display_name: t.display_name,
                    description: t.description,
                    priority: t.priority,
                    active: t.active,
                    public: t.public,
                    created_on: t.created_on,
                    updated_on: t.updated_on,
                    categories: cats_of_t,
                };
                out.push(row);
                proof {
                    let sel1 = user_topics(ts.take(i + 1), user_id@);
                    let sel0 = user_topics(ts.take(i as int), user_id@);
                    assert(sel1 == sel0.push(ts[i as int]));
                    assert forall|k: int| 0 <= k < sel1.len() implies (#[trigger] out@[k])
                        == crate::rows::topic_view_of(sel1[k], out@[k].categories)
                        && is_topic_aggregate(*self, sel1[k].id, out@[k].categories@) by {
                        if k < sel0.len() {
                            assert(sel1[k] == sel0[k]);
                        }
                    }
                }
            }
            i = i + 1;
        }
        proof {
            assert(ts.take(n as int) =~= ts);
        }
        out
    }

    /// Decides whether topic `tid` is linked to one of the user's
    /// categories named in `names`.
    fn topic_in_cats_exec(&self, user_id: &str, names: &Vec<String>, tid: i64) -> (r: bool)
        requires
            self.wf(),
        ensures
            r == topic_in_cats(
                self.categories@,
                self.topic_cat@,
                user_id@,
                views_of(names@),
                tid,
            ),
    {
        let n = self.categories.len();
        let mut k: usize = 0;
        while k < n
            invariant
                0 <= k <= n,
                n == self.categories@.len(),
                self.wf(),
                forall|w: int|
                    0 <= w < k ==> !((#[trigger] self.categories@[w]).user_id@ == user_id@
                        && views_of(names@).contains(self.categories@[w].name@)
                        && self.topic_cat@.contains(
                        TopicCatRow { topic_id: tid, category_id: self.categories@[w].id },
                    )),
            decreases n - k,
        {
            if str_eq(self.categories[k].user_id.as_str(), user_id) && crate::order::contains_name(
                names,
                self.categories[k].name.as_str(),
            ) && self.contains_topic_link(tid, self.categories[k].id) {
                return true;
            }
            k = k + 1;
        }
        false
    }

    /// Lists the user's topics linked to one of the named categories, in
    /// table order, each carrying its aggregated category names.
    pub fn topic_list_by_cat_name(&self, cat_names: &Vec<String>, user_id: &str) -> (r: Vec<
        crate::rows::TopicRowView,
    >)
        requires
            self.wf(),
        ensures
            topic_views_correspond(
                *self,
                r@,
                cat_scoped_topics(
                    self.topics@,
                    self.categories@,
                    self.topic_cat@,
                    user_id@,
                    views_of(cat_names@),
                ),
            ),
    {
        let ghost ts = self.topics@;
        let ghost nv = views_of(cat_names@);
        let mut out: Vec<crate::rows::TopicRowView> = Vec::new();
        let n = self.topics.len();
        let mut i: usize = 0;
        proof {
            assert(ts.take(0) =~= Seq::<TopicRec>::empty());
        }
        while i < n
            invariant
                0 <= i <= n,
                n == ts.len(),
                self.wf(),
                ts == self.topics@,
                nv == views_of(cat_names@),
                topic_views_correspond(
                    *self,
                    out@,
                    cat_scoped_topics(ts.take(i as int), self.categories@, self.topic_cat@, user_id@, nv),
                ),
            decreases n - i,
        {
            proof {
                assert(ts.take(i + 1).drop_last() =~= ts.take(i as int));
                assert(ts.take(i + 1).last() == ts[i as int]);
            }
            let keep = crate::order::str_eq(self.topics[i].user_id.as_str(), user_id)
                && self.topic_in_cats_exec(user_id, cat_names, self.topics[i].id);
            if keep {
                let t = self.topics[i].duplicate();
                let cats_of_t = self.topic_categories(t.id);
                let row = crate::rows::TopicRowView {
                    id: t.id,
                    name: t.name,
                    display_name: t.display_name,
                    description: t.description,
                    priority: t.priority,
                    active: t.active,
                    public: t.public,
                    created_on: t.created_on,
                    updated_on: t.updated_on,
                    categories: cats_of_t,
                };
                out.push(row);
                proof {
                    let sel1 = cat_scoped_topics(
                        ts.take(i + 1),
                        self.categories@,
                        self.topic_cat@,
                        user_id@,
                        nv,
                    );
                    let sel0 = cat_scoped_topics(
                        ts.take(i as int),
                        self.categories@,
                        self.topic_cat@,
                        user_id@,
                        nv,
                    );
                    assert(sel1 == sel0.push(ts[i as int]));
                    assert forall|k: int| 0 <= k < sel1.len() implies (#[trigger] out@[k])
                        == crate::rows::topic_view_of(sel1[k], out@[k].categories)
                        && is_topic_aggregate(*self, sel1[k].id, out@[k].categories@) by {
                        if k < sel0.len() {
                            assert(sel1[k] == sel0[k]);
                        }
                    }
                }
            }
            i = i + 1;
        }
        proof {
            assert(ts.take(n as int) =~= ts);
        }
        out
    }

    /// Aggregates the distinct names of the user's topics linked to the
    /// category, alphabetically sorted.
    pub fn category_topics(&self, user_id: &str, cid: i64) -> (r: Vec<String>)
        requires
            self.wf(),
        ensures
            strictly_sorted(views_of(r@)),
            forall|n: Seq<char>|
                views_of(r@).contains(n) <==> cat_topic_name(
                    self.topics@,
                    self.topic_cat@,
                    user_id@,
                    cid,
                    n,
                ),
    {
        let ghost ts = self.topics@;
        let mut out: Vec<String> = Vec::new();
        let n = self.topics.len();
        let mut l: usize = 0;
        proof {
            assert(ts.take(0) =~= Seq::<TopicRec>::empty());
        }
        while l < n
            invariant
                0 <= l <= n,
                n == ts.len(),
                self.wf(),
                ts == self.topics@,
                strictly_sorted(views_of(out@)),
                forall|nm: Seq<char>|
                    views_of(out@).contains(nm) <==> cat_topic_name(
                        ts.take(l as int),
                        self.topic_cat@,
                        user_id@,
                        cid,
                        nm,
                    ),
            decreases n - l,
        {
            proof {
                assert(ts.take(l + 1).drop_last() =~= ts.take(l as int));
                assert(ts.take(l + 1)[l as int] == ts[l as int]);
            }
            let linked = str_eq(self.topics[l].user_id.as_str(), user_id)
                && self.contains_topic_link(self.topics[l].id, cid);
            if linked {
                let ghost prev = out@;
                let nm = self.topics[l].name.clone();
                insert_name(&mut out, nm);
                proof {
                    let added = ts[l as int].name@;
                    assert forall|q: Seq<char>| views_of(out@).contains(q) implies cat_topic_name(
                        ts.take(l + 1),
                        self.topic_cat@,
                        user_id@,
                        cid,
                        q,
                    ) by {
                        if views_of(prev).contains(q) {
                            let l2 = choose|l2: int|
                                0 <= l2 < ts.take(l as int).len() && (#[trigger] ts.take(
                                    l as int,
                                )[l2]).user_id@ == user_id@ && ts.take(l as int)[l2].name@ == q
                                    && self.topic_cat@.contains(
                                    TopicCatRow {
                                        topic_id: ts.take(l as int)[l2].id,
                                        category_id: cid,
                                    },
                                );
                            assert(ts.take(l + 1)[l2] == ts.take(l as int)[l2]);
                        } else {
                            assert(q == added);
                            assert(ts.take(l + 1)[l as int].user_id@ == user_id@);
                        }
                    }
                    assert forall|q: Seq<char>|
                        cat_topic_name(ts.take(l + 1), self.topic_cat@, user_id@, cid, q) implies
                        views_of(out@).contains(q) by {
                        let l2 = choose|l2: int|
                            0 <= l2 < ts.take(l + 1).len() && (#[trigger] ts.take(l + 1)[l2]).user_id@
                                == user_id@ && ts.take(l + 1)[l2].name@ == q
                                && self.topic_cat@.contains(
                                TopicCatRow { topic_id: ts.take(l + 1)[l2].id, category_id: cid },
                            );
                        if l2 < l {
                            assert(ts.take(l as int)[l2] == ts.take(l + 1)[l2]);
                            assert(cat_topic_name(
                                ts.take(l as int),
                                self.topic_cat@,
                                user_id@,
                                cid,
                                q,
                            ));
                        } else {
                            assert(q == added);
                        }
                    }
                }
            } else {
                proof {
                    assert forall|q: Seq<char>|
                        cat_topic_name(ts.take(l + 1), self.topic_cat@, user_id@, cid, q) implies
                        cat_topic_name(ts.take(l as int), self.topic_cat@, user_id@, cid, q) by {
                        let l2 = choose|l2: int|
                            0 <= l2 < ts.take(l + 1).len() && (#[trigger] ts.take(l + 1)[l2]).user_id@
                                == user_id@ && ts.take(l + 1)[l2].name@ == q
                                && self.topic_cat@.contains(
                                TopicCatRow { topic_id: ts.take(l + 1)[l2].id, category_id: cid },
                            );
                        if l2 < l {
                            assert(ts.take(l as int)[l2] == ts.take(l + 1)[l2]);
                        }
                    }
                    assert forall|q: Seq<char>|
                        cat_topic_name(ts.take(l as int), self.topic_cat@, user_id@, cid, q) implies
                        cat_topic_name(ts.take(l + 1), self.topic_cat@, user_id@, cid, q) by {
                        let l2 = choose|l2: int|
                            0 <= l2 < ts.take(l as int).len() && (#[trigger] ts.take(
                                l as int,
                            )[l2]).user_id@ == user_id@ && ts.take(l as int)[l2].name@ == q
                                && self.topic_cat@.contains(
                                TopicCatRow { topic_id: ts.take(l as int)[l2].id, category_id: cid },
                            );
                        assert(ts.take(l + 1)[l2] == ts.take(l as int)[l2]);
                    }
                }
            }
            l = l + 1;
        }
        proof {
            assert(ts.take(n as int) =~= ts);
        }
        out
    }

    /// Looks up a topic by name for a user, carrying its aggregated,
    /// alphabetically sorted category names.
    pub fn topic_get_by_name(&self, user_id: &str, name: &str) -> (r: Option<TopicRow>)
        requires
            self.wf(),
        ensures
            r is Some <==> self.has_topic(user_id@, name@),
            r matches Some(row) ==> row == topic_row_of(
                self.topic_by_key(user_id@, name@),
                row.categories,
            ) && is_topic_aggregate(*self, self.topic_by_key(user_id@, name@).id, row.categories@),
    {
        match self.find_topic(user_id, name) {
            Some(i) => {
                let t = self.topics[i].duplicate();
                let cats = self.topic_categories(t.id);
                Some(
                    TopicRow {
                        id: t.id,
                        name: t.name,
                        display_name: t.display_name,
                        description: t.description,
                        about: t.about,
                        priority: t.priority,
                        active: t.active,
                        public: t.public,
                        user_id: t.user_id,
                        created_on: t.created_on,
                        updated_on: t.updated_on,
                        categories: cats,
                    },
                )
            },
            None => None,
        }
    }
}

} // verus!
