//! Laws of the taxonomy store, proved once and for all.

use vstd::prelude::*;

use crate::listing::bm_cat_name;
use crate::order::{lemma_name_lt_transitive, lemma_name_lt_trichotomy, name_lt, strictly_sorted};
use crate::protocol::upsert_cat_one;
use crate::rows::{BookmarkCatRow, CatRow, CatRowI};
use crate::store::{add_bc_links, cat_keyed, has_cat_in, without_bookmark};

verus! {

/// Counts the category rows keyed by the given owner and name.
pub open spec fn cat_key_count(cats: Seq<CatRow>, user: Seq<char>, name: Seq<char>) -> int
    decreases cats.len(),
{
    if cats.len() == 0 {
        0
    } else {
        cat_key_count(cats.drop_last(), user, name) + (if cat_keyed(cats.last(), user, name) {
            1int
        } else {
            0int
        })
    }
}

/// The count is non-negative, and positive exactly when a row with the
/// key exists.
pub proof fn lemma_key_count_has(cats: Seq<CatRow>, user: Seq<char>, name: Seq<char>)
    ensures
        cat_key_count(cats, user, name) >= 0,
        cat_key_count(cats, user, name) > 0 <==> has_cat_in(cats, user, name),
    decreases cats.len(),
{
    if cats.len() == 0 {
    } else {
        lemma_key_count_has(cats.drop_last(), user, name);
        if cat_key_count(cats, user, name) > 0 {
            if cat_keyed(cats.last(), user, name) {
                assert(cat_keyed(cats[cats.len() - 1], user, name));
            } else {
                let w = choose|w: int|
                    0 <= w < cats.drop_last().len() && #[trigger] cat_keyed(
                        cats.drop_last()[w],
                        user,
                        name,
                    );
                assert(cat_keyed(cats[w], user, name));
            }
        }
        if has_cat_in(cats, user, name) {
            let w = choose|w: int|
                0 <= w < cats.len() && #[trigger] cat_keyed(cats[w], user, name);
            if w < cats.len() - 1 {
                assert(cat_keyed(cats.drop_last()[w], user, name));
                assert(has_cat_in(cats.drop_last(), user, name));
            }
        }
    }
}

/// Idempotent upsert: upserting the same `(name, user_id)` twice, with
/// whatever fresh identifiers and timestamps each call would use, leaves
/// the table exactly as the first upsert left it, and exactly one row
/// with that key exists afterwards — so both callers resolve the name to
/// the identifier of that one row.
pub proof fn lemma_upsert_idempotent(
    cats: Seq<CatRow>,
    r1: CatRowI,
    r2: CatRowI,
    id1: i64,
    id2: i64,
    t1: i64,
    t2: i64,
)
    requires
        r1.user_id@ == r2.user_id@,
        r1.name@ == r2.name@,
        cat_key_count(cats, r1.user_id@, r1.name@) <= 1,
    ensures
        upsert_cat_one(upsert_cat_one(cats, r1, id1, t1), r2, id2, t2) == upsert_cat_one(
            cats,
            r1,
            id1,
            t1,
        ),
        cat_key_count(upsert_cat_one(cats, r1, id1, t1), r1.user_id@, r1.name@) == 1,
{
    let u = r1.user_id@;
    let nm = r1.name@;
    lemma_key_count_has(cats, u, nm);
    let c1 = upsert_cat_one(cats, r1, id1, t1);
    if has_cat_in(cats, u, nm) {
        assert(c1 == cats);
    } else {
        assert(c1 == cats.push(crate::rows::cat_row_from(r1, id1, t1)));
        assert(c1.drop_last() =~= cats);
        assert(cat_keyed(c1.last(), u, nm));
        assert(cat_key_count(c1, u, nm) == cat_key_count(cats, u, nm) + 1);
        assert(has_cat_in(c1, u, nm)) by {
            assert(cat_keyed(c1[c1.len() - 1], u, nm));
        }
    }
    assert(has_cat_in(c1, r2.user_id@, r2.name@));
}

/// Delete cascade: after a bookmark's mapping rows are cascaded away, no
/// mapping row for that bookmark remains, while every other bookmark's
/// rows are all still there.
pub proof fn lemma_delete_cascade(maps: Seq<BookmarkCatRow>, bookmark_id: i64)
    ensures
        forall|k: int|
            0 <= k < without_bookmark(maps, bookmark_id).len() ==> (#[trigger] without_bookmark(
                maps,
                bookmark_id,
            )[k]).bookmark_id != bookmark_id,
        forall|m: BookmarkCatRow|
            maps.contains(m) && m.bookmark_id != bookmark_id ==> without_bookmark(
                maps,
                bookmark_id,
            ).contains(m),
        forall|m: BookmarkCatRow|
            without_bookmark(maps, bookmark_id).contains(m) ==> maps.contains(m),
    decreases maps.len(),
{
    if maps.len() == 0 {
    } else {
        lemma_delete_cascade(maps.drop_last(), bookmark_id);
        let prev = without_bookmark(maps.drop_last(), bookmark_id);
        let res = without_bookmark(maps, bookmark_id);
        let m0 = maps.last();
        assert(maps[maps.len() - 1] == m0);
        if m0.bookmark_id != bookmark_id {
            assert forall|k: int| 0 <= k < res.len() implies (#[trigger] res[k]).bookmark_id
                != bookmark_id by {
                if k < prev.len() {
                    assert(res[k] == prev[k]);
                } else {
                    assert(res[k] == m0);
                }
            }
        }
        assert forall|m: BookmarkCatRow|
            maps.contains(m) && m.bookmark_id != bookmark_id implies res.contains(m) by {
            let w = choose|w: int| 0 <= w < maps.len() && maps[w] == m;
            if w < maps.len() - 1 {
                assert(maps.drop_last()[w] == m);
                assert(maps.drop_last().contains(m));
                assert(prev.contains(m));
                if m0.bookmark_id != bookmark_id {
                    let v = choose|v: int| 0 <= v < prev.len() && prev[v] == m;
                    assert(prev.push(m0)[v] == m);
                }
            } else {
                assert(m == m0);
                assert(prev.push(m0)[prev.len() as int] == m);
            }
        }
        assert forall|m: BookmarkCatRow|
            res.contains(m) implies maps.contains(m) by {
            let w = choose|w: int| 0 <= w < res.len() && res[w] == m;
            if m0.bookmark_id != bookmark_id && w == prev.len() as int {
                assert(m == m0);
                assert(maps[maps.len() - 1] == m);
            } else {
                assert(prev.contains(m)) by {
                    assert(prev[w] == m);
                }
                assert(maps.drop_last().contains(m));
                let v = choose|v: int|
                    0 <= v < maps.drop_last().len() && maps.drop_last()[v] == m;
                assert(maps[v] == m);
            }
        }
    }
}

/// Tagging grows the aggregate by exactly the new name: linking a
/// bookmark to a freshly allocated category (one whose identifier no
/// table or mapping row carries yet, as the store invariant guarantees
/// for every identifier the sequence hands out next) adds that
/// category's name to the bookmark's category set and nothing else, and
/// leaves every other bookmark's set alone.
pub proof fn lemma_aggregate_grows(
    cats: Seq<CatRow>,
    maps: Seq<BookmarkCatRow>,
    bid: i64,
    c: CatRow,
)
    requires
        forall|i: int| 0 <= i < maps.len() ==> (#[trigger] maps[i]).category_id != c.id,
        forall|k: int| 0 <= k < cats.len() ==> (#[trigger] cats[k]).id != c.id,
    ensures
        forall|q: Seq<char>|
            bm_cat_name(cats.push(c), add_bc_links(maps, bid, seq![c.id]), bid, q) <==> (
            bm_cat_name(cats, maps, bid, q) || q == c.name@),
        forall|b2: i64, q: Seq<char>|
            b2 != bid ==> (bm_cat_name(cats.push(c), add_bc_links(maps, bid, seq![c.id]), b2, q)
                <==> bm_cat_name(cats, maps, b2, q)),
{
    let ids = seq![c.id];
    let row = BookmarkCatRow { bookmark_id: bid, category_id: c.id };
    assert(ids.drop_last() =~= Seq::<i64>::empty());
    assert(ids.last() == c.id);
    if maps.contains(row) {
        let w = choose|w: int| 0 <= w < maps.len() && maps[w] == row;
        assert(false);
    }
    assert(add_bc_links(maps, bid, Seq::<i64>::empty()) == maps);
    assert(ids.drop_last() == Seq::<i64>::empty());
    assert(add_bc_links(maps, bid, ids.drop_last()) == maps);
    let maps1 = add_bc_links(maps, bid, ids);
    assert(maps1 == maps.push(row));
    let cats1 = cats.push(c);
    assert forall|q: Seq<char>|
        bm_cat_name(cats1, maps1, bid, q) implies (bm_cat_name(cats, maps, bid, q) || q
        == c.name@) by {
        let (j, k) = choose|j: int, k: int|
            0 <= j < maps1.len() && 0 <= k < cats1.len() && (#[trigger] maps1[j]).bookmark_id
                == bid && (#[trigger] cats1[k]).id == maps1[j].category_id && cats1[k].name@ == q;
        if j < maps.len() {
            assert(maps1[j] == maps[j]);
            if k == cats.len() {
                assert(cats1[k] == c);
                assert(maps[j].category_id == c.id);
            } else {
                assert(cats1[k] == cats[k]);
                assert(bm_cat_name(cats, maps, bid, q));
            }
        } else {
            assert(maps1[j] == row);
            if k < cats.len() {
                assert(cats1[k] == cats[k]);
                assert(cats[k].id == c.id);
            } else {
                assert(cats1[k] == c);
                assert(q == c.name@);
            }
        }
    }
    assert forall|q: Seq<char>|
        (bm_cat_name(cats, maps, bid, q) || q == c.name@) implies bm_cat_name(
        cats1,
        maps1,
        bid,
        q,
    ) by {
        if bm_cat_name(cats, maps, bid, q) {
            let (j, k) = choose|j: int, k: int|
                0 <= j < maps.len() && 0 <= k < cats.len() && (#[trigger] maps[j]).bookmark_id
                    == bid && (#[trigger] cats[k]).id == maps[j].category_id && cats[k].name@
                    == q;
            assert(maps1[j] == maps[j]);
            assert(cats1[k] == cats[k]);
        } else {
            assert(maps1[maps.len() as int] == row);
            assert(cats1[cats.len() as int] == c);
        }
    }
    assert forall|b2: i64, q: Seq<char>|
        b2 != bid implies (bm_cat_name(cats1, maps1, b2, q) <==> bm_cat_name(
        cats,
        maps,
        b2,
        q,
    )) by {
        if bm_cat_name(cats1, maps1, b2, q) {
            let (j, k) = choose|j: int, k: int|
                0 <= j < maps1.len() && 0 <= k < cats1.len() && (#[trigger] maps1[j]).bookmark_id
                    == b2 && (#[trigger] cats1[k]).id == maps1[j].category_id && cats1[k].name@
                    == q;
            if j == maps.len() {
                assert(maps1[j] == row);
            } else {
                assert(maps1[j] == maps[j]);
                if k == cats.len() {
                    assert(cats1[k] == c);
                    assert(maps[j].category_id == c.id);
                } else {
                    assert(cats1[k] == cats[k]);
                    assert(bm_cat_name(cats, maps, b2, q));
                }
            }
        }
        if bm_cat_name(cats, maps, b2, q) {
            let (j, k) = choose|j: int, k: int|
                0 <= j < maps.len() && 0 <= k < cats.len() && (#[trigger] maps[j]).bookmark_id
                    == b2 && (#[trigger] cats[k]).id == maps[j].category_id && cats[k].name@
                    == q;
            assert(maps1[j] == maps[j]);
            assert(cats1[k] == cats[k]);
        }
    }
}

/// Aggregates are canonical: two strictly sorted name sequences holding
/// the same names are the same sequence, so a row's materialized
/// category array is determined by its category set alone.
pub proof fn lemma_sorted_names_unique(a: Seq<Seq<char>>, b: Seq<Seq<char>>)
    requires
        strictly_sorted(a),
        strictly_sorted(b),
        forall|n: Seq<char>| a.contains(n) <==> b.contains(n),
    ensures
        a =~= b,
    decreases a.len(),
{
    if a.len() == 0 {
        if b.len() > 0 {
            assert(b.contains(b[0]));
            assert(a.contains(b[0]));
        }
    } else {
        assert(a.contains(a[0]));
        assert(b.contains(a[0]));
        let j = choose|j: int| 0 <= j < b.len() && b[j] == a[0];
        assert(b.contains(b[0]));
        assert(a.contains(b[0]));
        let i = choose|i: int| 0 <= i < a.len() && a[i] == b[0];
        if j > 0 {
            assert(name_lt(b[0], b[j]));
            if i > 0 {
                assert(name_lt(a[0], a[i]));
                lemma_name_lt_transitive(a[0], b[0], a[0]);
                lemma_name_lt_trichotomy(a[0], a[0]);
            } else {
                lemma_name_lt_trichotomy(a[0], a[0]);
            }
        }
        assert(b[0] == a[0]);
        let at = a.drop_first();
        let bt = b.drop_first();
        assert forall|p: int, q: int| 0 <= p < q < at.len() implies name_lt(at[p], at[q]) by {
            assert(at[p] == a[p + 1]);
            assert(at[q] == a[q + 1]);
        }
        assert forall|p: int, q: int| 0 <= p < q < bt.len() implies name_lt(bt[p], bt[q]) by {
            assert(bt[p] == b[p + 1]);
            assert(bt[q] == b[q + 1]);
        }
        assert forall|n: Seq<char>| at.contains(n) implies bt.contains(n) by {
            let w = choose|w: int| 0 <= w < at.len() && at[w] == n;
            assert(a[w + 1] == n);
            assert(a.contains(n));
            assert(b.contains(n));
            let v = choose|v: int| 0 <= v < b.len() && b[v] == n;
            if v == 0 {
                assert(name_lt(a[0], a[w + 1]));
                lemma_name_lt_trichotomy(a[0], n);
            } else {
                assert(bt[v - 1] == n);
            }
        }
        assert forall|n: Seq<char>| bt.contains(n) implies at.contains(n) by {
            let w = choose|w: int| 0 <= w < bt.len() && bt[w] == n;
            assert(b[w + 1] == n);
            assert(b.contains(n));
            assert(a.contains(n));
            let v = choose|v: int| 0 <= v < a.len() && a[v] == n;
            if v == 0 {
                assert(name_lt(b[0], b[w + 1]));
                lemma_name_lt_trichotomy(b[0], n);
            } else {
                assert(at[v - 1] == n);
            }
        }
        lemma_sorted_names_unique(at, bt);
        assert forall|k: int| 0 <= k < a.len() implies a[k] == b[k] by {
            if k > 0 {
                assert(a[k] == at[k - 1]);
                assert(b[k] == bt[k - 1]);
            }
        }
    }
}

} // verus!
