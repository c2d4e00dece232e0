//! The paged URL listing: bookmarks filtered by category identifiers,
//! most recent first, with previous/next page cursors.

use vstd::prelude::*;

use crate::listing::{
    clamp_size_spec, is_bm_aggregate, page_of, page_offset_spec, rows_correspond, rows_sorted,
    sort_rows,
};
use crate::rows::{bookmark_row_of, BookmarkCatRow, BookmarkRec, BookmarkRow};
use crate::store::Store;

verus! {

/// The query-string shape of the URL listing.
#[derive(Debug)]
pub struct GetUrlQuery {
    pub cat: Option<String>,
    pub p_no: Option<i32>,
    pub size: Option<i32>,
}

/// One listed URL with its aggregated category names.
#[derive(Debug)]
pub struct UrlRow {
    pub id: i64,
    pub title: Option<String>,
    pub url: String,
    pub categories: Vec<String>,
}

/// One page of listed URLs with its cursors.
#[derive(Debug)]
pub struct ListUrlResponse {
    pub prev: Option<i32>,
    pub next: Option<i32>,
    pub count: usize,
    pub rows: Vec<UrlRow>,
}

/// The smaller of two numbers.
pub fn min(a: i32, b: i32) -> (r: i32)
    ensures
        r == if a <= b {
            a
        } else {
            b
        },
{
    if a <= b {
        a
    } else {
        b
    }
}

/// The identifier-based listing predicate: the bookmark belongs to the
/// user and, when the identifier list is not empty, is linked to one of
/// the given categories.
pub open spec fn bm_id_selected(s: Store, b: BookmarkRec, user: Seq<char>, ids: Seq<i64>) -> bool {
    &&& b.user_id@ == user
    &&& (ids.len() == 0 || exists|j: int|
        0 <= j < ids.len() && s.bookmark_cat@.contains(
            BookmarkCatRow { bookmark_id: b.id, category_id: #[trigger] ids[j] },
        ))
}

/// The subsequence of `bms` selected by the identifier-based predicate,
/// in table order.
pub open spec fn id_selected_bookmarks(
    s: Store,
    bms: Seq<BookmarkRec>,
    user: Seq<char>,
    ids: Seq<i64>,
) -> Seq<BookmarkRec>
    decreases bms.len(),
{
    if bms.len() == 0 {
        bms
    } else {
        let prev = id_selected_bookmarks(s, bms.drop_last(), user, ids);
        if bm_id_selected(s, bms.last(), user, ids) {
            prev.push(bms.last())
        } else {
            prev
        }
    }
}

/// The listed shape of one bookmark row.
pub open spec fn url_row_of(row: BookmarkRow) -> UrlRow {
    UrlRow { id: row.id, title: row.title, url: row.url, categories: row.categories }
}

impl Store {
    /// Decides whether the bookmark is linked to one of the given
    /// category identifiers.
    fn bm_linked_to_any(&self, bid: i64, ids: &Vec<i64>) -> (r: bool)
        ensures
            r == (exists|j: int|
                0 <= j < ids@.len() && self.bookmark_cat@.contains(
                    BookmarkCatRow { bookmark_id: bid, category_id: #[trigger] ids@[j] },
                )),
    {
        let n = ids.len();
        let mut j: usize = 0;
        while j < n
            invariant
                0 <= j <= n,
                n == ids@.len(),
                forall|k: int|
                    0 <= k < j ==> !self.bookmark_cat@.contains(
                        BookmarkCatRow { bookmark_id: bid, category_id: #[trigger] ids@[k] },
                    ),
            decreases n - j,
        {
            if self.contains_bm_link(bid, ids[j]) {
                return true;
            }
            j = j + 1;
        }
        false
    }

    /// Lists the user's bookmarks linked to any of the given category
    /// identifiers (all of the user's bookmarks when the list is empty),
    /// in table order, each carrying its aggregated category names.
    pub fn select_rows_by_ids(&self, user_id: &str, ids: &Vec<i64>) -> (r: Vec<BookmarkRow>)
        requires
            self.wf(),
        ensures
            rows_correspond(
                *self,
                r@,
                id_selected_bookmarks(*self, self.bookmarks@, user_id@, ids@),
            ),
    {
        let ghost bms = self.bookmarks@;
        let mut out: Vec<BookmarkRow> = Vec::new();
        let n = self.bookmarks.len();
        let mut i: usize = 0;
        proof {
            assert(bms.take(0) =~= Seq::<BookmarkRec>::empty());
        }
        while i < n
            invariant
                0 <= i <= n,
                n == bms.len(),
                self.wf(),
                bms == self.bookmarks@,
                rows_correspond(
                    *self,
                    out@,
                    id_selected_bookmarks(*self, bms.take(i as int), user_id@, ids@),
                ),
            decreases n - i,
        {
            proof {
                assert(bms.take(i + 1).drop_last() =~= bms.take(i as int));
                assert(bms.take(i + 1).last() == bms[i as int]);
            }
            let bid = self.bookmarks[i].id;
            let owner_ok = crate::order::str_eq(self.bookmarks[i].user_id.as_str(), user_id);
            let linked_ok = if ids.len() == 0 {
                true
            } else {
                self.bm_linked_to_any(bid, ids)
            };
            if owner_ok && linked_ok {
                let cats_of_b = self.bookmark_categories(bid);
                let b = self.bookmarks[i].duplicate();
                let row = BookmarkRow {
                    id: b.id,
                    url: b.url,
                    user_id: b.user_id,
                    title: b.title,
                    content: b.content,
                    referrer: b.referrer,
                    status: b.status,
                    created_on: b.created_on,
                    updated_on: b.updated_on,
                    categories: cats_of_b,
                };
                out.push(row);
                proof {
                    assert(bm_id_selected(*self, bms[i as int], user_id@, ids@));
                    let sel1 = id_selected_bookmarks(*self, bms.take(i + 1), user_id@, ids@);
                    let sel0 = id_selected_bookmarks(*self, bms.take(i as int), user_id@, ids@);
                    assert(sel1 == sel0.push(bms[i as int]));
                    assert forall|k: int| 0 <= k < sel1.len() implies (#[trigger] out@[k])
                        == bookmark_row_of(sel1[k], out@[k].categories) && is_bm_aggregate(
                        *self,
                        sel1[k].id,
                        out@[k].categories@,
                    ) by {
                        if k < sel0.len() {
                            assert(sel1[k] == sel0[k]);
                        }
                    }
                }
            } else {
                proof {
                    assert(!bm_id_selected(*self, bms[i as int], user_id@, ids@));
                }
            }
            i = i + 1;
        }
        proof {
            assert(bms.take(n as int) =~= bms);
        }
        out
    }
}

/// Lists one 1-indexed page of the user's URLs under the identifier
/// filter, most recent first (identifier ascending on ties), with
/// previous/next page cursors and the page's row count.
pub fn get_urls(store: &Store, user_id: &str, categories: &Vec<i64>, p_no: i32, size: i32) -> (r:
    ListUrlResponse)
    requires
        store.wf(),
    ensures
        exists|all: Seq<BookmarkRow>, sorted: Seq<BookmarkRow>|
            #![trigger rows_correspond(*store, all, id_selected_bookmarks(*store, store.bookmarks@, user_id@, categories@)), sorted.to_multiset()]
            {
                let size_s = clamp_size_spec(size);
                let off = page_offset_spec(p_no, size_s);
                let len = sorted.len() as int;
                let window = sorted.subrange(
                    crate::listing::page_lo(off, len),
                    crate::listing::page_hi(off, size_s, len),
                );
                &&& rows_correspond(
                    *store,
                    all,
                    id_selected_bookmarks(*store, store.bookmarks@, user_id@, categories@),
                )
                &&& sorted.to_multiset() == all.to_multiset()
                &&& rows_sorted(sorted)
                &&& r.rows@.len() == window.len()
                &&& (forall|k: int|
                    0 <= k < window.len() ==> r.rows@[k] == url_row_of(#[trigger] window[k]))
                &&& r.count == r.rows@.len()
                &&& r.prev == (if p_no > 1 {
                    Some((p_no - 1) as i32)
                } else {
                    None::<i32>
                })
                &&& r.next == (if len > off + size_s && p_no < i32::MAX {
                    Some((p_no + 1) as i32)
                } else {
                    None::<i32>
                })
            },
{
    let all = store.select_rows_by_ids(user_id, categories);
    let ghost all0 = all@;
    let sorted = sort_rows(all);
    let ghost sorted0 = sorted@;
    let page = page_of(sorted, p_no, size);
    let ghost window0 = page.rows@;
    let prev: Option<i32> = if p_no > 1 {
        Some(p_no - 1)
    } else {
        None
    };
    let next: Option<i32> = if page.has_next && p_no < i32::MAX {
        Some(p_no + 1)
    } else {
        None
    };
    let mut rows_in = page.rows;
    let mut rows: Vec<UrlRow> = Vec::new();
    proof {
        assert(window0.subrange(0, 0) =~= Seq::<BookmarkRow>::empty());
    }
    while rows_in.len() > 0
        invariant
            rows@.len() + rows_in@.len() == window0.len(),
            rows_in@ == window0.subrange(rows@.len() as int, window0.len() as int),
            forall|k: int| 0 <= k < rows@.len() ==> rows@[k] == url_row_of(#[trigger] window0[k]),
        decreases rows_in@.len(),
    {
        proof {
            assert(rows_in@[0] == window0[rows@.len() as int]);
            assert(rows_in@.remove(0) =~= window0.subrange(
                rows@.len() as int + 1,
                window0.len() as int,
            ));
        }
        let row = rows_in.remove(0);
        rows.push(UrlRow { id: row.id, title: row.title, url: row.url, categories: row.categories });
    }
    let count = rows.len();
    proof {
        assert(rows_correspond(
            *store,
            all0,
            id_selected_bookmarks(*store, store.bookmarks@, user_id@, categories@),
        ));
        assert(sorted0.to_multiset() == all0.to_multiset());
    }
    ListUrlResponse { prev, next, count, rows }
}

} // verus!
