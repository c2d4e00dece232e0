//! The upsert-and-link protocol.
//!
//! Creating a bookmark or a topic with a list of category *names* first
//! batch-upserts the named categories (insert the missing ones, leave the
//! rest untouched), then writes the owning row, then the junction rows,
//! idempotently.  Every failure is detected before the first write, so an
//! error always leaves the store exactly as it was: partial tagging is
//! never visible.

use vstd::prelude::*;

use crate::errors::{EntityKind, StoreError};
use crate::rows::{cat_row_from, CatRow, CatRowI};
use crate::store::{cat_index_in, cat_keyed, has_cat_in, Store};

verus! {

/// One conflict-free category upsert: a row keyed like an existing one
/// changes nothing, otherwise the new row is appended with the next
/// identifier.
pub open spec fn upsert_cat_one(cats: Seq<CatRow>, row: CatRowI, id: i64, now: i64) -> Seq<CatRow> {
    if has_cat_in(cats, row.user_id@, row.name@) {
        cats
    } else {
        cats.push(cat_row_from(row, id, now))
    }
}

/// The category table and identifier sequence after batch-upserting
/// `rows` in order.
pub open spec fn upsert_cats_seq(cats: Seq<CatRow>, next: int, rows: Seq<CatRowI>, now: i64) -> (
    Seq<CatRow>,
    int,
)
    decreases rows.len(),
{
    if rows.len() == 0 {
        (cats, next)
    } else {
        let prev = upsert_cats_seq(cats, next, rows.drop_last(), now);
        if has_cat_in(prev.0, rows.last().user_id@, rows.last().name@) {
            prev
        } else {
            (prev.0.push(cat_row_from(rows.last(), prev.1 as i64, now)), prev.1 + 1)
        }
    }
}

/// The identifier that each upserted row resolves to, read off the final
/// table.
pub open spec fn cat_ids_for(cats: Seq<CatRow>, rows: Seq<CatRowI>) -> Seq<i64> {
    Seq::new(
        rows.len(),
        |k: int| cats[cat_index_in(cats, rows[k].user_id@, rows[k].name@)].id,
    )
}

/// Identifiers resolved off a well-formed table were all handed out by
/// the sequence: each is some stored row's identifier.
pub proof fn lemma_resolved_ids_allocated(s: Store, rows: Seq<CatRowI>, ids: Seq<i64>)
    requires
        s.wf(),
        ids == cat_ids_for(s.categories@, rows),
        forall|k: int|
            0 <= k < rows.len() ==> has_cat_in(
                s.categories@,
                (#[trigger] rows[k]).user_id@,
                rows[k].name@,
            ),
    ensures
        ids.len() == rows.len(),
        forall|k: int| 0 <= k < ids.len() ==> s.id_allocated(#[trigger] ids[k]),
{
    assert forall|k: int| 0 <= k < ids.len() implies s.id_allocated(#[trigger] ids[k]) by {
        let u = rows[k].user_id@;
        let nm = rows[k].name@;
        assert(has_cat_in(s.categories@, u, nm));
        let j = cat_index_in(s.categories@, u, nm);
        assert(0 <= j < s.categories@.len() && cat_keyed(s.categories@[j], u, nm));
        assert(ids[k] == s.categories@[j].id);
        assert(1 <= s.categories@[j].id < s.next_id);
    }
}

impl Store {
    /// Batch-upserts the given category rows for their owners: rows whose
    /// `(name, user_id)` already exists are left untouched (metadata is
    /// preserved), the rest are inserted; duplicates in the input neither
    /// duplicate rows nor fail.  Returns the identifier each row resolved
    /// to, aligned with the input.
    pub fn upsert_categories(&mut self, rows: &Vec<CatRowI>, now: i64) -> (r: Result<
        Vec<i64>,
        StoreError,
    >)
        requires
            old(self).wf(),
        ensures
            final(self).wf(),
            r is Ok <==> old(self).next_id + rows@.len() <= i64::MAX,
            r matches Ok(ids) ==> {
                let folded = upsert_cats_seq(
                    old(self).categories@,
                    old(self).next_id as int,
                    rows@,
                    now,
                );
                &&& final(self).categories@ == folded.0
                &&& final(self).next_id as int == folded.1
                &&& final(self).next_id as int <= old(self).next_id as int + rows@.len()
                &&& old(self).next_id <= final(self).next_id
                &&& (forall|k: int|
                    0 <= k < ids@.len() ==> final(self).id_allocated(#[trigger] ids@[k]))
                &&& ids@ == cat_ids_for(folded.0, rows@)
                &&& forall|k: int|
                    0 <= k < rows@.len() ==> has_cat_in(
                        folded.0,
                        (#[trigger] rows@[k]).user_id@,
                        rows@[k].name@,
                    )
            },
            r is Err ==> *final(self) == *old(self) && r == Err::<Vec<i64>, StoreError>(
                StoreError::Unavailable,
            ),
            final(self).topics == old(self).topics,
            final(self).bookmarks == old(self).bookmarks,
            final(self).topic_cat == old(self).topic_cat,
            final(self).bookmark_cat == old(self).bookmark_cat,
    {
        let n = rows.len();
        if (n as u64) > ((i64::MAX - self.next_id) as u64) {
            return Err(StoreError::Unavailable);
        }
        let ghost cats0 = self.categories@;
        let ghost next0 = self.next_id as int;
        let mut ids: Vec<i64> = Vec::new();
        let mut k: usize = 0;
        proof {
            assert(rows@.take(0) =~= Seq::<CatRowI>::empty());
        }
        while k < n
            invariant
                0 <= k <= n,
                n == rows@.len(),
                old(self).wf(),
                self.wf(),
                cats0 == old(self).categories@,
                next0 == old(self).next_id as int,
                next0 + n <= i64::MAX,
                self.categories@ == upsert_cats_seq(cats0, next0, rows@.take(k as int), now).0,
                self.next_id as int == upsert_cats_seq(cats0, next0, rows@.take(k as int), now).1,
                self.next_id as int <= next0 + k,
                next0 <= self.next_id as int,
                self.topics == old(self).topics,
                self.bookmarks == old(self).bookmarks,
                self.topic_cat == old(self).topic_cat,
                self.bookmark_cat == old(self).bookmark_cat,
                ids@.len() == k,
                forall|w: int|
                    0 <= w < k ==> has_cat_in(
                        self.categories@,
                        (#[trigger] rows@[w]).user_id@,
                        rows@[w].name@,
                    ) && ids@[w] == self.categories@[cat_index_in(
                        self.categories@,
                        rows@[w].user_id@,
                        rows@[w].name@,
                    )].id,
            decreases n - k,
        {
            proof {
                assert(rows@.take(k + 1).drop_last() =~= rows@.take(k as int));
                assert(rows@.take(k + 1).last() == rows@[k as int]);
            }
            let ghost cats_before = self.categories@;
            match self.find_cat(rows[k].user_id.as_str(), rows[k].name.as_str()) {
                Some(i) => {
                    ids.push(self.categories[i].id);
                    proof {
                        let u = rows@[k as int].user_id@;
                        let nm = rows@[k as int].name@;
                        assert(i as int == cat_index_in(self.categories@, u, nm));
                    }
                },
                None => {
                    let row_copy = CatRowI {
                        name: rows[k].name.clone(),
                        display_name: crate::rows::dup_opt(&rows[k].display_name),
                        description: crate::rows::dup_opt(&rows[k].description),
                        about: crate::rows::dup_opt(&rows[k].about),
                        priority: rows[k].priority,
                        active: rows[k].active,
                        public: rows[k].public,
                        user_id: rows[k].user_id.clone(),
                    };
                    proof {
                        assert(row_copy == rows@[k as int]);
                    }
                    let id = match self.cat_insert(row_copy, now) {
                        Ok(id) => id,
                        Err(_) => {
                            proof {
                                assert(false);
                            }
                            unreached()
                        },
                    };
                    ids.push(id);
                    proof {
                        let u = rows@[k as int].user_id@;
                        let nm = rows@[k as int].name@;
                        let cs = self.categories@;
                        assert(cs == cats_before.push(cat_row_from(rows@[k as int], id, now)));
                        assert(cat_keyed(cs[cs.len() - 1], u, nm));
                        assert(has_cat_in(cs, u, nm));
                        let j = cat_index_in(cs, u, nm);
                        assert(cat_keyed(cs[j], u, nm));
                        if j != cs.len() - 1 {
                            assert(!has_cat_in(cats_before, u, nm));
                            assert(cat_keyed(cats_before[j], u, nm));
                        }
                        assert(ids@[k as int] == cs[j].id);
                    }
                },
            }
            proof {
                // rows already resolved keep their identifiers: the new
                // row, if any, carries a different key
                let cs = self.categories@;
                assert forall|w: int| 0 <= w < k implies has_cat_in(
                    cs,
                    (#[trigger] rows@[w]).user_id@,
                    rows@[w].name@,
                ) && ids@[w] == cs[cat_index_in(cs, rows@[w].user_id@, rows@[w].name@)].id by {
                    let u = rows@[w].user_id@;
                    let nm = rows@[w].name@;
                    let j0 = cat_index_in(cats_before, u, nm);
                    assert(cat_keyed(cats_before[j0], u, nm));
                    assert(cs[j0] == cats_before[j0]);
                    assert(cat_keyed(cs[j0], u, nm));
                    assert(has_cat_in(cs, u, nm));
                    let j1 = cat_index_in(cs, u, nm);
                    assert(cat_keyed(cs[j1], u, nm));
                    if j1 != j0 {
                        if j1 < j0 {
                            assert(!(cs[j1].user_id@ == cs[j0].user_id@ && cs[j1].name@
                                == cs[j0].name@));
                        } else {
                            assert(!(cs[j0].user_id@ == cs[j1].user_id@ && cs[j0].name@
                                == cs[j1].name@));
                        }
                    }
                }
            }
            k = k + 1;
        }
        proof {
            assert(rows@.take(n as int) =~= rows@);
            assert(ids@ =~= cat_ids_for(self.categories@, rows@));
            lemma_resolved_ids_allocated(*self, rows@, ids@);
        }
        Ok(ids)
    }
}

} // verus!
