//! Alphabetical ordering of names.
//!
//! Category and topic names are compared by their UTF-8 byte sequences, the
//! order in which the store materializes category arrays for display.  The
//! order is defined over the byte encoding of the character view, proved to
//! be a strict total order on character views, and computed by a verified
//! byte-by-byte comparison.

use vstd::prelude::*;
use vstd::utf8::{encode_utf8, encode_utf8_decode_utf8};

verus! {

/// Strict lexicographic order on byte sequences.
pub open spec fn lex_lt(a: Seq<u8>, b: Seq<u8>) -> bool
    decreases a.len(),
{
    if b.len() == 0 {
        false
    } else if a.len() == 0 {
        true
    } else if a[0] < b[0] {
        true
    } else if a[0] > b[0] {
        false
    } else {
        lex_lt(a.drop_first(), b.drop_first())
    }
}

/// Strict alphabetical order on names: the lexicographic order of their
/// UTF-8 encodings.
pub open spec fn name_lt(a: Seq<char>, b: Seq<char>) -> bool {
    lex_lt(encode_utf8(a), encode_utf8(b))
}

/// `lex_lt` is a strict total order: exactly one of `a < b`, `a == b`,
/// `b < a` holds.
pub proof fn lemma_lex_lt_trichotomy(a: Seq<u8>, b: Seq<u8>)
    ensures
        a == b <==> (!lex_lt(a, b) && !lex_lt(b, a)),
        lex_lt(a, b) ==> !lex_lt(b, a),
    decreases a.len(),
{
    if a.len() == 0 || b.len() == 0 {
        if a.len() == 0 && b.len() == 0 {
            assert(a =~= b);
        }
    } else {
        lemma_lex_lt_trichotomy(a.drop_first(), b.drop_first());
        if !lex_lt(a, b) && !lex_lt(b, a) {
            assert(a[0] == b[0]);
            assert(a.drop_first() == b.drop_first());
            assert forall|k: int| 0 <= k < a.len() implies a[k] == b[k] by {
                if k > 0 {
                    assert(a[k] == a.drop_first()[k - 1]);
                    assert(b[k] == b.drop_first()[k - 1]);
                }
            }
            assert(a =~= b);
        }
    }
}

/// `lex_lt` is transitive.
pub proof fn lemma_lex_lt_transitive(a: Seq<u8>, b: Seq<u8>, c: Seq<u8>)
    requires
        lex_lt(a, b),
        lex_lt(b, c),
    ensures
        lex_lt(a, c),
    decreases a.len(),
{
    if a.len() == 0 || b.len() == 0 || c.len() == 0 {
    } else {
        if a[0] == b[0] && b[0] == c[0] {
            lemma_lex_lt_transitive(a.drop_first(), b.drop_first(), c.drop_first());
        }
    }
}

/// `name_lt` is a strict total order on character views: names are equal
/// exactly when neither is alphabetically below the other.
pub proof fn lemma_name_lt_trichotomy(a: Seq<char>, b: Seq<char>)
    ensures
        a == b <==> (!name_lt(a, b) && !name_lt(b, a)),
        name_lt(a, b) ==> !name_lt(b, a),
{
    lemma_lex_lt_trichotomy(encode_utf8(a), encode_utf8(b));
    if !name_lt(a, b) && !name_lt(b, a) {
        assert(encode_utf8(a) == encode_utf8(b));
        encode_utf8_decode_utf8(a);
        encode_utf8_decode_utf8(b);
    }
}

/// `name_lt` is transitive.
pub proof fn lemma_name_lt_transitive(a: Seq<char>, b: Seq<char>, c: Seq<char>)
    requires
        name_lt(a, b),
        name_lt(b, c),
    ensures
        name_lt(a, c),
{
    lemma_lex_lt_transitive(encode_utf8(a), encode_utf8(b), encode_utf8(c));
}

/// Compares two byte slices lexicographically.
fn bytes_lt(a: &[u8], b: &[u8]) -> (r: bool)
    ensures
        r == lex_lt(a@, b@),
{
    let a_len: usize = a.len();
    let b_len: usize = b.len();
    let n: usize = if a_len <= b_len {
        a_len
    } else {
        b_len
    };
    let mut i: usize = 0;
    proof {
        assert(a@.skip(0) =~= a@);
        assert(b@.skip(0) =~= b@);
    }
    while i < n
        invariant
            0 <= i <= n,
            n <= a@.len(),
            n <= b@.len(),
            a_len == a@.len(),
            b_len == b@.len(),
            n == if a_len <= b_len { a_len } else { b_len },
            lex_lt(a@, b@) == lex_lt(a@.skip(i as int), b@.skip(i as int)),
        decreases n - i,
    {
        let x = a[i];
        let y = b[i];
        proof {
            assert(a@.skip(i as int).len() > 0);
            assert(b@.skip(i as int).len() > 0);
            assert(a@.skip(i as int)[0] == a@[i as int]);
            assert(b@.skip(i as int)[0] == b@[i as int]);
        }
        if x < y {
            return true;
        }
        if x > y {
            return false;
        }
        proof {
            assert(a@.skip(i as int).drop_first() =~= a@.skip(i + 1));
            assert(b@.skip(i as int).drop_first() =~= b@.skip(i + 1));
        }
        i = i + 1;
    }
    proof {
        if a_len <= b_len {
            assert(a@.skip(i as int).len() == 0);
        } else {
            assert(b@.skip(i as int).len() == 0);
        }
    }
    a_len < b_len
}

/// Tests two string slices for equality of their character views.
pub fn str_eq(a: &str, b: &str) -> (r: bool)
    ensures
        r == (a@ == b@),
{
    let ab = a.as_bytes();
    let bb = b.as_bytes();
    let n = ab.len();
    if n != bb.len() {
        proof {
            if a@ == b@ {
                assert(encode_utf8(a@) == encode_utf8(b@));
            }
        }
        return false;
    }
    let mut i: usize = 0;
    while i < n
        invariant
            0 <= i <= n,
            n == ab@.len() == bb@.len(),
            ab@ == encode_utf8(a@),
            bb@ == encode_utf8(b@),
            forall|k: int| 0 <= k < i ==> ab@[k] == bb@[k],
        decreases n - i,
    {
        if ab[i] != bb[i] {
            proof {
                if a@ == b@ {
                    assert(encode_utf8(a@) == encode_utf8(b@));
                    assert(ab@[i as int] == bb@[i as int]);
                }
            }
            return false;
        }
        i = i + 1;
    }
    proof {
        assert(ab@ =~= bb@);
        encode_utf8_decode_utf8(a@);
        encode_utf8_decode_utf8(b@);
    }
    true
}

/// Compares two names alphabetically.
pub fn str_lt(a: &str, b: &str) -> (r: bool)
    ensures
        r == name_lt(a@, b@),
{
    bytes_lt(a.as_bytes(), b.as_bytes())
}

/// The character views of a sequence of strings.
pub open spec fn views_of(s: Seq<String>) -> Seq<Seq<char>> {
    s.map_values(|x: String| x@)
}

/// True when one of the names in `f` occurs in `a`.
pub open spec fn name_intersects(a: Seq<Seq<char>>, f: Seq<Seq<char>>) -> bool {
    exists|w: int| 0 <= w < f.len() && a.contains(#[trigger] f[w])
}

/// Decides whether a name occurs in a vector of names.
pub fn contains_name(v: &Vec<String>, n: &str) -> (r: bool)
    ensures
        r == views_of(v@).contains(n@),
{
    let len = v.len();
    let mut i: usize = 0;
    while i < len
        invariant
            0 <= i <= len,
            len == v@.len(),
            forall|k: int| 0 <= k < i ==> views_of(v@)[k] != n@,
        decreases len - i,
    {
        if str_eq(v[i].as_str(), n) {
            proof {
                assert(views_of(v@)[i as int] == n@);
            }
            return true;
        }
        i = i + 1;
    }
    proof {
        if views_of(v@).contains(n@) {
            let w = choose|w: int| 0 <= w < views_of(v@).len() && views_of(v@)[w] == n@;
            assert(false);
        }
    }
    false
}

/// Decides whether any of the names in `f` occurs in `a`.
pub fn intersects_names(a: &Vec<String>, f: &Vec<String>) -> (r: bool)
    ensures
        r == name_intersects(views_of(a@), views_of(f@)),
{
    let len = f.len();
    let mut w: usize = 0;
    while w < len
        invariant
            0 <= w <= len,
            len == f@.len(),
            forall|k: int| 0 <= k < w ==> !views_of(a@).contains(#[trigger] views_of(f@)[k]),
        decreases len - w,
    {
        if contains_name(a, f[w].as_str()) {
            proof {
                assert(views_of(a@).contains(views_of(f@)[w as int]));
            }
            return true;
        }
        proof {
            assert(views_of(f@)[w as int] == f@[w as int]@);
        }
        w = w + 1;
    }
    false
}

/// A strictly ascending sequence of names: sorted alphabetically, with no
/// duplicates.
pub open spec fn strictly_sorted(vs: Seq<Seq<char>>) -> bool {
    forall|i: int, j: int| 0 <= i < j < vs.len() ==> name_lt(vs[i], vs[j])
}

/// Inserts a name into a strictly sorted vector, keeping it strictly
/// sorted; a name already present is not duplicated.
pub fn insert_name(v: &mut Vec<String>, x: String)
    requires
        strictly_sorted(views_of(old(v)@)),
    ensures
        strictly_sorted(views_of(final(v)@)),
        forall|n: Seq<char>|
            views_of(final(v)@).contains(n) <==> (views_of(old(v)@).contains(n) || n == x@),
        old(v)@.len() <= final(v)@.len() <= old(v)@.len() + 1,
{
    let ghost vs0 = views_of(old(v)@);
    let mut i: usize = 0;
    while i < v.len() && str_lt(v[i].as_str(), x.as_str())
        invariant
            0 <= i <= v@.len(),
            v == old(v),
            forall|k: int| 0 <= k < i ==> name_lt(views_of(v@)[k], x@),
        decreases v@.len() - i,
    {
        i = i + 1;
    }
    if i < v.len() && v[i] == x {
        proof {
            assert(views_of(v@).contains(x@)) by {
                assert(views_of(v@)[i as int] == x@);
            }
        }
        return ;
    }
    proof {
        if i < v@.len() {
            lemma_name_lt_trichotomy(vs0[i as int], x@);
            assert(name_lt(x@, vs0[i as int]));
        }
        assert forall|k: int| i <= k < v@.len() implies name_lt(x@, vs0[k]) by {
            if k > i {
                lemma_name_lt_transitive(x@, vs0[i as int], vs0[k]);
            }
        }
    }
    v.insert(i, x);
    proof {
        let vs1 = views_of(v@);
        assert(vs1 =~= vs0.insert(i as int, x@));
        assert forall|p: int, q: int| 0 <= p < q < vs1.len() implies name_lt(vs1[p], vs1[q]) by {
            if p < i && q < i {
            } else if p < i && q == i {
            } else if p < i && q > i {
            } else if p == i {
            } else {
            }
        }
        assert forall|n: Seq<char>| vs1.contains(n) implies (vs0.contains(n) || n == x@) by {
            let w = choose|w: int| 0 <= w < vs1.len() && vs1[w] == n;
            if w < i {
                assert(vs0[w] == n);
            } else if w > i {
                assert(vs0[w - 1] == n);
            }
        }
        assert forall|n: Seq<char>| (vs0.contains(n) || n == x@) implies vs1.contains(n) by {
            if vs0.contains(n) {
                let w = choose|w: int| 0 <= w < vs0.len() && vs0[w] == n;
                if w < i {
                    assert(vs1[w] == n);
                } else {
                    assert(vs1[w + 1] == n);
                }
            } else {
                assert(vs1[i as int] == n);
            }
        }
    }
}

} // verus!
