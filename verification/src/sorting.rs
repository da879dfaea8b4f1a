//! Stable sorting by a text key with an optional second text, ordered as
//! `Ord` orders a `(String, Option<String>)`: first text, then no second
//! text before any, then the second text.

use vstd::prelude::*;
use vstd::multiset::Multiset;
use crate::order::{
    lemma_lex_asymmetric, lemma_lex_irreflexive, lemma_lex_total, lemma_lex_transitive, lex_lt,
};

verus! {

broadcast use vstd::seq_lib::group_to_multiset_ensures;

/// A sort key: a text and an optional second text.
pub type SortKey = (Seq<char>, Option<Seq<char>>);

/// `a` sorts strictly before `b`.
pub open spec fn key_lt(a: SortKey, b: SortKey) -> bool {
    lex_lt(a.0, b.0) || (a.0 == b.0 && match (a.1, b.1) {
        (None, Some(_)) => true,
        (Some(x), Some(y)) => lex_lt(x, y),
        _ => false,
    })
}

/// `key_lt` is a strict total order.
pub proof fn lemma_key_order(a: SortKey, b: SortKey, c: SortKey)
    ensures
        !key_lt(a, a),
        key_lt(a, b) ==> !key_lt(b, a),
        key_lt(a, b) && key_lt(b, c) ==> key_lt(a, c),
        a == b || key_lt(a, b) || key_lt(b, a),
{
    lemma_lex_irreflexive(a.0);
    lemma_lex_asymmetric(a.0, b.0);
    lemma_lex_total(a.0, b.0);
    if lex_lt(a.0, b.0) && lex_lt(b.0, c.0) {
        lemma_lex_transitive(a.0, b.0, c.0);
    }
    if let (Some(x), Some(y)) = (a.1, b.1) {
        lemma_lex_asymmetric(x, y);
        lemma_lex_total(x, y);
        if let Some(z) = c.1 {
            if lex_lt(x, y) && lex_lt(y, z) {
                lemma_lex_transitive(x, y, z);
            }
        }
    }
    if let Some(x) = a.1 {
        lemma_lex_irreflexive(x);
    }
}

/// A value sorted by a key.
pub trait Keyed: Sized {
    /// The key the value sorts by.
    spec fn sort_key(&self) -> SortKey;

    /// Whether this value sorts strictly before `other`.
    fn sorts_before(&self, other: &Self) -> (r: bool)
        ensures
            r == key_lt(self.sort_key(), other.sort_key()),
    ;
}

/// No value sorts strictly before one that comes earlier.
pub open spec fn sorted_by_key<T: Keyed>(s: Seq<T>) -> bool {
    forall|i: int, j: int| 0 <= i < j < s.len() ==> !key_lt(s[j].sort_key(), s[i].sort_key())
}

/// The values of `s` whose key is `k`, in their order in `s`.
pub open spec fn with_key<T: Keyed>(s: Seq<T>, k: SortKey) -> Seq<T>
    decreases s.len(),
{
    if s.len() == 0 {
        Seq::empty()
    } else if s.last().sort_key() == k {
        with_key(s.drop_last(), k).push(s.last())
    } else {
        with_key(s.drop_last(), k)
    }
}

proof fn lemma_with_key_add<T: Keyed>(a: Seq<T>, b: Seq<T>, k: SortKey)
    ensures
        with_key(a + b, k) == with_key(a, k) + with_key(b, k),
    decreases b.len(),
{
    if b.len() == 0 {
        assert(a + b =~= a);
        assert(with_key(a, k) + with_key(b, k) =~= with_key(a, k));
    } else {
        assert((a + b).drop_last() =~= a + b.drop_last());
        assert((a + b).last() == b.last());
        lemma_with_key_add(a, b.drop_last(), k);
        if b.last().sort_key() == k {
            assert(with_key(a, k) + with_key(b.drop_last(), k).push(b.last()) =~= (with_key(a, k)
                + with_key(b.drop_last(), k)).push(b.last()));
        }
    }
}

proof fn lemma_with_key_none<T: Keyed>(s: Seq<T>, k: SortKey)
    requires
        forall|i: int| 0 <= i < s.len() ==> (#[trigger] s[i]).sort_key() != k,
    ensures
        with_key(s, k) == Seq::<T>::empty(),
    decreases s.len(),
{
    if s.len() > 0 {
        assert(s.last() == s[s.len() - 1]);
        lemma_with_key_none(s.drop_last(), k);
    }
}

proof fn lemma_with_key_one<T: Keyed>(x: T, k: SortKey)
    ensures
        with_key(seq![x], k) == (if x.sort_key() == k {
            seq![x]
        } else {
            Seq::<T>::empty()
        }),
{
    assert(seq![x].drop_last() =~= Seq::<T>::empty());
    assert(seq![x].last() == x);
    assert(with_key(Seq::<T>::empty(), k) == Seq::<T>::empty());
    assert(with_key(seq![x].drop_last(), k) == Seq::<T>::empty());
    if x.sort_key() == k {
        assert(Seq::<T>::empty().push(x) =~= seq![x]);
    }
}

/// The values of `v` sorted by their keys, equal keys in their first order
/// (insertion sort): for each key, the values with that key come in the
/// order they had in `v`.
pub fn sort_by_key<T: Keyed>(v: Vec<T>) -> (r: Vec<T>)
    ensures
        r@.to_multiset() == v@.to_multiset(),
        sorted_by_key(r@),
        forall|k: SortKey| #[trigger] with_key(r@, k) == with_key(v@, k),
{
    let ghost v0 = v@;
    let mut src = v;
    let mut out: Vec<T> = Vec::new();
    let ghost all = src@.to_multiset();
    assert(out@.to_multiset() =~= Multiset::empty());
    assert forall|k: SortKey| #[trigger] with_key(v0, k) == with_key(out@, k) + with_key(src@, k) by {
        assert(with_key(out@, k) =~= Seq::<T>::empty());
        assert(with_key(out@, k) + with_key(src@, k) =~= with_key(src@, k));
    }
    while src.len() > 0
        invariant
            out@.to_multiset().add(src@.to_multiset()) == all,
            sorted_by_key(out@),
            forall|k: SortKey| #[trigger] with_key(v0, k) == with_key(out@, k) + with_key(src@, k),
        decreases src.len(),
    {
        let ghost s0 = src@;
        let x = src.remove(0);
        assert(s0.to_multiset() =~= src@.to_multiset().insert(x)) by {
            assert(s0.remove(0) == src@);
        }
        let mut p: usize = 0;
        while p < out.len() && !x.sorts_before(&out[p])
            invariant
                p <= out.len(),
                forall|k: int| 0 <= k < p ==> !key_lt(x.sort_key(), out@[k].sort_key()),
            decreases out.len() - p,
        {
            p += 1;
        }
        let ghost o0 = out@;
        out.insert(p, x);
        proof {
            assert(out@.to_multiset() =~= o0.to_multiset().insert(x));
            assert(out@.to_multiset().add(src@.to_multiset()) =~= all);
            assert forall|i: int, j: int|
                0 <= i < j < out@.len() implies !key_lt(
                out@[j].sort_key(),
                out@[i].sort_key(),
            ) by {
                let o = out@;
                if j < p {
                    assert(o[i] == o0[i] && o[j] == o0[j]);
                } else if j == p {
                    assert(o[j] == x && o[i] == o0[i]);
                } else if i == p {
                    assert(o[i] == x && o[j] == o0[j - 1]);
                    assert(p < o0.len());
                    assert(key_lt(x.sort_key(), o0[p as int].sort_key()));
                    lemma_key_order(o0[j - 1].sort_key(), x.sort_key(), o0[p as int].sort_key());
                    lemma_key_order(o0[p as int].sort_key(), o0[j - 1].sort_key(), x.sort_key());
                    lemma_key_order(o0[j - 1].sort_key(), o0[p as int].sort_key(), x.sort_key());
                } else if i < p {
                    assert(o[i] == o0[i] && o[j] == o0[j - 1]);
                } else {
                    assert(o[i] == o0[i - 1] && o[j] == o0[j - 1]);
                }
            }
            let front = o0.take(p as int);
            let back = o0.skip(p as int);
            assert(o0 =~= front + back);
            assert(out@ =~= front + seq![x] + back);
            assert(s0 =~= seq![x] + src@);
            assert forall|i: int| 0 <= i < back.len() implies key_lt(x.sort_key(), (#[trigger] back[i]).sort_key()) by {
                assert(back[i] == o0[p + i]);
                assert(key_lt(x.sort_key(), o0[p as int].sort_key()));
                if i > 0 {
                    assert(!key_lt(o0[p + i].sort_key(), o0[p as int].sort_key()));
                    lemma_key_order(o0[p as int].sort_key(), o0[p + i].sort_key(), x.sort_key());
                    lemma_key_order(x.sort_key(), o0[p as int].sort_key(), o0[p + i].sort_key());
                }
            }
            assert forall|k: SortKey| #[trigger] with_key(v0, k) == with_key(out@, k) + with_key(src@, k) by {
                lemma_with_key_add(front, back, k);
                lemma_with_key_add(front + seq![x], back, k);
                lemma_with_key_add(front, seq![x], k);
                lemma_with_key_add(seq![x], src@, k);
                lemma_with_key_one(x, k);
                assert(with_key(v0, k) == with_key(o0, k) + with_key(s0, k));
                if x.sort_key() == k {
                    assert forall|i: int| 0 <= i < back.len() implies (#[trigger] back[i]).sort_key() != k by {
                        lemma_key_order(x.sort_key(), back[i].sort_key(), x.sort_key());
                    }
                    lemma_with_key_none(back, k);
                    assert(with_key(out@, k) + with_key(src@, k) =~= with_key(o0, k) + with_key(s0, k));
                } else {
                    assert(with_key(out@, k) + with_key(src@, k) =~= with_key(o0, k) + with_key(s0, k));
                }
            }
        }
    }
    assert(src@.to_multiset() =~= Multiset::empty());
    assert(out@.to_multiset() =~= all);
    assert forall|k: SortKey| #[trigger] with_key(out@, k) == with_key(v0, k) by {
        assert(with_key(src@, k) =~= Seq::<T>::empty());
        assert(with_key(out@, k) + with_key(src@, k) =~= with_key(out@, k));
    }
    out
}

} // verus!
