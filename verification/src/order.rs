//! Lexicographic order on character sequences, as `Ord for str` orders them,
//! and sorted insertion.

use vstd::prelude::*;
use crate::text::views;

verus! {

/// `a` sorts strictly before `b`: compared character by character, with a
/// proper prefix first. UTF-8 keeps code-point order, so this is the order of
/// `Ord for str`.
pub open spec fn lex_lt(a: Seq<char>, b: Seq<char>) -> bool
    decreases a.len(),
{
    if a.len() == 0 {
        b.len() > 0
    } else if b.len() == 0 {
        false
    } else if a[0] != b[0] {
        a[0] < b[0]
    } else {
        lex_lt(a.drop_first(), b.drop_first())
    }
}

/// Every element sorts strictly before the ones after it.
pub open spec fn strictly_sorted(s: Seq<Seq<char>>) -> bool {
    forall|i: int, j: int| 0 <= i < j < s.len() ==> lex_lt(s[i], s[j])
}

pub proof fn lemma_lex_irreflexive(a: Seq<char>)
    ensures
        !lex_lt(a, a),
    decreases a.len(),
{
    if a.len() > 0 {
        lemma_lex_irreflexive(a.drop_first());
    }
}

pub proof fn lemma_lex_asymmetric(a: Seq<char>, b: Seq<char>)
    ensures
        lex_lt(a, b) ==> !lex_lt(b, a),
    decreases a.len(),
{
    if a.len() > 0 && b.len() > 0 && a[0] == b[0] {
        lemma_lex_asymmetric(a.drop_first(), b.drop_first());
    }
}

pub proof fn lemma_lex_total(a: Seq<char>, b: Seq<char>)
    ensures
        a == b || lex_lt(a, b) || lex_lt(b, a),
    decreases a.len(),
{
    if a.len() > 0 && b.len() > 0 && a[0] == b[0] {
        lemma_lex_total(a.drop_first(), b.drop_first());
        if a.drop_first() == b.drop_first() {
            assert(a =~= seq![a[0]] + a.drop_first());
            assert(b =~= seq![b[0]] + b.drop_first());
        }
    } else if a.len() == 0 && b.len() == 0 {
        assert(a =~= b);
    } else if a.len() > 0 && b.len() > 0 {
    }
}

pub proof fn lemma_lex_transitive(a: Seq<char>, b: Seq<char>, c: Seq<char>)
    requires
        lex_lt(a, b),
        lex_lt(b, c),
    ensures
        lex_lt(a, c),
    decreases a.len(),
{
    if a.len() > 0 && b.len() > 0 && c.len() > 0 && a[0] == b[0] && b[0] == c[0] {
        lemma_lex_transitive(a.drop_first(), b.drop_first(), c.drop_first());
    }
}

/// Whether `a` sorts strictly before `b`.
pub fn lex_less(a: &Vec<char>, b: &Vec<char>) -> (r: bool)
    ensures
        r == lex_lt(a@, b@),
{
    let mut i: usize = 0;
    assert(a@.skip(0) =~= a@);
    assert(b@.skip(0) =~= b@);
    while i < a.len() && i < b.len() && a[i] == b[i]
        invariant
            i <= a.len(),
            i <= b.len(),
            lex_lt(a@, b@) == lex_lt(a@.skip(i as int), b@.skip(i as int)),
        decreases a.len() - i,
    {
        assert(a@.skip(i as int).drop_first() =~= a@.skip(i + 1));
        assert(b@.skip(i as int).drop_first() =~= b@.skip(i + 1));
        i += 1;
    }
    if i == a.len() {
        i < b.len()
    } else if i == b.len() {
        false
    } else {
        a[i] < b[i]
    }
}

/// Inserts `t` into the strictly sorted `v` unless it is already there.
pub fn insert_sorted_unique(v: &mut Vec<Vec<char>>, t: Vec<char>)
    requires
        strictly_sorted(views(old(v)@)),
    ensures
        strictly_sorted(views(final(v)@)),
        views(final(v)@).to_set() == views(old(v)@).to_set().insert(t@),
{
    let ghost s0 = views(v@);
    let mut p: usize = 0;
    while p < v.len() && lex_less(&v[p], &t)
        invariant
            p <= v.len(),
            views(v@) == s0,
            strictly_sorted(s0),
            forall|k: int| 0 <= k < p ==> lex_lt(#[trigger] s0[k], t@),
        decreases v.len() - p,
    {
        p += 1;
    }
    if p < v.len() {
        proof {
            lemma_lex_total(s0[p as int], t@);
        }
        if crate::text::chars_eq(&v[p], &t) {
            assert(s0.to_set() =~= s0.to_set().insert(t@)) by {
                assert(s0.contains(t@)) by {
                    assert(s0[p as int] == t@);
                }
            }
            return;
        }
    }
    let ghost tv = t@;
    v.insert(p, t);
    proof {
        let s1 = views(v@);
        assert(s1 =~= s0.insert(p as int, tv));
        assert forall|i: int, j: int| 0 <= i < j < s1.len() implies lex_lt(s1[i], s1[j]) by {
            if j < p {
            } else if j == p {
            } else if i < p {
                assert(s1[j] == s0[j - 1]);
                if p < s0.len() {
                    if j - 1 > p {
                        lemma_lex_transitive(tv, s0[p as int], s0[j - 1]);
                    }
                    lemma_lex_transitive(s0[i], tv, s0[j - 1]);
                }
            } else if i == p {
                if j - 1 > p {
                    lemma_lex_transitive(tv, s0[p as int], s0[j - 1]);
                }
            } else {
            }
        }
        assert forall|x: Seq<char>| s1.contains(x) <==> (s0.contains(x) || x == tv) by {
            if s1.contains(x) {
                let k = choose|k: int| 0 <= k < s1.len() && s1[k] == x;
                if k < p {
                    assert(s0[k] == x);
                } else if k > p {
                    assert(s0[k - 1] == x);
                }
            }
            if s0.contains(x) {
                let k = choose|k: int| 0 <= k < s0.len() && s0[k] == x;
                if k < p {
                    assert(s1[k] == x);
                } else {
                    assert(s1[k + 1] == x);
                }
            }
            if x == tv {
                assert(s1[p as int] == x);
            }
        }
        assert(s1.to_set() =~= s0.to_set().insert(tv));
    }
}

} // verus!
