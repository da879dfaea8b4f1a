//! String-keyed tables kept as lists of pairs, read as the map that
//! inserting the pairs one after the other builds.

use vstd::prelude::*;
use crate::text::str_eq;

verus! {

/// The texts of a list of string pairs.
pub open spec fn pair_views(v: Seq<(String, String)>) -> Seq<(Seq<char>, Seq<char>)> {
    v.map_values(|p: (String, String)| (p.0@, p.1@))
}

/// The map that inserting the pairs of `s` in order builds: a later pair
/// with the same key replaces an earlier one.
pub open spec fn assoc_map(s: Seq<(Seq<char>, Seq<char>)>) -> Map<Seq<char>, Seq<char>>
    decreases s.len(),
{
    if s.len() == 0 {
        Map::empty()
    } else {
        assoc_map(s.drop_last()).insert(s.last().0, s.last().1)
    }
}

/// No key occurs twice in `s`.
pub open spec fn keys_unique(s: Seq<(Seq<char>, Seq<char>)>) -> bool {
    forall|i: int, j: int| 0 <= i < j < s.len() ==> #[trigger] s[i].0 != #[trigger] s[j].0
}

/// The table that a list of pairs stands for.
pub open spec fn table(v: Seq<(String, String)>) -> Map<Seq<char>, Seq<char>> {
    assoc_map(pair_views(v))
}

/// The last pair of `s` with key `k` is at `j`: the map has `k`, bound to
/// that pair's value.
pub proof fn lemma_assoc_last(s: Seq<(Seq<char>, Seq<char>)>, k: Seq<char>, j: int)
    requires
        0 <= j < s.len(),
        s[j].0 == k,
        forall|m: int| j < m < s.len() ==> s[m].0 != k,
    ensures
        assoc_map(s).contains_key(k),
        assoc_map(s)[k] == s[j].1,
    decreases s.len(),
{
    if j < s.len() - 1 {
        lemma_assoc_last(s.drop_last(), k, j);
    }
}

/// A key that no pair of `s` has is not in the map.
pub proof fn lemma_assoc_absent(s: Seq<(Seq<char>, Seq<char>)>, k: Seq<char>)
    requires
        forall|m: int| 0 <= m < s.len() ==> s[m].0 != k,
    ensures
        !assoc_map(s).contains_key(k),
    decreases s.len(),
{
    if s.len() > 0 {
        lemma_assoc_absent(s.drop_last(), k);
    }
}

/// With unique keys, giving the pair at `i` a new value is inserting that
/// value under its key.
pub proof fn lemma_assoc_update(s: Seq<(Seq<char>, Seq<char>)>, i: int, val: Seq<char>)
    requires
        keys_unique(s),
        0 <= i < s.len(),
    ensures
        assoc_map(s.update(i, (s[i].0, val))) == assoc_map(s).insert(s[i].0, val),
    decreases s.len(),
{
    let t = s.update(i, (s[i].0, val));
    let n = s.len() - 1;
    if i == n {
        assert(t.drop_last() =~= s.drop_last());
        assert(assoc_map(t) =~= assoc_map(s).insert(s[i].0, val));
    } else {
        assert(t.drop_last() =~= s.drop_last().update(i, (s[i].0, val)));
        lemma_assoc_update(s.drop_last(), i, val);
        assert(s[i].0 != s[n].0);
        assert(assoc_map(t) =~= assoc_map(s).insert(s[i].0, val));
    }
}

/// The value that `k` has in the table `v`, if any (the last pair with key
/// `k`).
pub fn assoc_get<'a>(v: &'a Vec<(String, String)>, k: &str) -> (r: Option<&'a String>)
    ensures
        match r {
            Some(x) => table(v@).contains_key(k@) && table(v@)[k@] == x@,
            None => !table(v@).contains_key(k@),
        },
{
    let ghost s = pair_views(v@);
    let mut i: usize = v.len();
    while i > 0
        invariant
            i <= v.len(),
            s == pair_views(v@),
            forall|m: int| i <= m < v.len() ==> s[m].0 != k@,
        decreases i,
    {
        i -= 1;
        if str_eq(v[i].0.as_str(), k) {
            proof {
                lemma_assoc_last(s, k@, i as int);
            }
            return Some(&v[i].1);
        }
    }
    proof {
        lemma_assoc_absent(s, k@);
    }
    None
}

/// Sets `k` to `val` in a table whose keys are unique: the pair with key
/// `k` gets the new value, or a new pair goes at the end.
pub fn assoc_set(v: &mut Vec<(String, String)>, k: String, val: String)
    requires
        keys_unique(pair_views(old(v)@)),
    ensures
        keys_unique(pair_views(final(v)@)),
        table(final(v)@) == table(old(v)@).insert(k@, val@),
{
    let ghost s = pair_views(v@);
    let mut i: usize = 0;
    while i < v.len()
        invariant
            i <= v.len(),
            v@ == old(v)@,
            s == pair_views(v@),
            keys_unique(s),
            forall|m: int| 0 <= m < i ==> s[m].0 != k@,
        decreases v.len() - i,
    {
        if str_eq(v[i].0.as_str(), k.as_str()) {
            let key = v[i].0.clone();
            proof {
                assert(key@ == s[i as int].0);
                lemma_assoc_update(s, i as int, val@);
            }
            v.set(i, (key, val));
            proof {
                assert(pair_views(v@) =~= s.update(i as int, (s[i as int].0, val@)));
                assert forall|a: int, b: int|
                    0 <= a < b < pair_views(v@).len() implies #[trigger] pair_views(v@)[a].0
                        != #[trigger] pair_views(v@)[b].0 by {
                    assert(pair_views(v@)[a].0 == s[a].0);
                    assert(pair_views(v@)[b].0 == s[b].0);
                }
            }
            return;
        }
        i += 1;
    }
    let ghost kv = k@;
    let ghost valv = val@;
    v.push((k, val));
    proof {
        assert(pair_views(v@) =~= s.push((kv, valv)));
        assert(pair_views(v@).drop_last() =~= s);
        assert forall|a: int, b: int|
            0 <= a < b < pair_views(v@).len() implies #[trigger] pair_views(v@)[a].0
                != #[trigger] pair_views(v@)[b].0 by {
            if b < s.len() {
                assert(pair_views(v@)[a].0 == s[a].0);
                assert(pair_views(v@)[b].0 == s[b].0);
            } else {
                assert(pair_views(v@)[a].0 == s[a].0);
            }
        }
    }
}

} // verus!
