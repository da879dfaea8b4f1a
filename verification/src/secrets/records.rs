//! Writing records of secrets: records merged by file name, the newer one
//! kept, optionally sorted by host and hash.

use vstd::prelude::*;
use crate::secrets::models::JsonOutput;
use crate::sorting::{key_lt, sort_by_key, sorted_by_key, Keyed, SortKey};
use crate::text::str_eq;

verus! {

/// The hash a record sorts by: its hash, else its md5.
pub open spec fn record_hash(r: JsonOutput) -> Seq<char> {
    if r.hash_val@.len() > 0 {
        r.hash_val@
    } else {
        r.md5@
    }
}

impl Keyed for JsonOutput {
    open spec fn sort_key(&self) -> SortKey {
        (self.hostname@, Some(record_hash(*self)))
    }

    fn sorts_before(&self, other: &Self) -> (r: bool) {
        let a = if !self.hash_val.as_str().is_empty() {
            Some(self.hash_val.clone())
        } else {
            Some(self.md5.clone())
        };
        let b = if !other.hash_val.as_str().is_empty() {
            Some(other.hash_val.clone())
        } else {
            Some(other.md5.clone())
        };
        crate::discovery::key_less(self.hostname.as_str(), &a, other.hostname.as_str(), &b)
    }
}

/// The first position of a record named `name`, or -1.
pub open spec fn name_pos(s: Seq<JsonOutput>, name: Seq<char>) -> int
    decreases s.len(),
{
    if s.len() == 0 {
        -1
    } else if name_pos(s.drop_last(), name) >= 0 {
        name_pos(s.drop_last(), name)
    } else if s.last().file_nm@ == name {
        s.len() - 1
    } else {
        -1
    }
}

/// The records in order, each file name once: a later record replaces an
/// earlier one with the same name in its place.
pub open spec fn spec_merge(s: Seq<JsonOutput>) -> Seq<JsonOutput>
    decreases s.len(),
{
    if s.len() == 0 {
        Seq::empty()
    } else {
        let m = spec_merge(s.drop_last());
        let r = s.last();
        let p = name_pos(m, r.file_nm@);
        if p >= 0 {
            m.update(p, r)
        } else {
            m.push(r)
        }
    }
}

proof fn lemma_name_pos(s: Seq<JsonOutput>, name: Seq<char>)
    ensures
        -1 <= name_pos(s, name) < s.len(),
        name_pos(s, name) >= 0 ==> s[name_pos(s, name)].file_nm@ == name,
        name_pos(s, name) >= 0 ==> forall|k: int| 0 <= k < name_pos(s, name) ==> s[k].file_nm@ != name,
        name_pos(s, name) < 0 ==> forall|k: int| 0 <= k < s.len() ==> s[k].file_nm@ != name,
    decreases s.len(),
{
    if s.len() > 0 {
        lemma_name_pos(s.drop_last(), name);
        assert forall|k: int| 0 <= k < s.len() - 1 implies s.drop_last()[k] == s[k] by {}
    }
}

fn find_name(out: &Vec<JsonOutput>, name: &str) -> (r: Option<usize>)
    ensures
        match r {
            Some(i) => i < out.len() && i as int == name_pos(out@, name@),
            None => name_pos(out@, name@) < 0,
        },
{
    proof {
        lemma_name_pos(out@, name@);
    }
    let mut i: usize = 0;
    while i < out.len()
        invariant
            i <= out.len(),
            forall|k: int| 0 <= k < i ==> out@[k].file_nm@ != name@,
            -1 <= name_pos(out@, name@) < out@.len(),
            name_pos(out@, name@) >= 0 ==> out@[name_pos(out@, name@)].file_nm@ == name@,
            name_pos(out@, name@) >= 0 ==> forall|k: int|
                0 <= k < name_pos(out@, name@) ==> out@[k].file_nm@ != name@,
            name_pos(out@, name@) < 0 ==> forall|k: int|
                0 <= k < out@.len() ==> out@[k].file_nm@ != name@,
        decreases out.len() - i,
    {
        if str_eq(out[i].file_nm.as_str(), name) {
            return Some(i);
        }
        i += 1;
    }
    None
}

fn merge_into(out: &mut Vec<JsonOutput>, r: JsonOutput)
    ensures
        final(out)@ == ({
            let p = name_pos(old(out)@, r.file_nm@);
            if p >= 0 {
                old(out)@.update(p, r)
            } else {
                old(out)@.push(r)
            }
        }),
{
    match find_name(out, r.file_nm.as_str()) {
        Some(i) => {
            out.set(i, r);
        },
        None => {
            out.push(r);
        },
    }
}

/// The records of the file merged with the new ones:
/// each file name once, the newest record kept in the place where the name
/// first occurs; sorted by host and hash when asked.
pub fn merge_records(existing: Vec<JsonOutput>, new: Vec<JsonOutput>, sort_entries: bool) -> (r: Vec<
    JsonOutput,
>)
    ensures
        !sort_entries ==> r@ == spec_merge(existing@ + new@),
        sort_entries ==> r@.to_multiset() == spec_merge(existing@ + new@).to_multiset()
            && sorted_by_key(r@),
{
    let ghost all = existing@ + new@;
    let mut out: Vec<JsonOutput> = Vec::new();
    let mut src = existing;
    let mut rest = new;
    src.append(&mut rest);
    assert(src@ == all);
    let mut i: usize = 0;
    let n = src.len();
    assert(all.take(0) =~= Seq::<JsonOutput>::empty());
    while src.len() > 0
        invariant
            i + src.len() == n,
            n == all.len(),
            src@ == all.skip(i as int),
            out@ == spec_merge(all.take(i as int)),
        decreases src.len(),
    {
        let r = src.remove(0);
        assert(all.take(i + 1).drop_last() =~= all.take(i as int));
        assert(all.take(i + 1).last() == r);
        assert(src@ =~= all.skip(i + 1));
        merge_into(&mut out, r);
        i += 1;
    }
    assert(all.take(n as int) =~= all);
    if sort_entries {
        sort_by_key(out)
    } else {
        out
    }
}

/// No later record has the name of the record at `j`.
pub open spec fn is_newest(s: Seq<JsonOutput>, j: int) -> bool {
    forall|l: int| j < l < s.len() ==> s[l].file_nm@ != s[j].file_nm@
}

/// A merge names each file once.
pub proof fn lemma_merge_unique(s: Seq<JsonOutput>)
    ensures
        forall|a: int, b: int|
            0 <= a < b < spec_merge(s).len() ==> (#[trigger] spec_merge(s)[a]).file_nm@
                != (#[trigger] spec_merge(s)[b]).file_nm@,
    decreases s.len(),
{
    if s.len() > 0 {
        let t = s.drop_last();
        lemma_merge_unique(t);
        let m = spec_merge(t);
        let r = s.last();
        lemma_name_pos(m, r.file_nm@);
        let res = spec_merge(s);
        assert forall|a: int, b: int|
            0 <= a < b < res.len() implies (#[trigger] res[a]).file_nm@ != (#[trigger] res[b]).file_nm@ by {
            if b < m.len() {
                assert(res[a].file_nm@ == m[a].file_nm@ || res[a] == r);
                assert(res[b].file_nm@ == m[b].file_nm@ || res[b] == r);
            }
        }
    }
}

/// Each record of a merge is the last record of its name.
pub proof fn lemma_merge_newest(s: Seq<JsonOutput>)
    ensures
        forall|k: int|
            0 <= k < spec_merge(s).len() ==> exists|j: int|
                0 <= j < s.len() && s[j] == #[trigger] spec_merge(s)[k] && is_newest(s, j),
    decreases s.len(),
{
    if s.len() > 0 {
        let t = s.drop_last();
        lemma_merge_newest(t);
        let m = spec_merge(t);
        let r = s.last();
        lemma_name_pos(m, r.file_nm@);
        let p = name_pos(m, r.file_nm@);
        let res = spec_merge(s);
        assert forall|k: int| 0 <= k < res.len() implies exists|j: int|
            0 <= j < s.len() && s[j] == #[trigger] res[k] && is_newest(s, j) by {
            if (p >= 0 && k == p) || (p < 0 && k == m.len()) {
                assert(s[s.len() - 1] == res[k]);
                assert(is_newest(s, s.len() - 1));
            } else {
                assert(res[k] == m[k]);
                let j = choose|j: int| 0 <= j < t.len() && t[j] == m[k] && is_newest(t, j);
                assert(s[j] == t[j]);
                if p >= 0 {
                    assert(m[k].file_nm@ != r.file_nm@) by {
                        lemma_merge_unique(t);
                    }
                }
                assert forall|l: int| j < l < s.len() implies s[l].file_nm@ != s[j].file_nm@ by {
                    if l < t.len() {
                        assert(s[l] == t[l]);
                    }
                }
            }
        }
    }
}

/// Every file name of the records is in the merge.
pub proof fn lemma_merge_covers(s: Seq<JsonOutput>)
    ensures
        forall|j: int|
            0 <= j < s.len() ==> exists|k: int|
                0 <= k < spec_merge(s).len() && (#[trigger] spec_merge(s)[k]).file_nm@ == (
                #[trigger] s[j]).file_nm@,
    decreases s.len(),
{
    if s.len() > 0 {
        let t = s.drop_last();
        lemma_merge_covers(t);
        let m = spec_merge(t);
        let r = s.last();
        lemma_name_pos(m, r.file_nm@);
        let p = name_pos(m, r.file_nm@);
        let res = spec_merge(s);
        assert forall|j: int| 0 <= j < s.len() implies exists|k: int|
            0 <= k < res.len() && (#[trigger] res[k]).file_nm@ == (#[trigger] s[j]).file_nm@ by {
            if j == s.len() - 1 {
                if p >= 0 {
                    assert(res[p].file_nm@ == s[j].file_nm@);
                } else {
                    assert(res[m.len() as int].file_nm@ == s[j].file_nm@);
                }
            } else {
                assert(s[j] == t[j]);
                let k = choose|k: int| 0 <= k < m.len() && (#[trigger] m[k]).file_nm@ == (#[trigger] t[j]).file_nm@;
                if p >= 0 && k == p {
                    assert(res[k].file_nm@ == s[j].file_nm@);
                } else {
                    assert(res[k] == m[k]);
                }
            }
        }
    }
}

} // verus!
