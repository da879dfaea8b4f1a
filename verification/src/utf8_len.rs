//! UTF-8 byte lengths of character sequences, and cutting a sequence at a
//! byte offset, as `str` indexing does.

use vstd::prelude::*;
use vstd::utf8::{encode_scalar, encode_utf8};

verus! {

/// Number of bytes that `c` takes in UTF-8.
pub open spec fn char_width(c: char) -> nat {
    encode_scalar(c as u32).len()
}

/// Number of bytes that `s` takes in UTF-8 (`str::len`).
pub open spec fn byte_len(s: Seq<char>) -> nat {
    encode_utf8(s).len()
}

/// Byte offset `n` falls between two characters of `s` (or at its end).
pub open spec fn is_boundary(s: Seq<char>, n: int) -> bool
    decreases s.len(),
{
    if n == 0 {
        true
    } else if s.len() == 0 || n < 0 {
        false
    } else {
        is_boundary(s.drop_first(), n - char_width(s[0]))
    }
}

/// The characters that the first `n` bytes of `s` encode.
pub open spec fn byte_prefix(s: Seq<char>, n: int) -> Seq<char>
    decreases s.len(),
{
    if n <= 0 || s.len() == 0 {
        seq![]
    } else {
        seq![s[0]] + byte_prefix(s.drop_first(), n - char_width(s[0]))
    }
}

/// The characters that remain of `s` after its first `n` bytes.
pub open spec fn byte_drop(s: Seq<char>, n: int) -> Seq<char>
    decreases s.len(),
{
    if n <= 0 || s.len() == 0 {
        s
    } else {
        byte_drop(s.drop_first(), n - char_width(s[0]))
    }
}

pub proof fn lemma_char_width(c: char)
    ensures
        1 <= char_width(c) <= 4,
        char_width(c) == (if (c as u32) < 0x80 {
            1nat
        } else if (c as u32) < 0x800 {
            2nat
        } else if (c as u32) < 0x10000 {
            3nat
        } else {
            4nat
        }),
{
    vstd::utf8::char_is_scalar(c);
}

pub proof fn lemma_byte_len_concat(a: Seq<char>, b: Seq<char>)
    ensures
        byte_len(a + b) == byte_len(a) + byte_len(b),
    decreases a.len(),
{
    if a.len() > 0 {
        lemma_byte_len_concat(a.drop_first(), b);
        assert((a + b).drop_first() =~= a.drop_first() + b);
    } else {
        assert(a + b =~= b);
    }
}

/// The characters of the first `n` bytes are a prefix of `s`.
pub proof fn lemma_byte_prefix_is_prefix(s: Seq<char>, n: int)
    ensures
        byte_prefix(s, n).len() <= s.len(),
        byte_prefix(s, n) == s.take(byte_prefix(s, n).len() as int),
    decreases s.len(),
{
    if !(n <= 0 || s.len() == 0) {
        lemma_byte_prefix_is_prefix(s.drop_first(), n - char_width(s[0]));
        let p = byte_prefix(s.drop_first(), n - char_width(s[0]));
        assert(seq![s[0]] + p =~= s.take(p.len() + 1 as int));
    } else {
        assert(s.take(0) =~= Seq::<char>::empty());
    }
}

/// What remains after the first `n` bytes is a suffix of `s`.
pub proof fn lemma_byte_drop_is_suffix(s: Seq<char>, n: int)
    ensures
        byte_drop(s, n).len() <= s.len(),
        byte_drop(s, n) == s.skip(s.len() - byte_drop(s, n).len()),
    decreases s.len(),
{
    if !(n <= 0 || s.len() == 0) {
        lemma_byte_drop_is_suffix(s.drop_first(), n - char_width(s[0]));
        let d = byte_drop(s.drop_first(), n - char_width(s[0]));
        assert(s.drop_first().skip(s.drop_first().len() - d.len()) =~= s.skip(s.len() - d.len()));
    } else {
        assert(s.skip(0) =~= s);
    }
}

/// Cut at a character boundary, the first `n` bytes are `n` bytes long.
pub proof fn lemma_byte_prefix_len(s: Seq<char>, n: int)
    requires
        is_boundary(s, n),
    ensures
        byte_len(byte_prefix(s, n)) == n,
    decreases s.len(),
{
    if n != 0 {
        let w = char_width(s[0]);
        lemma_byte_prefix_len(s.drop_first(), n - w);
        let rest = byte_prefix(s.drop_first(), n - w);
        lemma_byte_len_concat(seq![s[0]], rest);
        assert(seq![s[0]].drop_first() =~= Seq::<char>::empty());
        assert(encode_utf8(Seq::<char>::empty()) =~= Seq::<u8>::empty());
        assert(encode_utf8(seq![s[0]]) =~= encode_scalar(s[0] as u32));
        assert(byte_len(seq![s[0]]) == w);
    }
}

/// Cut at a character boundary, what remains after the first `n` bytes is
/// the rest of the bytes.
pub proof fn lemma_byte_drop_len(s: Seq<char>, n: int)
    requires
        is_boundary(s, n),
    ensures
        byte_len(byte_drop(s, n)) == byte_len(s) - n,
    decreases s.len(),
{
    if n != 0 {
        let w = char_width(s[0]);
        lemma_byte_drop_len(s.drop_first(), n - w);
        assert(byte_len(s) == w + byte_len(s.drop_first()));
    }
}

/// Number of bytes that `c` takes in UTF-8.
pub fn char_width_exec(c: char) -> (w: usize)
    ensures
        w == char_width(c),
{
    proof {
        lemma_char_width(c);
    }
    let u = c as u32;
    if u < 0x80 {
        1
    } else if u < 0x800 {
        2
    } else if u < 0x10000 {
        3
    } else {
        4
    }
}

/// The characters that the first `n` bytes of `v` encode.
pub fn byte_prefix_chars(v: &Vec<char>, n: usize) -> (r: Vec<char>)
    ensures
        r@ == byte_prefix(v@, n as int),
{
    let mut r: Vec<char> = Vec::new();
    let mut i: usize = 0;
    let mut used: usize = 0;
    assert(v@.skip(0) =~= v@);
    while i < v.len() && used < n
        invariant
            i <= v.len(),
            used <= n,
            byte_prefix(v@, n as int) == r@ + byte_prefix(v@.skip(i as int), n - used),
        decreases v.len() - i,
    {
        let ghost t = v@.skip(i as int);
        let w = char_width_exec(v[i]);
        proof {
            lemma_char_width(v@[i as int]);
            assert(t.drop_first() =~= v@.skip(i + 1));
            assert(t[0] == v@[i as int]);
        }
        let ghost old_r = r@;
        r.push(v[i]);
        assert(old_r + (seq![v@[i as int]] + byte_prefix(v@.skip(i + 1), n - used - w)) =~= r@
            + byte_prefix(v@.skip(i + 1), n - used - w));
        if w >= n - used {
            assert(byte_prefix(v@.skip(i + 1), n - used - w) =~= Seq::<char>::empty());
            assert(r@ + Seq::<char>::empty() =~= r@);
            return r;
        }
        used = used + w;
        i += 1;
    }
    assert(byte_prefix(v@.skip(i as int), n - used) =~= Seq::<char>::empty());
    assert(r@ + Seq::<char>::empty() =~= r@);
    r
}

/// The characters of `v` after its first `n` bytes.
pub fn byte_drop_chars(v: &Vec<char>, n: usize) -> (r: Vec<char>)
    ensures
        r@ == byte_drop(v@, n as int),
{
    let mut i: usize = 0;
    let mut used: usize = 0;
    assert(v@.skip(0) =~= v@);
    while i < v.len() && used < n
        invariant
            i <= v.len(),
            used <= n,
            byte_drop(v@, n as int) == byte_drop(v@.skip(i as int), n - used),
        decreases v.len() - i,
    {
        let ghost t = v@.skip(i as int);
        let w = char_width_exec(v[i]);
        proof {
            lemma_char_width(v@[i as int]);
            assert(t.drop_first() =~= v@.skip(i + 1));
            assert(t[0] == v@[i as int]);
        }
        if w >= n - used {
            assert(byte_drop(v@.skip(i + 1), n - used - w) == v@.skip(i + 1));
            assert(v@.skip(i + 1) =~= v@.subrange(i + 1, v.len() as int));
            return crate::text::slice_chars(v, i + 1, v.len());
        }
        used = used + w;
        i += 1;
    }
    assert(byte_drop(v@.skip(i as int), n - used) == v@.skip(i as int));
    assert(v@.skip(i as int) =~= v@.subrange(i as int, v.len() as int));
    crate::text::slice_chars(v, i, v.len())
}

} // verus!
