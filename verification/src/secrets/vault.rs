//! The Azure Key Vault that secrets go to: its name, as the configuration
//! gives it or as a vault URL, and its address.

use vstd::prelude::*;
use crate::text::{before_char, before_char_chars, chars_of, contains, join3, slice_chars, string_from_chars};

verus! {

/// Position of the first `//` in `s`, or -1.
pub open spec fn slashes_pos(s: Seq<char>) -> int
    decreases s.len(),
{
    if s.len() < 2 {
        -1
    } else if s[0] == '/' && s[1] == '/' {
        0
    } else {
        let k = slashes_pos(s.drop_first());
        if k < 0 {
            -1
        } else {
            k + 1
        }
    }
}

/// The part of `s` before its first `//` (`s.split("//").next()`).
pub open spec fn before_slashes(s: Seq<char>) -> Seq<char> {
    if slashes_pos(s) < 0 {
        s
    } else {
        s.take(slashes_pos(s))
    }
}

/// The vault name that a configured name stands for: a vault URL
/// (`https://name.vault.azure.net`) gives the host's first label; anything
/// else is the name itself.
pub open spec fn spec_key_vault_name(text: Seq<char>) -> Seq<char> {
    if contains(text, "vault.azure.net"@) && slashes_pos(text) >= 0 {
        before_char(before_slashes(text.skip(slashes_pos(text) + 2)), '.')
    } else {
        text
    }
}

proof fn lemma_slashes_pos_range(s: Seq<char>)
    ensures
        -1 <= slashes_pos(s) <= s.len() - 2 || slashes_pos(s) == -1,
        slashes_pos(s) >= 0 ==> slashes_pos(s) + 2 <= s.len(),
    decreases s.len(),
{
    if s.len() >= 2 && !(s[0] == '/' && s[1] == '/') {
        lemma_slashes_pos_range(s.drop_first());
    }
}

fn slashes_index(v: &Vec<char>) -> (r: Option<usize>)
    ensures
        match r {
            Some(i) => i == slashes_pos(v@) && i + 2 <= v.len(),
            None => slashes_pos(v@) < 0,
        },
{
    proof {
        lemma_slashes_pos_range(v@);
    }
    let mut i: usize = 0;
    assert(v@.skip(0) =~= v@);
    while i < v.len() && v.len() - i > 1
        invariant
            i <= v.len(),
            slashes_pos(v@) == (if slashes_pos(v@.skip(i as int)) < 0 {
                -1
            } else {
                i + slashes_pos(v@.skip(i as int))
            }),
        decreases v.len() - i,
    {
        let ghost t = v@.skip(i as int);
        assert(t[0] == v@[i as int] && t[1] == v@[i + 1]);
        if v[i] == '/' && v[i + 1] == '/' {
            return Some(i);
        }
        assert(t.drop_first() =~= v@.skip(i + 1));
        i += 1;
    }
    assert(v@.skip(i as int).len() < 2);
    None
}

proof fn lemma_slashes_at(s: Seq<char>, k: int)
    requires
        0 <= k,
        k + 2 <= s.len(),
        s[k] == '/' && s[k + 1] == '/',
        forall|j: int| 0 <= j < k ==> !(#[trigger] s[j] == '/' && s[j + 1] == '/'),
    ensures
        slashes_pos(s) == k,
    decreases k,
{
    if k > 0 {
        lemma_slashes_at(s.drop_first(), k - 1);
    }
}

proof fn lemma_no_slash(s: Seq<char>)
    requires
        forall|j: int| 0 <= j < s.len() ==> s[j] != '/',
    ensures
        slashes_pos(s) == -1,
    decreases s.len(),
{
    if s.len() >= 2 {
        lemma_no_slash(s.drop_first());
    }
}

/// The address built for a vault names it again: for a name without `.`
/// or `/`, the vault name that `vault_url` of it stands for is the name.
pub proof fn lemma_vault_url_names_vault(name: Seq<char>)
    requires
        forall|i: int| 0 <= i < name.len() ==> name[i] != '.' && name[i] != '/',
    ensures
        spec_key_vault_name("https://"@ + name + ".vault.azure.net"@) == name,
{
    reveal_strlit("https://");
    reveal_strlit(".vault.azure.net");
    reveal_strlit("vault.azure.net");
    let suffix = ".vault.azure.net"@;
    let url = "https://"@ + name + suffix;
    let n = name.len() as int;
    assert(url.subrange(9 + n, 9 + n + 15) =~= "vault.azure.net"@);
    assert(crate::text::occurs_at(url, "vault.azure.net"@, 9 + n));
    assert(contains(url, "vault.azure.net"@));
    assert forall|j: int| 0 <= j < 6 implies !(#[trigger] url[j] == '/' && url[j + 1] == '/') by {}
    lemma_slashes_at(url, 6);
    let rest = url.skip(8);
    assert(rest =~= name + suffix);
    assert forall|j: int| 0 <= j < rest.len() implies rest[j] != '/' by {
        if j >= n {
            assert(rest[j] == suffix[j - n]);
        }
    }
    lemma_no_slash(rest);
    assert(before_slashes(rest) == rest);
    assert forall|j: int| 0 <= j < n implies rest[j] != '.' by {
        assert(rest[j] == name[j]);
    }
    assert(rest[n] == '.');
    crate::text::lemma_char_pos_found(rest, '.', n);
    assert(before_char(rest, '.') =~= name);
}

/// The vault name of a configured name (as `get_keyvault_client` reads
/// it).
pub fn key_vault_name(text: &str) -> (r: String)
    ensures
        r@ == spec_key_vault_name(text@),
{
    let v = chars_of(text);
    let marker = chars_of("vault.azure.net");
    if !crate::text::contains_chars(&v, &marker) {
        return string_from_chars(&v);
    }
    match slashes_index(&v) {
        None => string_from_chars(&v),
        Some(i) => {
            let rest = slice_chars(&v, i + 2, v.len());
            assert(rest@ =~= v@.skip(i + 2));
            let segment = match slashes_index(&rest) {
                Some(j) => slice_chars(&rest, 0, j),
                None => rest,
            };
            assert(segment@ =~= before_slashes(v@.skip(slashes_pos(v@) + 2)));
            let name = before_char_chars(&segment, '.');
            string_from_chars(&name)
        },
    }
}

/// The address of the vault with this name.
pub fn vault_url(name: &str) -> (r: String)
    ensures
        r@ == "https://"@ + name@ + ".vault.azure.net"@,
{
    join3("https://", name, ".vault.azure.net")
}

} // verus!
