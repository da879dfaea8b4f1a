//! What a quadlet `.container` file says of its container: the image it
//! runs (`Image=`) and the container's name (`ContainerName=`).

use vstd::prelude::*;
use crate::secrets::models::ov;
use crate::text::{
    chars_of, lines, slice_chars, split_lines, starts_with, starts_with_chars, string_from_chars,
    trim, trim_chars, views,
};

verus! {

/// The value of the first line that reads `key=value`, surrounding spaces
/// ignored on the line and around the value.
pub open spec fn key_value(ls: Seq<Seq<char>>, key: Seq<char>) -> Option<Seq<char>>
    decreases ls.len(),
{
    if ls.len() == 0 {
        None
    } else {
        let t = trim(ls[0]);
        if starts_with(t, key + "="@) {
            Some(trim(t.subrange(key.len() as int + 1, t.len() as int)))
        } else {
            key_value(ls.drop_first(), key)
        }
    }
}

fn find_key(ls: &Vec<Vec<char>>, key: &str) -> (r: Option<String>)
    ensures
        ov(r) == key_value(views(ls@), key@),
{
    let mut prefix = chars_of(key);
    prefix.push('=');
    let ghost k = key@;
    assert(prefix@ == k + "="@) by {
        reveal_strlit("=");
        assert(prefix@ =~= k + "="@);
    }
    assert(prefix@.len() == k.len() + 1) by {
        reveal_strlit("=");
    }
    let ghost vs = views(ls@);
    let mut i: usize = 0;
    assert(vs.skip(0) =~= vs);
    while i < ls.len()
        invariant
            i <= ls.len(),
            vs == views(ls@),
            prefix@ == k + "="@,
            prefix@.len() == k.len() + 1,
            k == key@,
            key_value(vs, k) == key_value(vs.skip(i as int), k),
        decreases ls.len() - i,
    {
        let t = trim_chars(&ls[i]);
        assert(vs.skip(i as int)[0] == ls@[i as int]@);
        assert(vs.skip(i as int).drop_first() =~= vs.skip(i + 1));
        if starts_with_chars(&t, &prefix) {
            let rest = slice_chars(&t, prefix.len(), t.len());
            let v = trim_chars(&rest);
            assert(key_value(vs.skip(i as int), k) == Some(trim(t@.subrange(k.len() as int + 1, t@.len() as int))));
            return Some(string_from_chars(&v));
        }
        i += 1;
    }
    None
}

/// The image and container name of a quadlet file (`parse_container_file`):
/// nothing when it names no image.
pub fn parse_container_file(text: &str) -> (r: Option<(String, Option<String>)>)
    ensures
        match key_value(lines(text@), "Image"@) {
            None => r is None,
            Some(i) => r matches Some(p) && p.0@ == i && ov(p.1) == key_value(
                lines(text@),
                "ContainerName"@,
            ),
        },
{
    let v = chars_of(text);
    let ls = split_lines(&v);
    match find_key(&ls, "Image") {
        None => None,
        Some(image) => Some((image, find_key(&ls, "ContainerName"))),
    }
}

} // verus!
