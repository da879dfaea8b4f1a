//! Initializing the secrets file: the record made for each file listed in
//! the input, and how new records merge into the records already written.

use vstd::prelude::*;
use crate::text::{copy_str, join2, join3, starts_with, str_eq, trim, u64_to_string, decimal};
use crate::secrets::retrieve::{base64_encode, base64_standard, utf8_text};
use vstd::utf8::valid_utf8;
use crate::utf8_len::byte_len;

verus! {

/// Whether the input file lists its files as a JSON object (a map whose
/// values are the file names) rather than an array: its text, trimmed,
/// starts with `{`.
pub fn init_input_is_map(contents: &str) -> (b: bool)
    ensures
        b == starts_with(trim(contents@), seq!['{']),
{
    let v = crate::text::chars_of(contents);
    let t = crate::text::trim_chars(&v);
    let mut p: Vec<char> = Vec::new();
    p.push('{');
    assert(p@ =~= seq!['{']);
    crate::text::starts_with_chars(&t, &p)
}

/// Where a file goes when its entry does not say: R2 above 20000 encoded
/// bytes, else Azure Key Vault.
pub open spec fn spec_init_destination(given: Option<Seq<char>>, encoded_size: u64) -> Seq<char> {
    match given {
        Some(d) => d,
        None => if encoded_size > 20000 {
            "r2"@
        } else {
            "azure_kv"@
        },
    }
}

/// The destination of an initialized file: the entry's, else by size.
pub fn init_destination(given: Option<&str>, encoded_size: u64) -> (r: String)
    ensures
        r@ == spec_init_destination(
            match given {
                Some(g) => Some(g@),
                None => None,
            },
            encoded_size,
        ),
{
    match given {
        Some(d) => copy_str(d),
        None => if encoded_size > 20000 {
            "r2".to_owned()
        } else {
            "azure_kv".to_owned()
        },
    }
}

/// Whether the file's own encoding (UTF-8 or base64) and sizes are used:
/// only for Key Vault; the object stores take the file as it is.
pub fn keeps_file_encoding(destination: &str) -> (b: bool)
    ensures
        b == (destination@ == "azure_kv"@),
{
    str_eq(destination, "azure_kv")
}

/// The bucket of an initialized file: the entry's (or empty) for `r2` and
/// `b2`, empty for Key Vault.
pub fn init_bucket(destination: &str, given: Option<&str>) -> (r: String)
    ensures
        r@ == (if destination@ == "r2"@ || destination@ == "b2"@ {
            match given {
                Some(g) => g@,
                None => Seq::empty(),
            }
        } else {
            Seq::empty()
        }),
{
    if str_eq(destination, "r2") || str_eq(destination, "b2") {
        match given {
            Some(b) => copy_str(b),
            None => String::new(),
        }
    } else {
        String::new()
    }
}

/// What becomes of one entry of the input: skipped (`Ok(None)`) when it
/// names no file, an error when the file it names does not exist, else the
/// file to record.
pub fn init_entry_file(filenm: Option<&str>, exists: bool) -> (r: Result<Option<String>, String>)
    ensures
        filenm is None ==> r == Ok::<Option<String>, String>(None),
        filenm is Some && !exists ==> r is Err && r->Err_0@ == "File "@ + filenm->0@ + " does not exist"@,
        filenm is Some && exists ==> r is Ok && r->Ok_0 is Some && r->Ok_0->0@ == filenm->0@,
{
    match filenm {
        None => Ok(None),
        Some(f) => if exists {
            Ok(Some(copy_str(f)))
        } else {
            Err(join3("File ", f, " does not exist"))
        },
    }
}

/// The key that identifies a record: file name, host and destination,
/// joined by `-`.
pub open spec fn spec_lookup_key(file_nm: Seq<char>, hostname: Seq<char>, cloud: Seq<char>) -> Seq<
    char,
> {
    file_nm + "-"@ + hostname + "-"@ + cloud
}

/// The key of a record with these fields.
pub fn lookup_key(file_nm: &str, hostname: &str, cloud: &str) -> (r: String)
    ensures
        r@ == spec_lookup_key(file_nm@, hostname@, cloud@),
{
    let a = join3(file_nm, "-", hostname);
    join3(a.as_str(), "-", cloud)
}

/// How new records merge into the existing ones: each new record that
/// matches an existing one updates it (in this order), the others go at
/// the end.
pub struct MergePlan {
    /// Pairs of (existing position, new position), in the order of the new
    /// records.
    pub updates: Vec<(usize, usize)>,
    /// Positions of the new records that are added, in order.
    pub appended: Vec<usize>,
}

/// The first existing record with this key.
pub open spec fn first_match(existing: Seq<Option<Seq<char>>>, key: Seq<char>, i: int) -> bool {
    &&& 0 <= i < existing.len()
    &&& existing[i] == Some(key)
    &&& forall|m: int| 0 <= m < i ==> existing[m] != Some(key)
}

/// No existing record has this key.
pub open spec fn no_match(existing: Seq<Option<Seq<char>>>, key: Seq<char>) -> bool {
    forall|m: int| 0 <= m < existing.len() ==> existing[m] != Some(key)
}

/// The keys of the existing records (`None` for one that lacks a field).
pub open spec fn key_views(v: Seq<Option<String>>) -> Seq<Option<Seq<char>>> {
    v.map_values(|o: Option<String>| match o {
        Some(s) => Some(s@),
        None => None,
    })
}

/// The merge of an initialization, over the keys of the
/// existing and of the new records: each new record updates the first
/// existing record with its key, or is added; updates and additions keep
/// the order of the new records.
pub open spec fn merge_ok(existing: Seq<Option<Seq<char>>>, new_keys: Seq<Seq<char>>, p: (Seq<(usize, usize)>, Seq<usize>)) -> bool {
    let (updates, appended) = p;
    &&& forall|k: int| 0 <= k < updates.len() ==> updates[k].1 < new_keys.len() && first_match(
        existing,
        new_keys[updates[k].1 as int],
        updates[k].0 as int,
    )
    &&& forall|k: int| 0 <= k < appended.len() ==> appended[k] < new_keys.len() && no_match(
        existing,
        new_keys[appended[k] as int],
    )
    &&& forall|a: int, b: int| 0 <= a < b < updates.len() ==> updates[a].1 < updates[b].1
    &&& forall|a: int, b: int| 0 <= a < b < appended.len() ==> appended[a] < appended[b]
    &&& updates.len() + appended.len() == new_keys.len()
    &&& forall|j: int| 0 <= j < new_keys.len() ==> is_updated(updates, j) || is_appended(appended, j)
}

/// The new record at `j` updates an existing one.
pub open spec fn is_updated(updates: Seq<(usize, usize)>, j: int) -> bool {
    exists|k: int| 0 <= k < updates.len() && updates[k].1 == j
}

/// The new record at `j` is added.
pub open spec fn is_appended(appended: Seq<usize>, j: int) -> bool {
    exists|k: int| 0 <= k < appended.len() && appended[k] == j
}

/// Each new record is handled once: it either updates the first existing
/// record with its key or, when there is none, is added; never both, and
/// never twice.
pub proof fn lemma_merge_partition(existing: Seq<Option<Seq<char>>>, new_keys: Seq<Seq<char>>, updates: Seq<(usize, usize)>, appended: Seq<usize>)
    requires
        merge_ok(existing, new_keys, (updates, appended)),
    ensures
        forall|j: int|
            0 <= j < new_keys.len() ==> (is_updated(updates, j) != is_appended(appended, j)),
        forall|a: int, b: int| 0 <= a < b < updates.len() ==> updates[a].1 != updates[b].1,
        forall|a: int, b: int| 0 <= a < b < appended.len() ==> appended[a] != appended[b],
{
    assert forall|j: int| 0 <= j < new_keys.len() implies (is_updated(updates, j) != is_appended(appended, j)) by {
        if is_updated(updates, j) && is_appended(appended, j) {
            let k = choose|k: int| 0 <= k < updates.len() && updates[k].1 == j;
            let l = choose|l: int| 0 <= l < appended.len() && appended[l] == j;
            let i = updates[k].0 as int;
            assert(first_match(existing, new_keys[j], i));
            assert(no_match(existing, new_keys[j]));
            assert(existing[i] == Some(new_keys[j]));
        }
    }
}

fn find_first(existing: &Vec<Option<String>>, key: &str) -> (r: Option<usize>)
    ensures
        match r {
            Some(i) => first_match(key_views(existing@), key@, i as int),
            None => no_match(key_views(existing@), key@),
        },
{
    let mut i: usize = 0;
    while i < existing.len()
        invariant
            i <= existing.len(),
            forall|m: int| 0 <= m < i ==> key_views(existing@)[m] != Some(key@),
        decreases existing.len() - i,
    {
        match &existing[i] {
            Some(k) => {
                if str_eq(k.as_str(), key) {
                    return Some(i);
                }
            },
            None => {},
        }
        i += 1;
    }
    None
}

/// Plans the merge of new records (by their keys) into the existing ones.
pub fn plan_merge(existing: &Vec<Option<String>>, new_keys: &Vec<String>) -> (r: MergePlan)
    ensures
        merge_ok(
            key_views(existing@),
            new_keys@.map_values(|s: String| s@),
            (r.updates@, r.appended@),
        ),
{
    let ghost nk = new_keys@.map_values(|s: String| s@);
    let mut updates: Vec<(usize, usize)> = Vec::new();
    let mut appended: Vec<usize> = Vec::new();
    let mut j: usize = 0;
    while j < new_keys.len()
        invariant
            j <= new_keys.len(),
            nk == new_keys@.map_values(|s: String| s@),
            forall|k: int| 0 <= k < updates.len() ==> updates@[k].1 < j && first_match(
                key_views(existing@),
                nk[updates@[k].1 as int],
                updates@[k].0 as int,
            ),
            forall|k: int| 0 <= k < appended.len() ==> appended@[k] < j && no_match(
                key_views(existing@),
                nk[appended@[k] as int],
            ),
            forall|a: int, b: int| 0 <= a < b < updates.len() ==> updates@[a].1 < updates@[b].1,
            forall|a: int, b: int| 0 <= a < b < appended.len() ==> appended@[a] < appended@[b],
            updates.len() + appended.len() == j,
            forall|jj: int| 0 <= jj < j ==> is_updated(updates@, jj) || is_appended(appended@, jj),
        decreases new_keys.len() - j,
    {
        let ghost u0 = updates@;
        let ghost a0 = appended@;
        match find_first(existing, new_keys[j].as_str()) {
            Some(i) => {
                updates.push((i, j));
                assert(updates@[updates.len() - 1].1 == j);
            },
            None => {
                appended.push(j);
                assert(appended@[appended.len() - 1] == j);
            },
        }
        proof {
            assert forall|jj: int| 0 <= jj < j + 1 implies is_updated(updates@, jj) || is_appended(appended@, jj) by {
                if jj < j {
                    if is_updated(u0, jj) {
                        let k = choose|k: int| 0 <= k < u0.len() && u0[k].1 == jj;
                        assert(updates@[k] == u0[k]);
                    } else {
                        assert(is_appended(a0, jj));
                        let k = choose|k: int| 0 <= k < a0.len() && a0[k] == jj;
                        assert(appended@[k] == a0[k]);
                    }
                }
            }
        }
        j += 1;
    }
    MergePlan { updates, appended }
}

/// The message that reports a merge.
pub open spec fn spec_init_summary(updated: nat, added: nat) -> Seq<char> {
    if updated > 0 && added > 0 {
        "info: Successfully updated output file with "@ + decimal(added) + " new entries and "@
            + decimal(updated) + " updated entries"@
    } else if updated > 0 {
        "info: Successfully updated output file with "@ + decimal(updated) + " updated entries"@
    } else {
        "info: Successfully updated output file with "@ + decimal(added) + " new entries"@
    }
}

/// The report of a merge with these counts.
pub fn init_summary(updated: u64, added: u64) -> (r: String)
    ensures
        r@ == spec_init_summary(updated as nat, added as nat),
{
    let u = u64_to_string(updated);
    let a = u64_to_string(added);
    if updated > 0 && added > 0 {
        let s = join3("info: Successfully updated output file with ", a.as_str(), " new entries and ");
        join3(s.as_str(), u.as_str(), " updated entries")
    } else if updated > 0 {
        join3("info: Successfully updated output file with ", u.as_str(), " updated entries")
    } else {
        join3("info: Successfully updated output file with ", a.as_str(), " new entries")
    }
}

} // verus!

verus! {

/// How a file is recorded for upload: its encoding, its size, the size of
/// what is uploaded, and the base64 text that is uploaded in its place.
pub struct FileEncoding {
    pub encoding: String,
    pub file_size: u64,
    pub encoded_size: u64,
    pub base64_text: Option<String>,
}

/// The encoding of a file's contents (`check_encoding_and_size`): `utf8`
/// when they are valid UTF-8, uploaded as they are; else `base64`, and the
/// base64 text is what is uploaded (it is written next to the file).
pub fn check_encoding_and_size(content: &[u8]) -> (r: FileEncoding)
    ensures
        r.file_size == content@.len(),
        valid_utf8(content@) ==> r.encoding@ == "utf8"@ && r.encoded_size == r.file_size
            && r.base64_text is None,
        !valid_utf8(content@) ==> r.encoding@ == "base64"@ && (r.base64_text matches Some(
            t,
        ) && t@ == base64_standard(content@) && r.encoded_size == byte_len(t@)),
{
    let file_size = content.len() as u64;
    match utf8_text(content) {
        Ok(_) => FileEncoding {
            encoding: "utf8".to_owned(),
            file_size,
            encoded_size: file_size,
            base64_text: None,
        },
        Err(_) => {
            let t = base64_encode(content);
            let n = t.as_str().as_bytes().len() as u64;
            FileEncoding {
                encoding: "base64".to_owned(),
                file_size,
                encoded_size: n,
                base64_text: Some(t),
            }
        },
    }
}

} // verus!

verus! {

/// The encoding and sizes recorded for an initialized file: its own for
/// Key Vault; for the object stores `utf8` and the size on disk for both.
pub fn init_encoding(destination: &str, enc: &FileEncoding, disk_size: u64) -> (r: (String, u64, u64))
    ensures
        destination@ == "azure_kv"@ ==> r.0@ == enc.encoding@ && r.1 == enc.file_size && r.2
            == enc.encoded_size,
        destination@ != "azure_kv"@ ==> r.0@ == "utf8"@ && r.1 == disk_size && r.2 == disk_size,
{
    if keeps_file_encoding(destination) {
        (enc.encoding.clone(), enc.file_size, enc.encoded_size)
    } else {
        ("utf8".to_owned(), disk_size, disk_size)
    }
}

} // verus!
