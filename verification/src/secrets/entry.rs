//! An entry of a secrets JSON file, as the text and number fields it holds,
//! and what the workflow reads from it: old and new field names, defaults.

use vstd::prelude::*;
use crate::secrets::models::{get_hostname, ov, UploadEntry};
use crate::text::{copy_str, join2, str_eq};

verus! {

/// The fields of a JSON entry: each text field that is a string, each size
/// that is an unsigned integer, `None` otherwise.
pub struct EntryFields {
    pub file_nm: Option<String>,
    pub filenm: Option<String>,
    pub hash: Option<String>,
    pub md5: Option<String>,
    pub ins_ts: Option<String>,
    pub hash_algo: Option<String>,
    pub encoding: Option<String>,
    pub destination_cloud: Option<String>,
    pub cloud_type: Option<String>,
    pub hostname: Option<String>,
    pub cloud_upload_bucket: Option<String>,
    pub cloud_prefix: Option<String>,
    pub cloud_id: Option<String>,
    pub az_id: Option<String>,
    pub secret_name: Option<String>,
    pub az_name: Option<String>,
    pub cloud_cr_ts: Option<String>,
    pub cloud_upd_ts: Option<String>,
    pub r2_name: Option<String>,
    pub filename: Option<String>,
    pub file_size: Option<u64>,
    pub encoded_size: Option<u64>,
}

/// The first of two optional texts that is there.
pub open spec fn either(a: Option<String>, b: Option<String>) -> Option<Seq<char>> {
    match a {
        Some(x) => Some(x@),
        None => ov(b),
    }
}

/// An optional text, or a default.
pub open spec fn or_default(a: Option<Seq<char>>, d: Seq<char>) -> Seq<char> {
    match a {
        Some(x) => x,
        None => d,
    }
}

fn pick(a: &Option<String>, b: &Option<String>) -> (r: Option<String>)
    ensures
        ov(r) == either(*a, *b),
{
    match a {
        Some(x) => Some(x.clone()),
        None => match b {
            Some(y) => Some(y.clone()),
            None => None,
        },
    }
}

fn text_or(a: Option<String>, d: &str) -> (r: String)
    ensures
        r@ == or_default(ov(a), d@),
{
    match a {
        Some(x) => x,
        None => copy_str(d),
    }
}

/// The fields a validation reads: cloud id, file name, secret name,
/// encoding and storage type, under their new or old names.
pub open spec fn spec_validation_fields(e: EntryFields) -> Result<
    (Seq<char>, Seq<char>, Seq<char>, Seq<char>, Seq<char>),
    Seq<char>,
> {
    match (either(e.cloud_id, e.az_id), either(e.file_nm, e.filenm), either(e.secret_name, e.az_name)) {
        (None, _, _) => Err("cloud_id missing in input json"@),
        (Some(_), None, _) => Err("file_nm missing in input json"@),
        (Some(_), Some(_), None) => Err("secret_name missing in input json"@),
        (Some(c), Some(f), Some(s)) => Ok(
            (
                c,
                f,
                s,
                or_default(ov(e.encoding), "utf8"@),
                or_default(either(e.destination_cloud, e.cloud_type), "azure_kv"@),
            ),
        ),
    }
}

/// Reads the fields a validation needs (`extract_validation_fields`).
pub fn extract_validation_fields(e: &EntryFields) -> (r: Result<
    (String, String, String, String, String),
    String,
>)
    ensures
        match (r, spec_validation_fields(*e)) {
            (Ok(t), Ok(s)) => t.0@ == s.0 && t.1@ == s.1 && t.2@ == s.2 && t.3@ == s.3 && t.4@
                == s.4,
            (Err(m), Err(s)) => m@ == s,
            _ => false,
        },
{
    let cloud_id = match pick(&e.cloud_id, &e.az_id) {
        Some(c) => c,
        None => {
            return Err("cloud_id missing in input json".to_owned());
        },
    };
    let file_nm = match pick(&e.file_nm, &e.filenm) {
        Some(f) => f,
        None => {
            return Err("file_nm missing in input json".to_owned());
        },
    };
    let secret_name = match pick(&e.secret_name, &e.az_name) {
        Some(s) => s,
        None => {
            return Err("secret_name missing in input json".to_owned());
        },
    };
    let encoding = text_or(e.encoding.clone(), "utf8");
    let storage_type = text_or(pick(&e.destination_cloud, &e.cloud_type), "azure_kv");
    Ok((cloud_id, file_nm, secret_name, encoding, storage_type))
}

/// The upload entry that the fields of a JSON entry give when they are read
/// one by one: file name and hash under their new or old names and the
/// insertion time are required; the rest have defaults, the host name
/// `fallback_host`, an empty prefix none.
pub open spec fn entry_from(e: EntryFields, entry_text: Seq<char>, fallback_host: Seq<char>, r: Result<UploadEntry, String>) -> bool {
    match (either(e.file_nm, e.filenm), either(e.hash, e.md5), ov(e.ins_ts)) {
        (None, _, _) => r matches Err(m) && m@ == "Missing file_nm field in entry: "@ + entry_text,
        (Some(_), None, _) => r matches Err(m) && m@ == "Missing hash/md5 field in entry: "@
            + entry_text,
        (Some(_), Some(_), None) => r matches Err(m) && m@ == "Missing ins_ts field in entry: "@
            + entry_text,
        (Some(f), Some(h), Some(t)) => r matches Ok(u) && u.file_nm@ == f && u.hash@ == h
            && u.ins_ts@ == t && u.hostname@ == or_default(ov(e.hostname), fallback_host)
            && u.hash_algo@ == or_default(ov(e.hash_algo), "sha1"@) && u.encoding@ == or_default(
            ov(e.encoding),
            "utf8"@,
        ) && u.file_size == (match e.file_size {
            Some(n) => n,
            None => 0u64,
        }) && u.encoded_size == (match e.encoded_size {
            Some(n) => n,
            None => u.file_size,
        }) && u.destination_cloud@ == or_default(ov(e.destination_cloud), "azure_kv"@) && ov(
            u.cloud_upload_bucket,
        ) == ov(e.cloud_upload_bucket) && ov(u.cloud_prefix) == (match e.cloud_prefix {
            Some(p) => if p@.len() > 0 {
                Some(p@)
            } else {
                None
            },
            None => None,
        }),
    }
}

/// Builds an upload entry from the fields of a JSON entry, with
/// `fallback_host` for an entry without host name. `entry_text` is the
/// entry as JSON text, for the messages.
pub fn entry_from_fields(e: &EntryFields, entry_text: &str, fallback_host: &str) -> (r: Result<
    UploadEntry,
    String,
>)
    ensures
        entry_from(*e, entry_text@, fallback_host@, r),
{
    let file_nm = match pick(&e.file_nm, &e.filenm) {
        Some(f) => f,
        None => {
            return Err(join2("Missing file_nm field in entry: ", entry_text));
        },
    };
    let hash = match pick(&e.hash, &e.md5) {
        Some(h) => h,
        None => {
            return Err(join2("Missing hash/md5 field in entry: ", entry_text));
        },
    };
    let ins_ts = match &e.ins_ts {
        Some(t) => t.clone(),
        None => {
            return Err(join2("Missing ins_ts field in entry: ", entry_text));
        },
    };
    let file_size: u64 = match e.file_size {
        Some(n) => n,
        None => 0,
    };
    let encoded_size: u64 = match e.encoded_size {
        Some(n) => n,
        None => file_size,
    };
    let cloud_prefix = match &e.cloud_prefix {
        Some(p) => if p.as_str().is_empty() {
            None
        } else {
            Some(p.clone())
        },
        None => None,
    };
    Ok(
        UploadEntry {
            file_nm,
            hash,
            ins_ts,
            hostname: text_or(e.hostname.clone(), fallback_host),
            hash_algo: text_or(e.hash_algo.clone(), "sha1"),
            encoding: text_or(e.encoding.clone(), "utf8"),
            file_size,
            encoded_size,
            destination_cloud: text_or(e.destination_cloud.clone(), "azure_kv"),
            cloud_upload_bucket: e.cloud_upload_bucket.clone(),
            cloud_prefix,
        },
    )
}

/// Builds an upload entry from the fields of a JSON entry. An entry without host name gets this
/// machine's name, or `unknown_host` when it cannot be read.
pub fn parse_entry(e: &EntryFields, entry_text: &str) -> (r: Result<UploadEntry, String>)
    ensures
        e.hostname is Some ==> entry_from(*e, entry_text@, Seq::empty(), r),
        exists|h: Seq<char>| entry_from(*e, entry_text@, h, r),
{
    let fallback = match &e.hostname {
        Some(_) => String::new(),
        None => match get_hostname() {
            Ok(h) => h,
            Err(_) => "unknown_host".to_owned(),
        },
    };
    let r = entry_from_fields(e, entry_text, fallback.as_str());
    assert(entry_from(*e, entry_text@, fallback@, r));
    r
}

/// The entries kept for this host: those whose host name is this one, or
/// that name none.
pub open spec fn kept_for_host(hostnames: Seq<Option<String>>, ours: Seq<char>, i: int) -> bool {
    match hostnames[i] {
        Some(h) => h@ == ours,
        None => true,
    }
}

/// The positions of the entries that belong to this host, in order
/// (`filter_by_hostname`).
pub fn filter_by_hostname(hostnames: &Vec<Option<String>>, our_hostname: &str) -> (r: Vec<usize>)
    ensures
        forall|k: int| 0 <= k < r.len() ==> r@[k] < hostnames.len() && kept_for_host(
            hostnames@,
            our_hostname@,
            r@[k] as int,
        ),
        forall|a: int, b: int| 0 <= a < b < r.len() ==> r@[a] < r@[b],
        forall|i: int|
            0 <= i < hostnames.len() && kept_for_host(hostnames@, our_hostname@, i) ==> r@.contains(
                i as usize,
            ),
{
    let mut r: Vec<usize> = Vec::new();
    let mut i: usize = 0;
    while i < hostnames.len()
        invariant
            i <= hostnames.len(),
            forall|k: int| 0 <= k < r.len() ==> r@[k] < i && kept_for_host(
                hostnames@,
                our_hostname@,
                r@[k] as int,
            ),
            forall|a: int, b: int| 0 <= a < b < r.len() ==> r@[a] < r@[b],
            forall|j: int|
                0 <= j < i && kept_for_host(hostnames@, our_hostname@, j) ==> r@.contains(
                    j as usize,
                ),
        decreases hostnames.len() - i,
    {
        let keep = match &hostnames[i] {
            Some(h) => str_eq(h.as_str(), our_hostname),
            None => true,
        };
        if keep {
            let ghost before = r@;
            r.push(i);
            proof {
                assert forall|j: int|
                    0 <= j < i + 1 && kept_for_host(hostnames@, our_hostname@, j) implies r@.contains(
                    j as usize,
                ) by {
                    if j < i {
                        let k = choose|k: int| 0 <= k < before.len() && before[k] == j as usize;
                        assert(r@[k] == j as usize);
                    } else {
                        assert(r@[r.len() - 1] == j as usize);
                    }
                }
            }
        } else {
            proof {
                assert forall|j: int|
                    0 <= j < i + 1 && kept_for_host(hostnames@, our_hostname@, j) implies r@.contains(
                    j as usize,
                ) by {
                    assert(j != i);
                }
            }
        }
        i += 1;
    }
    r
}

} // verus!
