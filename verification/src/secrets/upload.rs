//! Uploading secrets: which clients a run needs, where each entry goes,
//! what the upload prompt's answers mean, and the records written for
//! uploaded files.

use vstd::prelude::*;
use crate::assoc::{assoc_get, table};
use crate::secrets::models::{ov, FileDetails, UploadEntry, KEYVAULT_MAX_ENCODED_SIZE};
use crate::secrets::retrieve::SecretRecord;
use crate::secrets::storage::R2UploadResult;
use crate::text::{copy_str, join2, parse_u64, parse_u64_spec, str_eq};

verus! {

/// What routing reads of a JSON entry before it is parsed.
pub struct RouteFields {
    pub hostname: Option<String>,
    pub destination_cloud: Option<String>,
    pub encoded_size: Option<u64>,
    pub file_size: Option<u64>,
}

/// An entry goes to R2 when it asks for `r2` or `b2` or is too large for
/// Key Vault (its encoded size, else its file size, else 0).
pub open spec fn needs_object_store(f: RouteFields) -> bool {
    let dest = match f.destination_cloud {
        Some(d) => d@,
        None => "azure_kv"@,
    };
    let size: u64 = match f.encoded_size {
        Some(n) => n,
        None => match f.file_size {
            Some(n) => n,
            None => 0,
        },
    };
    dest == "r2"@ || dest == "b2"@ || size > KEYVAULT_MAX_ENCODED_SIZE
}

/// The entry belongs to this host (or names none).
pub open spec fn for_host(f: RouteFields, ours: Seq<char>) -> bool {
    match f.hostname {
        Some(h) => h@ == ours,
        None => true,
    }
}

/// Which clients an upload run needs:
/// Key Vault when an entry of this host goes there, R2 when one goes to an
/// object store.
pub fn client_needs(entries: &Vec<RouteFields>, our_hostname: &str) -> (r: (bool, bool))
    ensures
        r.0 == exists|i: int|
            0 <= i < entries.len() && for_host(entries@[i], our_hostname@) && !needs_object_store(
                #[trigger] entries@[i],
            ),
        r.1 == exists|i: int|
            0 <= i < entries.len() && for_host(entries@[i], our_hostname@) && needs_object_store(
                #[trigger] entries@[i],
            ),
{
    let mut azure = false;
    let mut r2 = false;
    let mut i: usize = 0;
    while i < entries.len()
        invariant
            i <= entries.len(),
            azure == exists|k: int|
                0 <= k < i && for_host(entries@[k], our_hostname@) && !needs_object_store(
                    #[trigger] entries@[k],
                ),
            r2 == exists|k: int|
                0 <= k < i && for_host(entries@[k], our_hostname@) && needs_object_store(
                    #[trigger] entries@[k],
                ),
        decreases entries.len() - i,
    {
        let f = &entries[i];
        let mine = match &f.hostname {
            Some(h) => str_eq(h.as_str(), our_hostname),
            None => true,
        };
        if mine {
            let store = match &f.destination_cloud {
                Some(d) => str_eq(d.as_str(), "r2") || str_eq(d.as_str(), "b2"),
                None => false,
            };
            let size: u64 = match f.encoded_size {
                Some(n) => n,
                None => match f.file_size {
                    Some(n) => n,
                    None => 0,
                },
            };
            proof {
                reveal_strlit("azure_kv");
                reveal_strlit("r2");
                reveal_strlit("b2");
                assert("azure_kv"@.len() == 8 && "r2"@.len() == 2 && "b2"@.len() == 2);
                assert("azure_kv"@ != "r2"@ && "azure_kv"@ != "b2"@);
            }
            if store || size > KEYVAULT_MAX_ENCODED_SIZE {
                r2 = true;
            } else {
                azure = true;
            }
        }
        i += 1;
    }
    (azure, r2)
}

/// Where an entry goes in an upload run.
#[derive(Clone, Copy, Debug, PartialEq, Eq, Structural)]
pub enum UploadRoute {
    /// The entry is for another host.
    OtherHost,
    /// The file is not there.
    MissingFile,
    /// An object-store entry without a bucket.
    MissingBucket,
    R2,
    /// The B2 path (uploads go to R2).
    B2,
    KeyVault,
}

/// The route of an entry:
/// skipped when it is for another host, when the file is missing, or when
/// it goes to `b2`/`r2` without a bucket; then `r2` entries to R2, large or
/// `b2` entries the B2 way, the rest to Key Vault.
pub open spec fn spec_route(e: UploadEntry, ours: Seq<char>, file_exists: bool) -> UploadRoute {
    if e.hostname@ != ours {
        UploadRoute::OtherHost
    } else if !file_exists {
        UploadRoute::MissingFile
    } else if (e.destination_cloud@ == "b2"@ || e.destination_cloud@ == "r2"@)
        && e.cloud_upload_bucket is None {
        UploadRoute::MissingBucket
    } else if e.destination_cloud@ == "r2"@ {
        UploadRoute::R2
    } else if e.encoded_size > KEYVAULT_MAX_ENCODED_SIZE || e.destination_cloud@ == "b2"@ {
        UploadRoute::B2
    } else {
        UploadRoute::KeyVault
    }
}

/// Routes an entry of an upload run.
pub fn route_entry(e: &UploadEntry, our_hostname: &str, file_exists: bool) -> (r: UploadRoute)
    ensures
        r == spec_route(*e, our_hostname@, file_exists),
{
    if !str_eq(e.hostname.as_str(), our_hostname) {
        return UploadRoute::OtherHost;
    }
    if !file_exists {
        return UploadRoute::MissingFile;
    }
    let b2 = str_eq(e.destination_cloud.as_str(), "b2");
    let r2 = str_eq(e.destination_cloud.as_str(), "r2");
    if (b2 || r2) && e.cloud_upload_bucket.is_none() {
        return UploadRoute::MissingBucket;
    }
    if r2 {
        UploadRoute::R2
    } else if e.is_too_large_for_keyvault() || b2 {
        UploadRoute::B2
    } else {
        UploadRoute::KeyVault
    }
}

/// What an existence check says for the prompt: whether the file is
/// stored, and when it was created and updated.
pub open spec fn spec_existence(check: Option<(bool, String, String)>) -> (bool, Option<Seq<char>>, Option<Seq<char>>) {
    match check {
        Some(t) => if t.0 {
            (true, Some(t.1@), Some(t.2@))
        } else {
            (false, None, None)
        },
        None => (false, None, None),
    }
}

/// Reads an existence check for the upload prompt.
pub fn existence_summary(check: Option<(bool, String, String)>) -> (r: (bool, Option<String>, Option<String>))
    ensures
        (r.0, ov(r.1), ov(r.2)) == spec_existence(check),
{
    match check {
        Some((found, created, updated)) => if found {
            (true, Some(created), Some(updated))
        } else {
            (false, None, None)
        },
        None => (false, None, None),
    }
}

/// The size the store reports in its metadata (`content_length`), when it
/// reads as a number.
pub fn stored_size(metadata: &Vec<(String, String)>) -> (r: Option<u64>)
    ensures
        r == (if table(metadata@).contains_key("content_length"@) {
            parse_u64_spec(table(metadata@)["content_length"@])
        } else {
            None
        }),
{
    match assoc_get(metadata, "content_length") {
        Some(v) => parse_u64(v.as_str()),
        None => None,
    }
}

/// What an answer to the upload prompt asks for.
#[derive(Clone, Copy, Debug, PartialEq, Eq, Structural)]
pub enum UploadChoice {
    Upload,
    Skip,
    Details,
    Help,
    Invalid,
}

/// The meaning of an answer to the upload prompt: nothing, `n`, `N` or an empty answer
/// skips, `y` or `Y` uploads, `d` shows details, `?` the help.
pub open spec fn spec_upload_choice(input: Option<Seq<char>>) -> UploadChoice {
    match input {
        None => UploadChoice::Skip,
        Some(c) => if c == "y"@ || c == "Y"@ {
            UploadChoice::Upload
        } else if c == "n"@ || c == "N"@ || c.len() == 0 {
            UploadChoice::Skip
        } else if c == "d"@ {
            UploadChoice::Details
        } else if c == "?"@ {
            UploadChoice::Help
        } else {
            UploadChoice::Invalid
        },
    }
}

/// Reads an answer to the upload prompt.
pub fn upload_choice(input: Option<&str>) -> (r: UploadChoice)
    ensures
        r == spec_upload_choice(
            match input {
                Some(c) => Some(c@),
                None => None,
            },
        ),
{
    match input {
        None => UploadChoice::Skip,
        Some(c) => {
            if str_eq(c, "y") || str_eq(c, "Y") {
                UploadChoice::Upload
            } else if str_eq(c, "n") || str_eq(c, "N") || c.is_empty() {
                UploadChoice::Skip
            } else if str_eq(c, "d") {
                UploadChoice::Details
            } else if str_eq(c, "?") {
                UploadChoice::Help
            } else {
                UploadChoice::Invalid
            }
        },
    }
}

/// What the upload prompt knows of a file and of its copy in the cloud.
pub struct UploadPromptConfig<'a> {
    pub file_path: &'a str,
    pub secret_exists: bool,
    pub cloud_created: Option<String>,
    pub cloud_updated: Option<String>,
    pub cloud_type: Option<&'a str>,
    pub cloud_file_size: Option<u64>,
    pub local_file_size: u64,
}

fn copy_opt(o: &Option<String>) -> (r: Option<String>)
    ensures
        ov(r) == ov(*o),
{
    match o {
        Some(s) => Some(copy_str(s.as_str())),
        None => None,
    }
}

/// The details the `d` answer shows: those read from the local file, with
/// the cloud dates from the prompt's configuration and, where it names one,
/// its cloud type; everything else as read.
pub fn upload_prompt_details(config: &UploadPromptConfig, local: FileDetails) -> (d: FileDetails)
    ensures
        ov(d.cloud_created) == ov(config.cloud_created),
        ov(d.cloud_updated) == ov(config.cloud_updated),
        ov(d.cloud_type) == (match config.cloud_type {
            Some(t) => Some(t@),
            None => ov(local.cloud_type),
        }),
        d.file_path == local.file_path,
        d.file_size == local.file_size,
        d.encoded_size == local.encoded_size,
        d.last_modified == local.last_modified,
        d.encoding == local.encoding,
        d.hash == local.hash,
        d.hash_algo == local.hash_algo,
        d.cloud_upload_bucket == local.cloud_upload_bucket,
        d.cloud_prefix == local.cloud_prefix,
{
    let mut d = local;
    d.cloud_created = copy_opt(&config.cloud_created);
    d.cloud_updated = copy_opt(&config.cloud_updated);
    match config.cloud_type {
        Some(t) => {
            d.cloud_type = Some(copy_str(t));
        },
        None => {},
    }
    d
}

/// The file a Key Vault upload reads: the base64 copy for base64 entries.
pub fn keyvault_upload_path(e: &UploadEntry) -> (r: String)
    ensures
        r@ == (if e.encoding@ == "base64"@ {
            e.file_nm@ + ".base64"@
        } else {
            e.file_nm@
        }),
{
    if str_eq(e.encoding.as_str(), "base64") {
        join2(e.file_nm.as_str(), ".base64")
    } else {
        e.file_nm.clone()
    }
}

/// Where an uploaded object lives in an R2 record: prefix, object hash,
/// bucket id and object name.
pub struct ObjectFields {
    pub cloud_prefix: String,
    pub r2_hash: String,
    pub r2_bucket_id: String,
    pub r2_name: String,
}

/// The record written for an uploaded file.
pub struct UploadRecord {
    pub file_nm: String,
    pub hash: String,
    pub hash_algo: String,
    pub ins_ts: String,
    pub cloud_id: String,
    pub cloud_cr_ts: String,
    pub cloud_upd_ts: String,
    pub hostname: String,
    pub encoding: String,
    pub file_size: u64,
    pub encoded_size: u64,
    pub destination_cloud: String,
    pub cloud_upload_bucket: String,
    /// Present for R2 uploads.
    pub object: Option<ObjectFields>,
}

/// The fields a record copies from its entry.
pub open spec fn copies_entry(r: UploadRecord, e: UploadEntry) -> bool {
    &&& r.file_nm@ == e.file_nm@
    &&& r.hash@ == e.hash@
    &&& r.hash_algo@ == e.hash_algo@
    &&& r.ins_ts@ == e.ins_ts@
    &&& r.hostname@ == e.hostname@
    &&& r.encoding@ == e.encoding@
    &&& r.file_size == e.file_size
    &&& r.encoded_size == e.encoded_size
    &&& r.cloud_upload_bucket@ == match e.cloud_upload_bucket {
        Some(b) => b@,
        None => Seq::empty(),
    }
}

fn opt_or_empty(o: &Option<String>) -> (r: String)
    ensures
        r@ == match *o {
            Some(s) => s@,
            None => Seq::empty(),
        },
{
    match o {
        Some(s) => s.clone(),
        None => String::new(),
    }
}

impl UploadEntry {
    /// The record of a file uploaded to R2: the
    /// object id as cloud id, no cloud times, destination `r2`, and where
    /// the object lives.
    pub fn r2_record(&self, r: &R2UploadResult) -> (o: UploadRecord)
        ensures
            copies_entry(o, *self),
            o.cloud_id@ == r.id@,
            o.cloud_cr_ts@.len() == 0,
            o.cloud_upd_ts@.len() == 0,
            o.destination_cloud@ == "r2"@,
            o.object matches Some(f) && f.cloud_prefix@ == (match self.cloud_prefix {
                Some(p) => p@,
                None => Seq::empty(),
            }) && f.r2_hash@ == r.hash@ && f.r2_bucket_id@ == r.bucket_id@ && f.r2_name@
                == r.name@,
    {
        UploadRecord {
            file_nm: self.file_nm.clone(),
            hash: self.hash.clone(),
            hash_algo: self.hash_algo.clone(),
            ins_ts: self.ins_ts.clone(),
            cloud_id: r.id.clone(),
            cloud_cr_ts: String::new(),
            cloud_upd_ts: String::new(),
            hostname: self.hostname.clone(),
            encoding: self.encoding.clone(),
            file_size: self.file_size,
            encoded_size: self.encoded_size,
            destination_cloud: "r2".to_owned(),
            cloud_upload_bucket: opt_or_empty(&self.cloud_upload_bucket),
            object: Some(
                ObjectFields {
                    cloud_prefix: opt_or_empty(&self.cloud_prefix),
                    r2_hash: r.hash.clone(),
                    r2_bucket_id: r.bucket_id.clone(),
                    r2_name: r.name.clone(),
                },
            ),
        }
    }

    /// The record of a file stored in Key Vault: the secret's id and times, the entry's
    /// destination.
    pub fn azure_record(&self, s: &SecretRecord) -> (o: UploadRecord)
        ensures
            copies_entry(o, *self),
            o.cloud_id@ == s.id@,
            o.cloud_cr_ts@ == s.created@,
            o.cloud_upd_ts@ == s.updated@,
            o.destination_cloud@ == self.destination_cloud@,
            o.object is None,
    {
        UploadRecord {
            file_nm: self.file_nm.clone(),
            hash: self.hash.clone(),
            hash_algo: self.hash_algo.clone(),
            ins_ts: self.ins_ts.clone(),
            cloud_id: s.id.clone(),
            cloud_cr_ts: s.created.clone(),
            cloud_upd_ts: s.updated.clone(),
            hostname: self.hostname.clone(),
            encoding: self.encoding.clone(),
            file_size: self.file_size,
            encoded_size: self.encoded_size,
            destination_cloud: self.destination_cloud.clone(),
            cloud_upload_bucket: opt_or_empty(&self.cloud_upload_bucket),
            object: None,
        }
    }
}

} // verus!

verus! {

/// The routing fields of a parsed entry: host, destination and encoded
/// size as the JSON entry holds them.
pub open spec fn fields_of(f: RouteFields, e: UploadEntry) -> bool {
    &&& f.hostname matches Some(h) && h@ == e.hostname@
    &&& f.destination_cloud matches Some(d) && d@ == e.destination_cloud@
    &&& f.encoded_size == Some(e.encoded_size)
}

/// The clients a run makes are the ones its entries are routed to: when an
/// entry of the run goes to R2 (or the B2 way), the run makes the R2
/// client; when it goes to Key Vault, the Key Vault client.
pub proof fn lemma_routes_have_clients(entries: Seq<RouteFields>, i: int, e: UploadEntry, ours: Seq<char>)
    requires
        0 <= i < entries.len(),
        fields_of(entries[i], e),
    ensures
        (spec_route(e, ours, true) == UploadRoute::R2 || spec_route(e, ours, true) == UploadRoute::B2)
            ==> exists|k: int|
            0 <= k < entries.len() && for_host(entries[k], ours) && needs_object_store(
                #[trigger] entries[k],
            ),
        spec_route(e, ours, true) == UploadRoute::KeyVault ==> exists|k: int|
            0 <= k < entries.len() && for_host(entries[k], ours) && !needs_object_store(
                #[trigger] entries[k],
            ),
{
    let f = entries[i];
    if spec_route(e, ours, true) == UploadRoute::R2 || spec_route(e, ours, true) == UploadRoute::B2 {
        assert(for_host(f, ours));
        assert(needs_object_store(f));
    }
    if spec_route(e, ours, true) == UploadRoute::KeyVault {
        assert(for_host(f, ours));
        assert(!needs_object_store(f));
    }
}

} // verus!
