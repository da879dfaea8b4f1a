//! S3-compatible object storage (Backblaze B2, Cloudflare R2): how a client
//! is set up, and what each request to the store carries or answers when
//! the client is a stand-in that never reaches the network.

use vstd::prelude::*;
use crate::assoc::{assoc_get, assoc_set, assoc_map, keys_unique, pair_views, table};
use crate::secrets::models::{ov, FileDetails};
use crate::text::{
    copy_str, decimal, i64_to_string, join2, join3, remove_char, signed_decimal, str_eq,
    u64_to_string, without_char,
};

verus! {

/// The kind of S3-compatible store.
#[derive(Clone, Copy, Debug, PartialEq, Eq, Structural)]
pub enum S3Provider {
    BackblazeB2,
    CloudflareR2,
}

/// What an S3-compatible client is made from.
pub struct S3Config {
    pub key_id: String,
    pub application_key: String,
    pub bucket: String,
    pub provider: S3Provider,
    /// Only R2 needs it.
    pub account_id: Option<String>,
}

/// What the store answers to an upload.
pub struct S3UploadResult {
    pub hash: String,
    pub id: String,
    pub bucket_id: String,
    pub name: String,
    pub created: String,
    pub updated: String,
}

/// The text of an optional string slice.
pub open spec fn os(o: Option<&str>) -> Option<Seq<char>> {
    match o {
        Some(s) => Some(s@),
        None => None,
    }
}

/// The bucket name that stands for "the bucket comes with each entry".
pub open spec fn placeholder_bucket() -> Seq<char> {
    "placeholder_bucket_will_be_provided_from_json"@
}

/// The date that stand-in answers carry.
pub open spec fn mock_date() -> Seq<char> {
    "2025-01-01T00:00:00Z"@
}

/// Whether `b` is the placeholder bucket name.
pub fn is_placeholder_bucket(b: &str) -> (r: bool)
    ensures
        r == (b@ == placeholder_bucket()),
{
    str_eq(b, "placeholder_bucket_will_be_provided_from_json")
}

/// A client is a stand-in when key id, key and bucket are all `dummy`.
pub open spec fn spec_is_real_client(c: S3Config) -> bool {
    !(c.key_id@ == "dummy"@ && c.application_key@ == "dummy"@ && c.bucket@ == "dummy"@)
}

/// Whether the client made from `config` talks to a live store.
pub fn is_real_client(config: &S3Config) -> (b: bool)
    ensures
        b == spec_is_real_client(*config),
{
    !(str_eq(config.key_id.as_str(), "dummy") && str_eq(config.application_key.as_str(), "dummy")
        && str_eq(config.bucket.as_str(), "dummy"))
}

/// The endpoint of the store; `None` when R2 is asked for without an
/// account id.
pub open spec fn spec_endpoint(p: S3Provider, is_real: bool, account: Option<Seq<char>>) -> Option<
    Seq<char>,
> {
    match p {
        S3Provider::BackblazeB2 => Some("https://s3.us-west-004.backblazeb2.com"@),
        S3Provider::CloudflareR2 => if !is_real {
            Some("https://mock-value.r2.cloudflarestorage.com"@)
        } else {
            match account {
                Some(a) => Some("https://"@ + a + ".r2.cloudflarestorage.com"@),
                None => None,
            }
        },
    }
}

/// The region of the store.
pub open spec fn spec_region(p: S3Provider) -> Seq<char> {
    match p {
        S3Provider::BackblazeB2 => "us-west-004"@,
        S3Provider::CloudflareR2 => "auto"@,
    }
}

/// The name under which the static credentials are registered.
pub open spec fn spec_credentials_name(p: S3Provider) -> Seq<char> {
    match p {
        S3Provider::BackblazeB2 => "B2StaticCredentials"@,
        S3Provider::CloudflareR2 => "R2StaticCredentials"@,
    }
}

/// What a client keeps besides its connection: its bucket, the kind of
/// store, whether it is live, and how much it tells.
pub struct S3ClientSettings {
    pub bucket_name: String,
    pub provider_type: S3Provider,
    pub is_real_client: bool,
    pub verbose: u32,
}

/// Everything a connection to the store is built from.
pub struct S3ClientSetup {
    pub endpoint: String,
    pub region: String,
    pub credentials_name: String,
    pub key_id: String,
    pub application_key: String,
    pub settings: S3ClientSettings,
    /// Whether the bucket has to be made sure of (created if missing)
    /// before the client is handed out.
    pub ensure_bucket: bool,
}

/// The setup that `config` yields, as a new client decides it.
pub open spec fn setup_matches(s: S3ClientSetup, config: S3Config, verbose: u32, endpoint: Seq<
    char,
>) -> bool {
    let live = spec_is_real_client(config);
    &&& s.endpoint@ == endpoint
    &&& s.region@ == spec_region(config.provider)
    &&& s.credentials_name@ == spec_credentials_name(config.provider)
    &&& s.key_id@ == config.key_id@
    &&& s.application_key@ == config.application_key@
    &&& s.settings.bucket_name@ == config.bucket@
    &&& s.settings.provider_type == config.provider
    &&& s.settings.is_real_client == live
    &&& s.settings.verbose == verbose
    &&& s.ensure_bucket == (live && config.bucket@ != placeholder_bucket())
}

/// Decides how a client for `config` is set up. It fails only when a live
/// R2 client has no account id.
pub fn plan_s3_client(config: S3Config, verbose: u32) -> (r: Result<S3ClientSetup, String>)
    ensures
        match spec_endpoint(config.provider, spec_is_real_client(config), ov(config.account_id)) {
            None => r matches Err(m) && m@ == "Account ID is required for R2 storage"@,
            Some(ep) => r matches Ok(s) && setup_matches(s, config, verbose, ep),
        },
{
    let live = is_real_client(&config);
    let endpoint = match config.provider {
        S3Provider::BackblazeB2 => "https://s3.us-west-004.backblazeb2.com".to_owned(),
        S3Provider::CloudflareR2 => {
            if !live {
                "https://mock-value.r2.cloudflarestorage.com".to_owned()
            } else {
                match &config.account_id {
                    Some(a) => join3("https://", a.as_str(), ".r2.cloudflarestorage.com"),
                    None => {
                        return Err("Account ID is required for R2 storage".to_owned());
                    },
                }
            }
        },
    };
    let (region, credentials_name) = match config.provider {
        S3Provider::BackblazeB2 => ("us-west-004".to_owned(), "B2StaticCredentials".to_owned()),
        S3Provider::CloudflareR2 => ("auto".to_owned(), "R2StaticCredentials".to_owned()),
    };
    let ensure_bucket = live && !is_placeholder_bucket(config.bucket.as_str());
    Ok(
        S3ClientSetup {
            endpoint,
            region,
            credentials_name,
            key_id: config.key_id,
            application_key: config.application_key,
            settings: S3ClientSettings {
                bucket_name: config.bucket,
                provider_type: config.provider,
                is_real_client: live,
                verbose,
            },
            ensure_bucket,
        },
    )
}

/// The key of an object: the hash, under `prefix/` when there is a prefix.
pub open spec fn spec_object_key(hash: Seq<char>, prefix: Option<Seq<char>>) -> Seq<char> {
    match prefix {
        Some(p) => p + "/"@ + hash,
        None => hash,
    }
}

/// The key under which a file with this hash is stored.
pub fn object_key(hash: &str, prefix: Option<&str>) -> (r: String)
    ensures
        r@ == spec_object_key(hash@, os(prefix)),
{
    match prefix {
        Some(p) => join3(p, "/", hash),
        None => copy_str(hash),
    }
}

/// A stand-in upload answer: hash and id the same, the stand-in date.
pub open spec fn is_mock_result(r: S3UploadResult, hash: Seq<char>, bucket: Seq<char>, name: Seq<
    char,
>) -> bool {
    &&& r.hash@ == hash
    &&& r.id@ == hash
    &&& r.bucket_id@ == bucket
    &&& r.name@ == name
    &&& r.created@ == mock_date()
    &&& r.updated@ == mock_date()
}

fn mock_result(hash: String, bucket: String, name: String) -> (r: S3UploadResult)
    ensures
        is_mock_result(r, hash@, bucket@, name@),
{
    let id = hash.clone();
    S3UploadResult {
        hash,
        id,
        bucket_id: bucket,
        name,
        created: "2025-01-01T00:00:00Z".to_owned(),
        updated: "2025-01-01T00:00:00Z".to_owned(),
    }
}

/// The current UTC time as `%Y-%m-%dT%H:%M:%SZ` (`chrono::Utc::now()`
/// formatted). Nothing is stated of it: it is read from the clock.
#[verifier::external_body]
fn utc_now_stamp() -> (r: String) {
    chrono::Utc::now().format("%Y-%m-%dT%H:%M:%SZ").to_string()
}

/// The answer to an upload that the store took: the ETag without its
/// quotes as hash and id, `bucket` and `key`, and both dates `now`.
pub fn upload_result(etag: Option<&str>, bucket: &str, key: &str, now: &str) -> (r: Result<
    S3UploadResult,
    String,
>)
    ensures
        match etag {
            None => r matches Err(e) && e@ == "No ETag in response"@,
            Some(t) => r matches Ok(u) && u.hash@ == without_char(t@, '"') && u.id@ == u.hash@
                && u.bucket_id@ == bucket@ && u.name@ == key@ && u.created@ == now@ && u.updated@
                == now@,
        },
{
    match etag {
        None => Err("No ETag in response".to_owned()),
        Some(t) => {
            let hash = remove_char(t, '"');
            let id = hash.clone();
            Ok(
                S3UploadResult {
                    hash,
                    id,
                    bucket_id: copy_str(bucket),
                    name: copy_str(key),
                    created: copy_str(now),
                    updated: copy_str(now),
                },
            )
        },
    }
}

/// The answer to an upload that the store took, dated now: as
/// `upload_result`, with both dates the same reading of the clock.
pub fn finish_upload(etag: Option<&str>, bucket: &str, key: &str) -> (r: Result<
    S3UploadResult,
    String,
>)
    ensures
        match etag {
            None => r matches Err(e) && e@ == "No ETag in response"@,
            Some(t) => r matches Ok(u) && u.hash@ == without_char(t@, '"') && u.id@ == u.hash@
                && u.bucket_id@ == bucket@ && u.name@ == key@ && u.created@ == u.updated@,
        },
{
    let now = utc_now_stamp();
    upload_result(etag, bucket, key, now.as_str())
}

} // verus!

verus! {

/// What to do for an upload of a local file.
pub enum DirectUpload {
    /// A stand-in client answers at once.
    Mock(S3UploadResult),
    /// Put the file into `bucket` under `key`.
    Send { bucket: String, key: String },
}

/// A request to put a local file into the store.
pub struct UploadRequest {
    pub bucket: String,
    pub key: String,
    pub file_path: String,
    pub metadata: Vec<(String, String)>,
    /// Whether the bucket has to be made sure of first (it came from the
    /// entry, not from the client).
    pub ensure_bucket_first: bool,
}

/// What to do for an upload described by file details.
pub enum UploadPlan {
    Mock(S3UploadResult),
    Send(UploadRequest),
}

/// The metadata stored with an uploaded file.
pub open spec fn details_metadata(d: FileDetails, bucket: Seq<char>) -> Map<Seq<char>, Seq<char>> {
    Map::empty().insert("original-path"@, d.file_path@).insert("hash"@, d.hash@).insert(
        "hash-algo"@,
        d.hash_algo@,
    ).insert("encoding"@, "binary"@).insert("original-encoding"@, d.encoding@).insert(
        "size"@,
        decimal(d.file_size as nat),
    ).insert("content-length"@, decimal(d.file_size as nat)).insert("bucket"@, bucket)
}

fn upload_metadata(d: &FileDetails, bucket: &str) -> (m: Vec<(String, String)>)
    ensures
        keys_unique(pair_views(m@)),
        table(m@) == details_metadata(*d, bucket@),
{
    let mut m: Vec<(String, String)> = Vec::new();
    assert(pair_views(m@) =~= Seq::empty());
    assoc_set(&mut m, "original-path".to_owned(), d.file_path.clone());
    assoc_set(&mut m, "hash".to_owned(), d.hash.clone());
    assoc_set(&mut m, "hash-algo".to_owned(), d.hash_algo.clone());
    assoc_set(&mut m, "encoding".to_owned(), "binary".to_owned());
    assoc_set(&mut m, "original-encoding".to_owned(), d.encoding.clone());
    assoc_set(&mut m, "size".to_owned(), u64_to_string(d.file_size));
    assoc_set(&mut m, "content-length".to_owned(), u64_to_string(d.file_size));
    assoc_set(&mut m, "bucket".to_owned(), copy_str(bucket));
    m
}

/// How a direct upload answers: a stand-in with a made-up
/// hash; a live client refuses the placeholder bucket and a missing file,
/// and otherwise sends the file to its bucket.
pub open spec fn spec_upload_file(s: S3ClientSettings, local_path: Seq<char>, object_key: Seq<
    char,
>, local_exists: bool, r: Result<DirectUpload, String>) -> bool {
    if !s.is_real_client {
        r matches Ok(DirectUpload::Mock(m)) && is_mock_result(
            m,
            "mock-hash-"@ + local_path,
            s.bucket_name@,
            object_key,
        )
    } else if s.bucket_name@ == placeholder_bucket() {
        r matches Err(e) && e@
            == "Cannot upload directly with a placeholder bucket - use upload_file_with_details instead"@
    } else if !local_exists {
        r matches Err(e) && e@ == "Local file does not exist: "@ + local_path
    } else {
        r matches Ok(DirectUpload::Send { bucket, key }) && bucket@ == s.bucket_name@ && key@
            == object_key
    }
}

/// An upload request for the file of `d` into `bucket` under `key`, with
/// the file's metadata.
pub open spec fn request_matches(q: UploadRequest, bucket: Seq<char>, first: bool, key: Seq<char>, d: FileDetails) -> bool {
    &&& q.bucket@ == bucket
    &&& q.ensure_bucket_first == first
    &&& q.key@ == key
    &&& q.file_path@ == d.file_path@
    &&& keys_unique(pair_views(q.metadata@))
    &&& table(q.metadata@) == details_metadata(d, bucket)
}

/// How an upload with details goes. The entry must
/// name a bucket. A stand-in answers with a made-up hash. A live client
/// sends the file itself under `prefix/hash` (or `hash`) with its metadata:
/// to the entry's bucket when the client has the placeholder bucket (the
/// entry's bucket must then not be empty), else to the client's bucket,
/// for which the file must exist.
pub open spec fn spec_upload_with_details(s: S3ClientSettings, d: FileDetails, local_exists: bool, r: Result<UploadPlan, String>) -> bool {
    let key = spec_object_key(d.hash@, ov(d.cloud_prefix));
    match d.cloud_upload_bucket {
        None => r matches Err(e) && e@ == "cloud_upload_bucket is required in JSON for B2/R2 storage"@,
        Some(b) => if !s.is_real_client {
            r matches Ok(UploadPlan::Mock(m)) && is_mock_result(m, "mock-hash-"@ + d.hash@, b@, key)
        } else if s.bucket_name@ == placeholder_bucket() {
            if b@.len() == 0 {
                r matches Err(e) && e@
                    == "cloud_upload_bucket must be provided in JSON when using placeholder bucket configuration"@
            } else {
                r matches Ok(UploadPlan::Send(q)) && request_matches(q, b@, true, key, d)
            }
        } else if !local_exists {
            r matches Err(e) && e@ == "Local file does not exist: "@ + d.file_path@
        } else {
            r matches Ok(UploadPlan::Send(q)) && request_matches(q, s.bucket_name@, false, key, d)
        },
    }
}

impl S3ClientSettings {
    /// Points the client at another bucket.
    pub fn set_bucket_name(&mut self, bucket: String)
        ensures
            final(self).bucket_name == bucket,
            final(self).provider_type == old(self).provider_type,
            final(self).is_real_client == old(self).is_real_client,
            final(self).verbose == old(self).verbose,
    {
        self.bucket_name = bucket;
    }

    /// The kind of store.
    pub fn provider_type(&self) -> (p: S3Provider)
        ensures
            p == self.provider_type,
    {
        self.provider_type
    }

    /// How an upload of `local_path` under `object_key` goes: a stand-in answers with a made-up
    /// hash; a live client refuses the placeholder bucket and a missing
    /// file, and otherwise sends the file to its bucket.
    pub fn plan_upload_file(&self, local_path: &str, object_key: &str, local_exists: bool) -> (r:
        Result<DirectUpload, String>)
        ensures
            spec_upload_file(*self, local_path@, object_key@, local_exists, r),
    {
        if !self.is_real_client {
            let hash = join2("mock-hash-", local_path);
            return Ok(
                DirectUpload::Mock(
                    mock_result(hash, self.bucket_name.clone(), copy_str(object_key)),
                ),
            );
        }
        if is_placeholder_bucket(self.bucket_name.as_str()) {
            return Err(
                "Cannot upload directly with a placeholder bucket - use upload_file_with_details instead".to_owned(),
            );
        }
        if !local_exists {
            return Err(join2("Local file does not exist: ", local_path));
        }
        Ok(DirectUpload::Send { bucket: self.bucket_name.clone(), key: copy_str(object_key) })
    }

    /// How an upload described by `d` goes. The entry must name a
    /// bucket. A stand-in answers with a made-up hash. A live client sends
    /// the file itself under `prefix/hash` (or `hash`) with its metadata:
    /// to the entry's bucket when the client has the placeholder bucket
    /// (which must then not be empty), else to the client's bucket, for
    /// which the file must exist.
    pub fn plan_upload_with_details(&self, d: &FileDetails, local_exists: bool) -> (r: Result<
        UploadPlan,
        String,
    >)
        ensures
            spec_upload_with_details(*self, *d, local_exists, r),
    {
        let entry_bucket = match &d.cloud_upload_bucket {
            None => {
                return Err("cloud_upload_bucket is required in JSON for B2/R2 storage".to_owned());
            },
            Some(b) => b,
        };
        let prefix: Option<&str> = match &d.cloud_prefix {
            Some(p) => Some(p.as_str()),
            None => None,
        };
        let key = object_key(d.hash.as_str(), prefix);
        if !self.is_real_client {
            let hash = join2("mock-hash-", d.hash.as_str());
            return Ok(UploadPlan::Mock(mock_result(hash, entry_bucket.clone(), key)));
        }
        let placeholder = is_placeholder_bucket(self.bucket_name.as_str());
        if placeholder {
            if entry_bucket.as_str().is_empty() {
                return Err(
                    "cloud_upload_bucket must be provided in JSON when using placeholder bucket configuration".to_owned(),
                );
            }
            let metadata = upload_metadata(d, entry_bucket.as_str());
            return Ok(
                UploadPlan::Send(
                    UploadRequest {
                        bucket: entry_bucket.clone(),
                        key,
                        file_path: d.file_path.clone(),
                        metadata,
                        ensure_bucket_first: true,
                    },
                ),
            );
        }
        if !local_exists {
            return Err(join2("Local file does not exist: ", d.file_path.as_str()));
        }
        let metadata = upload_metadata(d, self.bucket_name.as_str());
        Ok(
            UploadPlan::Send(
                UploadRequest {
                    bucket: self.bucket_name.clone(),
                    key,
                    file_path: d.file_path.clone(),
                    metadata,
                    ensure_bucket_first: false,
                },
            ),
        )
    }
}

} // verus!

verus! {

/// What the store says of an object it holds (a `HeadObject` answer), as
/// plain values; the last-modified time already in text.
pub struct HeadObject {
    pub content_type: Option<String>,
    pub content_length: Option<i64>,
    pub e_tag: Option<String>,
    pub last_modified: Option<String>,
    pub metadata: Option<Vec<(String, String)>>,
}

/// The user metadata of an answer, as a table.
pub open spec fn user_table(h: HeadObject) -> Map<Seq<char>, Seq<char>> {
    match h.metadata {
        Some(m) => table(m@),
        None => Map::empty(),
    }
}

/// The first of `size`, `content-length`, `file-size` and `filesize` that
/// the user metadata has.
pub open spec fn size_fallback(u: Map<Seq<char>, Seq<char>>) -> Option<Seq<char>> {
    if u.contains_key("size"@) {
        Some(u["size"@])
    } else if u.contains_key("content-length"@) {
        Some(u["content-length"@])
    } else if u.contains_key("file-size"@) {
        Some(u["file-size"@])
    } else if u.contains_key("filesize"@) {
        Some(u["filesize"@])
    } else {
        None
    }
}

/// The metadata that a lookup of an object reports: content type, content
/// length (with `fallback`, taken from the user metadata when the store
/// gives none), ETag, last-modified time, and then the user metadata over
/// them.
pub open spec fn spec_head_table(h: HeadObject, fallback: bool) -> Map<Seq<char>, Seq<char>> {
    let m1 = match h.content_type {
        Some(c) => Map::empty().insert("content_type"@, c@),
        None => Map::empty(),
    };
    let m2 = match h.content_length {
        Some(n) => m1.insert("content_length"@, signed_decimal(n as int)),
        None => if fallback {
            match size_fallback(user_table(h)) {
                Some(v) => m1.insert("content_length"@, v),
                None => m1,
            }
        } else {
            m1
        },
    };
    let m3 = match h.e_tag {
        Some(e) => m2.insert("etag"@, e@),
        None => m2,
    };
    let m4 = match h.last_modified {
        Some(l) => m3.insert("last_modified"@, l@),
        None => m3,
    };
    m4.union_prefer_right(user_table(h))
}

fn first_size<'a>(u: &'a Vec<(String, String)>) -> (r: Option<&'a String>)
    ensures
        os_string(r) == size_fallback(table(u@)),
{
    if let Some(v) = assoc_get(u, "size") {
        return Some(v);
    }
    if let Some(v) = assoc_get(u, "content-length") {
        return Some(v);
    }
    if let Some(v) = assoc_get(u, "file-size") {
        return Some(v);
    }
    assoc_get(u, "filesize")
}

/// The text of an optional string reference.
pub open spec fn os_string(o: Option<&String>) -> Option<Seq<char>> {
    match o {
        Some(s) => Some(s@),
        None => None,
    }
}

fn head_table(h: &HeadObject, fallback: bool) -> (r: Vec<(String, String)>)
    ensures
        keys_unique(pair_views(r@)),
        table(r@) == spec_head_table(*h, fallback),
{
    let mut r: Vec<(String, String)> = Vec::new();
    assert(pair_views(r@) =~= Seq::empty());
    if let Some(c) = &h.content_type {
        assoc_set(&mut r, "content_type".to_owned(), c.clone());
    }
    match h.content_length {
        Some(n) => {
            assoc_set(&mut r, "content_length".to_owned(), i64_to_string(n));
        },
        None => {
            if fallback {
                if let Some(u) = &h.metadata {
                    if let Some(v) = first_size(u) {
                        assoc_set(&mut r, "content_length".to_owned(), v.clone());
                    }
                } else {
                    assert(size_fallback(Map::empty()) is None);
                }
            }
        },
    }
    if let Some(e) = &h.e_tag {
        assoc_set(&mut r, "etag".to_owned(), e.clone());
    }
    if let Some(l) = &h.last_modified {
        assoc_set(&mut r, "last_modified".to_owned(), l.clone());
    }
    let ghost base = table(r@);
    assert(base.union_prefer_right(assoc_map(Seq::empty())) =~= base);
    if let Some(u) = &h.metadata {
        let ghost us = pair_views(u@);
        let mut i: usize = 0;
        assert(us.take(0) =~= Seq::empty());
        while i < u.len()
            invariant
                i <= u.len(),
                us == pair_views(u@),
                keys_unique(pair_views(r@)),
                table(r@) == base.union_prefer_right(assoc_map(us.take(i as int))),
            decreases u.len() - i,
        {
            let ghost before = table(r@);
            assoc_set(&mut r, u[i].0.clone(), u[i].1.clone());
            proof {
                assert(us.take(i + 1).drop_last() =~= us.take(i as int));
                assert(us.take(i + 1).last() == us[i as int]);
                assert(table(r@) =~= base.union_prefer_right(assoc_map(us.take(i + 1))));
            }
            i += 1;
        }
        assert(us.take(u.len() as int) =~= us);
    } else {
        assert(user_table(*h) =~= Map::empty());
    }
    assert(table(r@) =~= spec_head_table(*h, fallback));
    r
}

/// The metadata of an object of an S3-compatible store: with the size taken from the
/// user metadata when the store gives no content length.
pub fn s3_head_metadata(h: &HeadObject) -> (r: Vec<(String, String)>)
    ensures
        keys_unique(pair_views(r@)),
        table(r@) == spec_head_table(*h, true),
{
    head_table(h, true)
}

/// The metadata of an object of the B2 store:
/// no size is looked for in the user metadata.
pub fn b2_head_metadata(h: &HeadObject) -> (r: Vec<(String, String)>)
    ensures
        keys_unique(pair_views(r@)),
        table(r@) == spec_head_table(*h, false),
{
    head_table(h, false)
}

} // verus!

verus! {

/// What to do to learn whether an object is stored.
pub enum ExistsPlan {
    /// The answer is known without asking the store.
    Known(Option<(bool, String, String)>),
    /// Ask the store for `key` in `bucket`.
    Ask { bucket: String, key: String },
}

/// The stand-in answer to an existence check: found, with the stand-in
/// date as created and updated.
pub open spec fn is_mock_found(a: Option<(bool, String, String)>) -> bool {
    a matches Some(t) && t.0 && t.1@ == mock_date() && t.2@ == mock_date()
}

fn mock_found() -> (a: Option<(bool, String, String)>)
    ensures
        is_mock_found(a),
{
    Some((true, "2025-01-01T00:00:00Z".to_owned(), "2025-01-01T00:00:00Z".to_owned()))
}

/// How an existence check with details goes: a stand-in
/// says found; otherwise the key is `prefix/hash` (or `hash`) in the given
/// bucket, or in the client's bucket, which must then not be the
/// placeholder (the answer is then unknown).
pub open spec fn spec_exists_plan(s: S3ClientSettings, hash: Seq<char>, bucket: Option<Seq<char>>, prefix: Option<Seq<char>>, r: ExistsPlan) -> bool {
    let key = spec_object_key(hash, prefix);
    if !s.is_real_client {
        r matches ExistsPlan::Known(a) && is_mock_found(a)
    } else {
        match bucket {
            Some(b) => r matches ExistsPlan::Ask { bucket: rb, key: rk } && rb@ == b && rk@ == key,
            None => if s.bucket_name@ == placeholder_bucket() {
                r matches ExistsPlan::Known(a) && a is None
            } else {
                r matches ExistsPlan::Ask { bucket: rb, key: rk } && rb@ == s.bucket_name@ && rk@
                    == key
            },
        }
    }
}

/// The time an existence answer carries: none when not found, else the
/// last-modified time or `Unknown`.
pub open spec fn answer_time(found: bool, last_modified: Option<Seq<char>>) -> Seq<char> {
    if !found {
        Seq::empty()
    } else {
        match last_modified {
            Some(l) => l,
            None => "Unknown"@,
        }
    }
}

/// What the store's answer to an existence check means: not found gives
/// `(false, "", "")`; found gives the last-modified time (or `Unknown`) as
/// both created and updated time.
pub fn exists_answer(found: bool, last_modified: Option<&str>) -> (r: Option<(bool, String, String)>)
    ensures
        r matches Some(t) && t.0 == found && t.1@ == answer_time(found, os(last_modified)) && t.2@
            == answer_time(found, os(last_modified)),
{
    if !found {
        return Some((false, String::new(), String::new()));
    }
    let lm = match last_modified {
        Some(l) => copy_str(l),
        None => "Unknown".to_owned(),
    };
    let lm2 = lm.clone();
    Some((true, lm, lm2))
}

/// The object names a stand-in client lists under `prefix`.
pub fn mock_object_list(prefix: &str) -> (r: Vec<String>)
    ensures
        r.len() == 2,
        r@[0]@ == prefix@ + "mock_file1.txt"@,
        r@[1]@ == prefix@ + "mock_file2.txt"@,
{
    let mut r = Vec::new();
    r.push(join2(prefix, "mock_file1.txt"));
    r.push(join2(prefix, "mock_file2.txt"));
    r
}

impl S3ClientSettings {
    /// How an existence check of the object with this hash goes.
    pub fn plan_exists_check(&self, hash: &str, bucket_name: Option<&str>, prefix: Option<&str>) -> (r: ExistsPlan)
        ensures
            spec_exists_plan(*self, hash@, os(bucket_name), os(prefix), r),
    {
        let key = object_key(hash, prefix);
        if !self.is_real_client {
            return ExistsPlan::Known(mock_found());
        }
        match bucket_name {
            Some(b) => ExistsPlan::Ask { bucket: copy_str(b), key },
            None => {
                if is_placeholder_bucket(self.bucket_name.as_str()) {
                    ExistsPlan::Known(None)
                } else {
                    ExistsPlan::Ask { bucket: self.bucket_name.clone(), key }
                }
            },
        }
    }
}

} // verus!

verus! {

/// What an R2 client is made from.
pub struct R2Config {
    pub key_id: String,
    pub application_key: String,
    pub bucket: String,
    pub account_id: String,
}

/// What the R2 store answers to an upload.
pub struct R2UploadResult {
    pub hash: String,
    pub id: String,
    pub bucket_id: String,
    pub name: String,
}

/// What a B2 client is made from.
pub struct B2Config {
    pub key_id: String,
    pub application_key: String,
    pub bucket: String,
}

/// What the B2 store answers to an upload.
pub struct B2UploadResult {
    pub hash: String,
    pub id: String,
    pub bucket_id: String,
    pub name: String,
}

impl R2Config {
    /// The S3-compatible configuration of an R2 client: Cloudflare R2 with the account id.
    pub fn to_s3_config(self) -> (c: S3Config)
        ensures
            c.key_id@ == self.key_id@,
            c.application_key@ == self.application_key@,
            c.bucket@ == self.bucket@,
            c.provider == S3Provider::CloudflareR2,
            ov(c.account_id) == Some(self.account_id@),
    {
        S3Config {
            key_id: self.key_id,
            application_key: self.application_key,
            bucket: self.bucket,
            provider: S3Provider::CloudflareR2,
            account_id: Some(self.account_id),
        }
    }
}

impl R2UploadResult {
    /// The R2 answer that an S3-compatible answer gives: the same hash, id,
    /// bucket and name.
    pub fn from_s3(r: S3UploadResult) -> (u: Self)
        ensures
            u.hash@ == r.hash@,
            u.id@ == r.id@,
            u.bucket_id@ == r.bucket_id@,
            u.name@ == r.name@,
    {
        R2UploadResult { hash: r.hash, id: r.id, bucket_id: r.bucket_id, name: r.name }
    }
}

/// Where a credential comes from: a file that holds it, or the value given.
pub enum ValueSource {
    File(String),
    Given(String),
}

/// The source, as a flag (from a file?) and a text (path or value).
pub open spec fn source_view(v: ValueSource) -> (bool, Seq<char>) {
    match v {
        ValueSource::File(p) => (true, p@),
        ValueSource::Given(s) => (false, s@),
    }
}

/// Which credentials a client is made with: the two keys and the bucket
/// (a name, or a file holding it), or why there are none.
pub enum CredentialsPlan {
    Missing(String),
    Use { key_id: ValueSource, key: ValueSource, bucket_path: Result<String, String> },
}

/// The credentials that files or given values provide: files first, then
/// given values; the bucket must be given.
pub open spec fn spec_credentials(key_id_file: Option<Seq<char>>, key_file: Option<Seq<char>>, key_id: Option<Seq<char>>, key: Option<Seq<char>>, bucket: Option<Seq<char>>, missing: Seq<char>, no_bucket: Seq<char>, r: CredentialsPlan) -> bool {
    let bucket_ok = |rb: Result<String, String>| match bucket {
        Some(b) => rb matches Ok(x) && x@ == b,
        None => rb matches Err(e) && e@ == no_bucket,
    };
    if key_id_file is Some && key_file is Some {
        r matches CredentialsPlan::Use { key_id: a, key: b, bucket_path: p } && source_view(a) == (
        true, key_id_file.unwrap()) && source_view(b) == (true, key_file.unwrap()) && bucket_ok(p)
    } else if key_id is Some && key is Some {
        r matches CredentialsPlan::Use { key_id: a, key: b, bucket_path: p } && source_view(a) == (
        false, key_id.unwrap()) && source_view(b) == (false, key.unwrap()) && bucket_ok(p)
    } else {
        r matches CredentialsPlan::Missing(m) && m@ == missing
    }
}

fn plan_credentials(key_id_file: Option<&str>, key_file: Option<&str>, key_id: Option<&str>, key: Option<&str>, bucket: Option<&str>, missing: &str, no_bucket: &str) -> (r: CredentialsPlan)
    ensures
        spec_credentials(os(key_id_file), os(key_file), os(key_id), os(key), os(bucket), missing@, no_bucket@, r),
{
    let bucket_path = match bucket {
        Some(b) => Ok(copy_str(b)),
        None => Err(copy_str(no_bucket)),
    };
    if let (Some(a), Some(b)) = (key_id_file, key_file) {
        return CredentialsPlan::Use {
            key_id: ValueSource::File(copy_str(a)),
            key: ValueSource::File(copy_str(b)),
            bucket_path,
        };
    }
    if let (Some(a), Some(b)) = (key_id, key) {
        return CredentialsPlan::Use {
            key_id: ValueSource::Given(copy_str(a)),
            key: ValueSource::Given(copy_str(b)),
            bucket_path,
        };
    }
    CredentialsPlan::Missing(copy_str(missing))
}

/// Where an R2 client's account id and credentials come from.
pub struct R2ArgsPlan {
    pub account_id: ValueSource,
    pub credentials: CredentialsPlan,
}

/// Decides where the R2 account id, keys and bucket come from: the account
/// id from its file, else as given, else the client cannot be made; the
/// keys from their files, else as given.
pub fn plan_r2_from_args(
    account_id_filepath: Option<&str>,
    account_id: Option<&str>,
    key_id_filepath: Option<&str>,
    key_filepath: Option<&str>,
    key_id: Option<&str>,
    key: Option<&str>,
    bucket_for_upload: Option<&str>,
) -> (r: Result<R2ArgsPlan, String>)
    ensures
        account_id_filepath is None && account_id is None ==> (r matches Err(e) && e@
            == "R2 account ID is required"@),
        account_id_filepath matches Some(f) ==> (r matches Ok(p) && source_view(p.account_id)
            == (true, f@)),
        account_id_filepath is None && account_id is Some ==> (r matches Ok(p)
            && source_view(p.account_id) == (false, account_id.unwrap()@)),
        r matches Ok(p) ==> spec_credentials(
            os(key_id_filepath),
            os(key_filepath),
            os(key_id),
            os(key),
            os(bucket_for_upload),
            "R2 credentials are required (either via files or direct parameters)"@,
            "R2 bucket name is required"@,
            p.credentials,
        ),
{
    let account = match (account_id_filepath, account_id) {
        (Some(f), _) => ValueSource::File(copy_str(f)),
        (None, Some(a)) => ValueSource::Given(copy_str(a)),
        (None, None) => {
            return Err("R2 account ID is required".to_owned());
        },
    };
    let credentials = plan_credentials(
        key_id_filepath,
        key_filepath,
        key_id,
        key,
        bucket_for_upload,
        "R2 credentials are required (either via files or direct parameters)",
        "R2 bucket name is required",
    );
    Ok(R2ArgsPlan { account_id: account, credentials })
}

/// Decides where the B2 keys and bucket come from:
/// the account id and key files, else the given key id and key.
pub fn plan_b2_from_args(
    account_id_filepath: Option<&str>,
    account_key_filepath: Option<&str>,
    key_id: Option<&str>,
    application_key: Option<&str>,
    bucket_for_upload: Option<&str>,
) -> (r: CredentialsPlan)
    ensures
        spec_credentials(
            os(account_id_filepath),
            os(account_key_filepath),
            os(key_id),
            os(application_key),
            os(bucket_for_upload),
            "Either B2 account ID and key files or direct credentials are required"@,
            "B2 bucket name is required"@,
            r,
        ),
{
    plan_credentials(
        account_id_filepath,
        account_key_filepath,
        key_id,
        application_key,
        bucket_for_upload,
        "Either B2 account ID and key files or direct credentials are required",
        "B2 bucket name is required",
    )
}

/// The value a credential file holds: its text without surrounding
/// whitespace.
pub fn file_value(text: &str) -> (r: String)
    ensures
        r@ == crate::text::trim(text@),
{
    let v = crate::text::chars_of(text);
    crate::text::string_from_chars(&crate::text::trim_chars(&v))
}

/// What reading a file gave: its text, or the message of the error that
/// opening it or reading it gave.
pub enum FileText {
    Text(String),
    OpenFailed(String),
    ReadFailed(String),
}

/// The value a file holds, trimmed, or why it could not be read.
pub open spec fn spec_read_value(read: FileText) -> Result<Seq<char>, Seq<char>> {
    match read {
        FileText::Text(t) => Ok(crate::text::trim(t@)),
        FileText::OpenFailed(e) => Err("Failed to open file: "@ + e@),
        FileText::ReadFailed(e) => Err("Failed to read file: "@ + e@),
    }
}

/// The value read from a file (`read_value_from_file`): its text without
/// surrounding whitespace, or the error of opening or reading it.
pub fn read_value_from_file(read: FileText) -> (r: Result<String, String>)
    ensures
        match (r, spec_read_value(read)) {
            (Ok(a), Ok(b)) => a@ == b,
            (Err(a), Err(b)) => a@ == b,
            _ => false,
        },
{
    match read {
        FileText::Text(t) => Ok(file_value(t.as_str())),
        FileText::OpenFailed(e) => Err(join2("Failed to open file: ", e.as_str())),
        FileText::ReadFailed(e) => Err(join2("Failed to read file: ", e.as_str())),
    }
}

/// The bucket name that `bucket_path` stands for: when something exists at
/// that path (`file` is what reading it gave), the value it holds, or the
/// error of reading it; else the text itself.
pub fn get_bucket_name(bucket_path: &str, file: Option<FileText>) -> (r: Result<String, String>)
    ensures
        match file {
            Some(read) => match (r, spec_read_value(read)) {
                (Ok(a), Ok(b)) => a@ == b,
                (Err(a), Err(b)) => a@ == b,
                _ => false,
            },
            None => r matches Ok(a) && a@ == bucket_path@,
        },
{
    match file {
        Some(read) => read_value_from_file(read),
        None => Ok(copy_str(bucket_path)),
    }
}

} // verus!

verus! {

/// What to do for an upload through an R2 client.
pub enum R2UploadPlan {
    /// A stand-in client answers at once.
    Done(R2UploadResult),
    /// The S3-compatible client goes on as planned.
    Client(UploadPlan),
}

/// The stand-in answer of a default client to an upload of the file with
/// this hash.
pub open spec fn is_default_mock(hash: Seq<char>, rh: Seq<char>, rid: Seq<char>, rb: Seq<char>, rn: Seq<char>) -> bool {
    &&& rh == "mock-hash-"@ + hash
    &&& rid == "mock-id-"@ + hash
    &&& rb == "mock-bucket"@
    &&& rn == "secrets/"@ + hash
}

/// The R2 client that uploads go through, or a stand-in for it.
pub struct DefaultR2StorageClient {
    pub client: S3ClientSettings,
    pub is_real_client: bool,
}

/// The configuration a stand-in R2 client is made from: `dummy` throughout.
pub fn dummy_r2_config() -> (c: R2Config)
    ensures
        c.key_id@ == "dummy"@,
        c.application_key@ == "dummy"@,
        c.bucket@ == "dummy"@,
        c.account_id@ == "dummy"@,
{
    R2Config {
        key_id: "dummy".to_owned(),
        application_key: "dummy".to_owned(),
        bucket: "dummy".to_owned(),
        account_id: "dummy".to_owned(),
    }
}

impl DefaultR2StorageClient {
    /// A default client around a live R2 client.
    pub fn new(client: S3ClientSettings) -> (d: Self)
        ensures
            d.client == client,
            d.is_real_client,
    {
        DefaultR2StorageClient { client, is_real_client: true }
    }

    /// A stand-in: the client that the `dummy` configuration gives, which
    /// never reaches the store.
    pub fn new_dummy() -> (d: Self)
        ensures
            !d.is_real_client,
            !d.client.is_real_client,
            d.client.bucket_name@ == "dummy"@,
            d.client.provider_type == S3Provider::CloudflareR2,
    {
        let config = dummy_r2_config().to_s3_config();
        match plan_s3_client(config, 0) {
            Ok(setup) => DefaultR2StorageClient { client: setup.settings, is_real_client: false },
            Err(_) => {
                proof {
                    assert(!spec_is_real_client(config));
                }
                DefaultR2StorageClient {
                    client: S3ClientSettings {
                        bucket_name: "dummy".to_owned(),
                        provider_type: S3Provider::CloudflareR2,
                        is_real_client: false,
                        verbose: 0,
                    },
                    is_real_client: false,
                }
            },
        }
    }

    /// How an upload of `d` goes: a stand-in answers with made-up names;
    /// a live client goes on as `plan_upload_with_details` says.
    pub fn plan_upload(&self, d: &FileDetails, local_exists: bool) -> (r: Result<R2UploadPlan, String>)
        ensures
            !self.is_real_client ==> (r matches Ok(R2UploadPlan::Done(u)) && is_default_mock(
                d.hash@,
                u.hash@,
                u.id@,
                u.bucket_id@,
                u.name@,
            )),
            self.is_real_client ==> match r {
                Ok(R2UploadPlan::Client(p)) => spec_upload_with_details(self.client, *d, local_exists, Ok(p)),
                Ok(R2UploadPlan::Done(_)) => false,
                Err(e) => spec_upload_with_details(self.client, *d, local_exists, Err(e)),
            },
    {
        if !self.is_real_client {
            return Ok(
                R2UploadPlan::Done(
                    R2UploadResult {
                        hash: join2("mock-hash-", d.hash.as_str()),
                        id: join2("mock-id-", d.hash.as_str()),
                        bucket_id: "mock-bucket".to_owned(),
                        name: join2("secrets/", d.hash.as_str()),
                    },
                ),
            );
        }
        match self.client.plan_upload_with_details(d, local_exists) {
            Ok(p) => Ok(R2UploadPlan::Client(p)),
            Err(e) => Err(e),
        }
    }

    /// How an existence check of the file with this hash goes: a stand-in
    /// says found; a live client checks under the hash, without prefix.
    pub fn plan_exists(&self, hash: &str, bucket_name: Option<String>) -> (r: ExistsPlan)
        ensures
            !self.is_real_client ==> (r matches ExistsPlan::Known(a) && is_mock_found(a)),
            self.is_real_client ==> spec_exists_plan(self.client, hash@, ov(bucket_name), None, r),
    {
        if !self.is_real_client {
            return ExistsPlan::Known(mock_found());
        }
        let b: Option<&str> = match &bucket_name {
            Some(s) => Some(s.as_str()),
            None => None,
        };
        self.client.plan_exists_check(hash, b, None)
    }
}

/// The file that a B2 upload sends: the base64 copy for base64 entries.
pub open spec fn b2_upload_path(d: FileDetails) -> Seq<char> {
    if d.encoding@ == "base64"@ {
        d.file_path@ + ".base64"@
    } else {
        d.file_path@
    }
}

/// The file a B2 upload sends: the base64 copy for base64 files.
pub fn b2_upload_file(d: &FileDetails) -> (r: String)
    ensures
        r@ == b2_upload_path(*d),
{
    if str_eq(d.encoding.as_str(), "base64") {
        join2(d.file_path.as_str(), ".base64")
    } else {
        d.file_path.clone()
    }
}

/// The key of a B2 upload: `bucket/secrets/hash` when the entry names a
/// bucket, else `secrets/hash`.
pub open spec fn b2_upload_key(d: FileDetails) -> Seq<char> {
    match d.cloud_upload_bucket {
        Some(b) => if b@.len() > 0 {
            b@ + "/secrets"@ + "/"@ + d.hash@
        } else {
            "secrets"@ + "/"@ + d.hash@
        },
        None => "secrets"@ + "/"@ + d.hash@,
    }
}

/// The metadata of a B2 upload.
pub open spec fn b2_metadata(d: FileDetails) -> Map<Seq<char>, Seq<char>> {
    let m = Map::empty().insert("original-path"@, d.file_path@).insert("hash"@, d.hash@).insert(
        "hash-algo"@,
        d.hash_algo@,
    ).insert("encoding"@, d.encoding@).insert("size"@, decimal(d.file_size as nat));
    match d.cloud_upload_bucket {
        Some(b) => m.insert("bucket"@, b@),
        None => m,
    }
}

/// What to do for an upload through a B2 client.
pub enum B2UploadPlan {
    Done(B2UploadResult),
    Send(UploadRequest),
}

/// The B2 client that uploads go through (its bucket), or a stand-in.
pub struct DefaultB2StorageClient {
    pub bucket_name: String,
    pub is_real_client: bool,
}

impl DefaultB2StorageClient {
    /// A default client around a live B2 client of this bucket.
    pub fn new(bucket_name: String) -> (d: Self)
        ensures
            d.bucket_name == bucket_name,
            d.is_real_client,
    {
        DefaultB2StorageClient { bucket_name, is_real_client: true }
    }

    /// A stand-in, made from the `dummy` configuration.
    pub fn new_dummy() -> (d: Self)
        ensures
            d.bucket_name@ == "dummy"@,
            !d.is_real_client,
    {
        DefaultB2StorageClient { bucket_name: "dummy".to_owned(), is_real_client: false }
    }

    /// How an upload of `d` goes: a stand-in answers with made-up names; a
    /// live client sends the file (or
    /// its base64 copy, which must exist) to its bucket under
    /// `[bucket/]secrets/hash`.
    pub fn plan_upload(&self, d: &FileDetails, upload_path_exists: bool) -> (r: Result<B2UploadPlan, String>)
        ensures
            !self.is_real_client ==> (r matches Ok(B2UploadPlan::Done(u)) && is_default_mock(
                d.hash@,
                u.hash@,
                u.id@,
                u.bucket_id@,
                u.name@,
            )),
            self.is_real_client && !upload_path_exists ==> (r matches Err(e) && e@
                == "Local file does not exist: "@ + b2_upload_path(*d)),
            self.is_real_client && upload_path_exists ==> (r matches Ok(B2UploadPlan::Send(q))
                && q.bucket@ == self.bucket_name@ && !q.ensure_bucket_first && q.key@
                == b2_upload_key(*d) && q.file_path@ == b2_upload_path(*d) && keys_unique(
                pair_views(q.metadata@),
            ) && table(q.metadata@) == b2_metadata(*d)),
    {
        if !self.is_real_client {
            return Ok(
                B2UploadPlan::Done(
                    B2UploadResult {
                        hash: join2("mock-hash-", d.hash.as_str()),
                        id: join2("mock-id-", d.hash.as_str()),
                        bucket_id: "mock-bucket".to_owned(),
                        name: join2("secrets/", d.hash.as_str()),
                    },
                ),
            );
        }
        let path = b2_upload_file(d);
        let mut metadata: Vec<(String, String)> = Vec::new();
        assert(pair_views(metadata@) =~= Seq::empty());
        assoc_set(&mut metadata, "original-path".to_owned(), d.file_path.clone());
        assoc_set(&mut metadata, "hash".to_owned(), d.hash.clone());
        assoc_set(&mut metadata, "hash-algo".to_owned(), d.hash_algo.clone());
        assoc_set(&mut metadata, "encoding".to_owned(), d.encoding.clone());
        assoc_set(&mut metadata, "size".to_owned(), u64_to_string(d.file_size));
        if let Some(b) = &d.cloud_upload_bucket {
            assoc_set(&mut metadata, "bucket".to_owned(), b.clone());
        }
        let prefix = match &d.cloud_upload_bucket {
            Some(b) => if !b.as_str().is_empty() {
                join2(b.as_str(), "/secrets")
            } else {
                "secrets".to_owned()
            },
            None => "secrets".to_owned(),
        };
        let key = join3(prefix.as_str(), "/", d.hash.as_str());
        if !upload_path_exists {
            return Err(join2("Local file does not exist: ", path.as_str()));
        }
        Ok(
            B2UploadPlan::Send(
                UploadRequest {
                    bucket: self.bucket_name.clone(),
                    key,
                    file_path: path,
                    metadata,
                    ensure_bucket_first: false,
                },
            ),
        )
    }

    /// How an existence check goes: a stand-in says found; a live client
    /// asks for the hash in the given bucket or its own.
    pub fn plan_exists(&self, hash: &str, bucket_name: Option<String>) -> (r: ExistsPlan)
        ensures
            !self.is_real_client ==> (r matches ExistsPlan::Known(a) && is_mock_found(a)),
            self.is_real_client ==> (r matches ExistsPlan::Ask { bucket: b, key: k } && k@ == hash@
                && b@ == match bucket_name {
                Some(x) => x@,
                None => self.bucket_name@,
            }),
    {
        if !self.is_real_client {
            return ExistsPlan::Known(mock_found());
        }
        let bucket = match bucket_name {
            Some(b) => b,
            None => self.bucket_name.clone(),
        };
        ExistsPlan::Ask { bucket, key: copy_str(hash) }
    }
}

} // verus!
