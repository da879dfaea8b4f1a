//! Records of secret files and the rules that apply to them.

use vstd::prelude::*;
use crate::text::{chars_of, concat_all, concat_strs, str_eq, string_from_chars};

verus! {

/// Largest encoded size, in bytes, that Azure Key Vault takes.
pub const KEYVAULT_MAX_ENCODED_SIZE: u64 = 24000;

/// Reads the host name of this machine (`hostname::get`). `Err` carries the
/// message of the I/O error, `Ok(None)` a name that is not UTF-8. Nothing is
/// stated of the result: it depends on the machine.
#[verifier::external_body]
fn hostname_get() -> (r: Result<Option<String>, String>) {
    match hostname::get() {
        Ok(name) => Ok(name.into_string().ok()),
        Err(e) => Err(e.to_string()),
    }
}

/// The current time in RFC 3339 form (`chrono::Utc::now().to_rfc3339()`).
/// Nothing is stated of the result: it depends on the clock.
#[verifier::external_body]
fn now_rfc3339() -> (r: String) {
    chrono::Utc::now().to_rfc3339()
}

/// What a host-name lookup gives: the name when it was read and is UTF-8,
/// else the error's message.
pub open spec fn spec_hostname_result(r: Result<Option<String>, String>) -> Result<Seq<char>, Seq<char>> {
    match r {
        Ok(Some(n)) => Ok(n@),
        Ok(None) => Err("Hostname contains non-UTF8 characters"@),
        Err(e) => Err("Failed to get hostname: "@ + e@),
    }
}

/// Reads the answer of a host-name lookup: `Err` carries the lookup's
/// error, `Ok(None)` a name that is not UTF-8.
pub fn hostname_result(r: Result<Option<String>, String>) -> (out: Result<String, String>)
    ensures
        match (out, spec_hostname_result(r)) {
            (Ok(a), Ok(b)) => a@ == b,
            (Err(a), Err(b)) => a@ == b,
            _ => false,
        },
{
    match r {
        Ok(Some(name)) => Ok(name),
        Ok(None) => Err("Hostname contains non-UTF8 characters".to_owned()),
        Err(e) => {
            let parts = ["Failed to get hostname: ", e.as_str()];
            let m = concat_strs(&parts);
            proof {
                reveal_with_fuel(concat_all, 3);
                assert(parts@.map_values(|p: &str| p@) =~= seq!["Failed to get hostname: "@, e@]);
                assert(m@ == "Failed to get hostname: "@ + e@);
            }
            Err(m)
        },
    }
}

/// The host name an entry records for a lookup: the name when it was read
/// and is UTF-8, else `unknown_host`.
pub open spec fn spec_host_or_unknown(r: Result<Option<String>, String>) -> Seq<char> {
    match r {
        Ok(Some(n)) => n@,
        _ => "unknown_host"@,
    }
}

/// The host name, or `unknown_host` when it could not be read.
pub fn host_or_unknown(r: Result<String, String>) -> (h: String)
    ensures
        h@ == match r {
            Ok(n) => n@,
            Err(_) => "unknown_host"@,
        },
{
    match r {
        Ok(n) => n,
        Err(_) => "unknown_host".to_owned(),
    }
}

/// The host name of this machine, or why it could not be read: what
/// `hostname_result` makes of the lookup.
pub fn get_hostname() -> (r: Result<String, String>)
    ensures
        r matches Err(m) ==> (m@ == "Hostname contains non-UTF8 characters"@ || exists|e: Seq<
            char,
        >| m@ == "Failed to get hostname: "@ + e),
{
    hostname_result(hostname_get())
}

/// Default hash algorithm of an upload entry.
pub fn default_hash_algo() -> (r: String)
    ensures
        r@ == "sha1"@,
{
    "sha1".to_owned()
}

/// Default encoding of an upload entry.
pub fn default_utf8() -> (r: String)
    ensures
        r@ == "utf8"@,
{
    "utf8".to_owned()
}

/// Default destination of an upload entry.
pub fn default_azure_kv() -> (r: String)
    ensures
        r@ == "azure_kv"@,
{
    "azure_kv".to_owned()
}

/// Default encoding of an output record.
pub fn default_encoding() -> (r: String)
    ensures
        r@ == "utf8"@,
{
    "utf8".to_owned()
}

/// Default hash algorithm of an output record.
pub fn default_hash_algo_output() -> (r: String)
    ensures
        r@ == "sha1"@,
{
    "sha1".to_owned()
}

/// Default destination of an output record.
pub fn default_azure_kv_output() -> (r: String)
    ensures
        r@ == "azure_kv"@,
{
    "azure_kv".to_owned()
}

/// A file to upload, as an entry of the upload JSON file lists it.
pub struct UploadEntry {
    pub file_nm: String,
    pub hash: String,
    pub ins_ts: String,
    pub hostname: String,
    pub hash_algo: String,
    pub encoding: String,
    pub file_size: u64,
    pub encoded_size: u64,
    pub destination_cloud: String,
    pub cloud_upload_bucket: Option<String>,
    pub cloud_prefix: Option<String>,
}

/// What is known of a file that is uploaded.
pub struct FileDetails {
    pub file_path: String,
    pub file_size: u64,
    pub encoded_size: u64,
    pub last_modified: String,
    pub encoding: String,
    pub cloud_created: Option<String>,
    pub cloud_updated: Option<String>,
    pub cloud_type: Option<String>,
    pub hash: String,
    pub hash_algo: String,
    pub cloud_upload_bucket: Option<String>,
    pub cloud_prefix: Option<String>,
}

/// The text of an optional string.
pub open spec fn ov(o: Option<String>) -> Option<Seq<char>> {
    match o {
        Some(s) => Some(s@),
        None => None,
    }
}

fn clone_opt(o: &Option<String>) -> (r: Option<String>)
    ensures
        ov(r) == ov(*o),
{
    match o {
        Some(s) => Some(s.clone()),
        None => None,
    }
}

impl UploadEntry {
    /// An entry with the given fields and the defaults: `sha1`, `utf8`,
    /// sizes 0, destination `azure_kv`, no bucket or prefix.
    pub fn new_with(file_path: &str, hash: &str, hostname: String, ins_ts: String) -> (e: Self)
        ensures
            e.file_nm@ == file_path@,
            e.hash@ == hash@,
            e.hostname == hostname,
            e.ins_ts == ins_ts,
            e.hash_algo@ == "sha1"@,
            e.encoding@ == "utf8"@,
            e.file_size == 0,
            e.encoded_size == 0,
            e.destination_cloud@ == "azure_kv"@,
            e.cloud_upload_bucket is None,
            e.cloud_prefix is None,
    {
        UploadEntry {
            file_nm: file_path.to_owned(),
            hash: hash.to_owned(),
            ins_ts,
            hostname,
            hash_algo: default_hash_algo(),
            encoding: default_utf8(),
            file_size: 0,
            encoded_size: 0,
            destination_cloud: default_azure_kv(),
            cloud_upload_bucket: None,
            cloud_prefix: None,
        }
    }

    /// An entry with the defaults, the host name that a host-name lookup
    /// gave (`unknown_host` when the lookup failed or the name is not
    /// UTF-8), and the insertion time given.
    pub fn new_from_lookup(
        file_path: &str,
        hash: &str,
        lookup: Result<Option<String>, String>,
        ins_ts: String,
    ) -> (e: Self)
        ensures
            e.file_nm@ == file_path@,
            e.hash@ == hash@,
            e.hostname@ == spec_host_or_unknown(lookup),
            e.ins_ts == ins_ts,
            e.hash_algo@ == "sha1"@,
            e.encoding@ == "utf8"@,
            e.file_size == 0,
            e.encoded_size == 0,
            e.destination_cloud@ == "azure_kv"@,
            e.cloud_upload_bucket is None,
            e.cloud_prefix is None,
    {
        let hostname = host_or_unknown(hostname_result(lookup));
        Self::new_with(file_path, hash, hostname, ins_ts)
    }

    /// An entry for R2 storage in `bucket`, with the host name that a
    /// host-name lookup gave (`unknown_host` when it failed) and the
    /// insertion time given.
    pub fn new_for_r2_from_lookup(
        file_path: &str,
        hash: &str,
        bucket: &str,
        lookup: Result<Option<String>, String>,
        ins_ts: String,
    ) -> (e: Self)
        ensures
            e.file_nm@ == file_path@,
            e.hash@ == hash@,
            e.hostname@ == spec_host_or_unknown(lookup),
            e.ins_ts == ins_ts,
            e.hash_algo@ == "sha1"@,
            e.encoding@ == "utf8"@,
            e.file_size == 0,
            e.encoded_size == 0,
            e.destination_cloud@ == "r2"@,
            ov(e.cloud_upload_bucket) == Some(bucket@),
            e.cloud_prefix is None,
    {
        let mut entry = Self::new_from_lookup(file_path, hash, lookup, ins_ts);
        entry.destination_cloud = "r2".to_owned();
        entry.cloud_upload_bucket = Some(bucket.to_owned());
        entry
    }

    /// An entry for this host, made now, with the defaults: what
    /// `new_from_lookup` makes of this machine's host-name lookup and the
    /// current time.
    pub fn new(file_path: &str, hash: &str) -> (e: Self)
        ensures
            e.file_nm@ == file_path@,
            e.hash@ == hash@,
            e.hash_algo@ == "sha1"@,
            e.encoding@ == "utf8"@,
            e.file_size == 0,
            e.encoded_size == 0,
            e.destination_cloud@ == "azure_kv"@,
            e.cloud_upload_bucket is None,
            e.cloud_prefix is None,
    {
        Self::new_from_lookup(file_path, hash, hostname_get(), now_rfc3339())
    }

    /// An entry for R2 storage in `bucket`, for this host, made now: what
    /// `new_for_r2_from_lookup` makes of the host-name lookup and the time.
    pub fn new_for_r2(file_path: &str, hash: &str, bucket: &str) -> (e: Self)
        ensures
            e.file_nm@ == file_path@,
            e.hash@ == hash@,
            e.hash_algo@ == "sha1"@,
            e.encoding@ == "utf8"@,
            e.file_size == 0,
            e.encoded_size == 0,
            e.destination_cloud@ == "r2"@,
            ov(e.cloud_upload_bucket) == Some(bucket@),
            e.cloud_prefix is None,
    {
        Self::new_for_r2_from_lookup(file_path, hash, bucket, hostname_get(), now_rfc3339())
    }

    /// The entry with its file size set, and its encoded size set to the
    /// one given or else to the file size.
    pub fn with_size_info(self, file_size: u64, encoded_size: Option<u64>) -> (e: Self)
        ensures
            e.file_size == file_size,
            e.encoded_size == (match encoded_size {
                Some(n) => n,
                None => file_size,
            }),
            e.file_nm == self.file_nm,
            e.hash == self.hash,
            e.ins_ts == self.ins_ts,
            e.hostname == self.hostname,
            e.hash_algo == self.hash_algo,
            e.encoding == self.encoding,
            e.destination_cloud == self.destination_cloud,
            e.cloud_upload_bucket == self.cloud_upload_bucket,
            e.cloud_prefix == self.cloud_prefix,
    {
        let mut e = self;
        e.file_size = file_size;
        e.encoded_size = match encoded_size {
            Some(n) => n,
            None => file_size,
        };
        e
    }

    /// The details of the file to upload: its fields, no modification time,
    /// no cloud timestamps, and the destination as the cloud type.
    pub fn to_file_details(&self) -> (d: FileDetails)
        ensures
            d.file_path@ == self.file_nm@,
            d.file_size == self.file_size,
            d.encoded_size == self.encoded_size,
            d.last_modified@ == Seq::<char>::empty(),
            d.encoding@ == self.encoding@,
            d.cloud_created is None,
            d.cloud_updated is None,
            ov(d.cloud_type) == Some(self.destination_cloud@),
            d.hash@ == self.hash@,
            d.hash_algo@ == self.hash_algo@,
            ov(d.cloud_upload_bucket) == ov(self.cloud_upload_bucket),
            ov(d.cloud_prefix) == ov(self.cloud_prefix),
    {
        FileDetails {
            file_path: self.file_nm.clone(),
            file_size: self.file_size,
            encoded_size: self.encoded_size,
            last_modified: String::new(),
            encoding: self.encoding.clone(),
            cloud_created: None,
            cloud_updated: None,
            cloud_type: Some(self.destination_cloud.clone()),
            hash: self.hash.clone(),
            hash_algo: self.hash_algo.clone(),
            cloud_upload_bucket: clone_opt(&self.cloud_upload_bucket),
            cloud_prefix: clone_opt(&self.cloud_prefix),
        }
    }

    /// Whether the encoded file is larger than Azure Key Vault takes.
    pub fn is_too_large_for_keyvault(&self) -> (b: bool)
        ensures
            b == (self.encoded_size > KEYVAULT_MAX_ENCODED_SIZE),
    {
        self.encoded_size > KEYVAULT_MAX_ENCODED_SIZE
    }
}

/// The storage backend for a file: the destination named, if it is `b2` or
/// `azure_kv`; otherwise `b2` for files too large for Azure Key Vault and
/// `azure_kv` for the rest.
pub open spec fn storage_backend(destination_cloud: Option<Seq<char>>, encoded_size: u64) -> Seq<char> {
    if destination_cloud == Some("b2"@) {
        "b2"@
    } else if destination_cloud == Some("azure_kv"@) {
        "azure_kv"@
    } else if encoded_size > KEYVAULT_MAX_ENCODED_SIZE {
        "b2"@
    } else {
        "azure_kv"@
    }
}

/// Picks the storage backend for a file.
pub fn determine_storage_backend(destination_cloud: Option<&str>, encoded_size: u64) -> (r: &'static str)
    ensures
        r@ == storage_backend(
            match destination_cloud {
                Some(d) => Some(d@),
                None => None,
            },
            encoded_size,
        ),
{
    match destination_cloud {
        Some(d) => {
            if str_eq(d, "b2") {
                return "b2";
            }
            if str_eq(d, "azure_kv") {
                return "azure_kv";
            }
        },
        None => {},
    }
    if encoded_size > KEYVAULT_MAX_ENCODED_SIZE {
        "b2"
    } else {
        "azure_kv"
    }
}


/// A record of a secret as the output JSON file keeps it.
pub struct JsonOutput {
    pub file_nm: String,
    pub md5: String,
    pub ins_ts: String,
    pub az_id: String,
    pub az_create: String,
    pub az_updated: String,
    pub az_name: String,
    pub hostname: String,
    pub encoding: String,
    pub hash_val: String,
    pub hash_algo: String,
    pub destination_cloud: String,
    pub file_size: u64,
    pub encoded_size: u64,
    pub cloud_upload_bucket: String,
    pub cloud_id: String,
    pub cloud_cr_ts: String,
    pub cloud_upd_ts: String,
    pub cloud_prefix: String,
    pub r2_hash: String,
    pub r2_bucket_id: String,
    pub r2_name: String,
}

/// The part of a record that migration works on.
pub struct JsonEntry {
    pub file_name: String,
    pub hostname: String,
    pub destination_cloud: String,
    pub sha256: Option<String>,
    pub last_updated: Option<String>,
}

/// `Some` of a text unless it is empty.
pub open spec fn nonempty(s: Seq<char>) -> Option<Seq<char>> {
    if s.len() == 0 {
        None
    } else {
        Some(s)
    }
}

impl JsonOutput {
    /// A record is empty when it names no file.
    pub fn is_empty(&self) -> (b: bool)
        ensures
            b == (self.file_nm@.len() == 0),
    {
        self.file_nm.as_str().is_empty()
    }

    /// The record as a migration entry: file name, host and destination, the
    /// hash and the cloud update time when they are not empty.
    pub fn to_json_entry(&self) -> (e: JsonEntry)
        ensures
            e.file_name@ == self.file_nm@,
            e.hostname@ == self.hostname@,
            e.destination_cloud@ == self.destination_cloud@,
            ov(e.sha256) == nonempty(self.hash_val@),
            ov(e.last_updated) == nonempty(self.cloud_upd_ts@),
    {
        JsonEntry {
            file_name: self.file_nm.clone(),
            hostname: self.hostname.clone(),
            destination_cloud: self.destination_cloud.clone(),
            sha256: if !self.hash_val.as_str().is_empty() {
                Some(self.hash_val.clone())
            } else {
                None
            },
            last_updated: if !self.cloud_upd_ts.as_str().is_empty() {
                Some(self.cloud_upd_ts.clone())
            } else {
                None
            },
        }
    }

    /// The migration entries of this record: just the one.
    pub fn iter(&self) -> (v: Vec<JsonEntry>)
        ensures
            v.len() == 1,
            v@[0].file_name@ == self.file_nm@,
            v@[0].hostname@ == self.hostname@,
            v@[0].destination_cloud@ == self.destination_cloud@,
            ov(v@[0].sha256) == nonempty(self.hash_val@),
            ov(v@[0].last_updated) == nonempty(self.cloud_upd_ts@),
    {
        let mut v = Vec::new();
        v.push(self.to_json_entry());
        v
    }
}

/// The record a validation starts from, and whether all entries are to be
/// validated without asking.
pub struct JsonOutputControl {
    pub json_output: JsonOutput,
    pub validate_all: bool,
}

/// The empty record: every text empty but encoding `utf8`, hash algorithm
/// `sha1` and destination `azure_kv`, sizes 0.
pub open spec fn is_default_output(o: JsonOutput) -> bool {
    &&& o.file_nm@.len() == 0
    &&& o.md5@.len() == 0
    &&& o.ins_ts@.len() == 0
    &&& o.az_id@.len() == 0
    &&& o.az_create@.len() == 0
    &&& o.az_updated@.len() == 0
    &&& o.az_name@.len() == 0
    &&& o.hostname@.len() == 0
    &&& o.encoding@ == "utf8"@
    &&& o.hash_val@.len() == 0
    &&& o.hash_algo@ == "sha1"@
    &&& o.destination_cloud@ == "azure_kv"@
    &&& o.file_size == 0
    &&& o.encoded_size == 0
    &&& o.cloud_upload_bucket@.len() == 0
    &&& o.cloud_id@.len() == 0
    &&& o.cloud_cr_ts@.len() == 0
    &&& o.cloud_upd_ts@.len() == 0
    &&& o.cloud_prefix@.len() == 0
    &&& o.r2_hash@.len() == 0
    &&& o.r2_bucket_id@.len() == 0
    &&& o.r2_name@.len() == 0
}

impl Default for JsonOutputControl {
    fn default() -> (c: Self)
        ensures
            is_default_output(c.json_output),
            !c.validate_all,
    {
        JsonOutputControl {
            json_output: JsonOutput {
                file_nm: String::new(),
                md5: String::new(),
                ins_ts: String::new(),
                az_id: String::new(),
                az_create: String::new(),
                az_updated: String::new(),
                az_name: String::new(),
                hostname: String::new(),
                encoding: "utf8".to_owned(),
                hash_val: String::new(),
                hash_algo: "sha1".to_owned(),
                destination_cloud: "azure_kv".to_owned(),
                file_size: 0,
                encoded_size: 0,
                cloud_upload_bucket: String::new(),
                cloud_id: String::new(),
                cloud_cr_ts: String::new(),
                cloud_upd_ts: String::new(),
                cloud_prefix: String::new(),
                r2_hash: String::new(),
                r2_bucket_id: String::new(),
                r2_name: String::new(),
            },
            validate_all: false,
        }
    }
}

impl JsonOutputControl {
    /// The default control: the empty record, not validating all.
    pub fn new() -> (c: Self)
        ensures
            is_default_output(c.json_output),
            !c.validate_all,
    {
        Self::default()
    }
}

/// The destinations a record may name.
pub open spec fn is_supported_cloud(d: Seq<char>) -> bool {
    d == "azure_kv"@ || d == "b2"@ || d == "r2"@
}

/// Why a record cannot be migrated, checked in order: empty, no host, no
/// file, no destination, an unsupported destination.
pub open spec fn input_json_error(e: JsonOutput) -> Option<Seq<char>> {
    if e.file_nm@.len() == 0 {
        Some("Entry is empty, missing required fields"@)
    } else if e.hostname@.len() == 0 {
        Some("Entry is missing the hostname field"@)
    } else if e.destination_cloud@.len() == 0 {
        Some("Entry for file '"@ + e.file_nm@ + "' is missing the destination_cloud field"@)
    } else if !is_supported_cloud(e.destination_cloud@) {
        Some(
            "Entry for file '"@ + e.file_nm@ + "' has an unsupported destination_cloud: '"@
                + e.destination_cloud@ + "'. Must be 'azure_kv', 'b2', or 'r2'"@,
        )
    } else {
        None
    }
}

/// Checks that a record has what migration needs.
pub fn validate_input_json(entry: &JsonOutput) -> (r: Result<(), String>)
    ensures
        match r {
            Ok(()) => input_json_error(*entry) is None,
            Err(m) => input_json_error(*entry) == Some(m@),
        },
{
    if entry.is_empty() {
        return Err("Entry is empty, missing required fields".to_owned());
    }
    if entry.hostname.as_str().is_empty() {
        return Err("Entry is missing the hostname field".to_owned());
    }
    if entry.file_nm.as_str().is_empty() {
        let parts = ["Entry for hostname '", entry.hostname.as_str(), "' is missing the file_nm field"];
        return Err(concat_strs(&parts));
    }
    if entry.destination_cloud.as_str().is_empty() {
        let parts = [
            "Entry for file '",
            entry.file_nm.as_str(),
            "' is missing the destination_cloud field",
        ];
        let m = concat_strs(&parts);
        proof {
            reveal_with_fuel(concat_all, 4);
            assert(parts@.map_values(|p: &str| p@) =~= seq![
                "Entry for file '"@,
                entry.file_nm@,
                "' is missing the destination_cloud field"@,
            ]);
        }
        return Err(m);
    }
    let d = entry.destination_cloud.as_str();
    if str_eq(d, "azure_kv") || str_eq(d, "b2") || str_eq(d, "r2") {
        Ok(())
    } else {
        let parts = [
            "Entry for file '",
            entry.file_nm.as_str(),
            "' has an unsupported destination_cloud: '",
            d,
            "'. Must be 'azure_kv', 'b2', or 'r2'",
        ];
        let m = concat_strs(&parts);
        proof {
            reveal_with_fuel(concat_all, 6);
            assert(parts@.map_values(|p: &str| p@) =~= seq![
                "Entry for file '"@,
                entry.file_nm@,
                "' has an unsupported destination_cloud: '"@,
                d@,
                "'. Must be 'azure_kv', 'b2', or 'r2'"@,
            ]);
        }
        Err(m)
    }
}

} // verus!
