//! Retrieving and validating stored secrets: where a copy is fetched from,
//! how it is compared with the local file, what the prompts' answers mean,
//! and the records a validation writes.

use vstd::prelude::*;
use crate::secrets::entry::{either, or_default, EntryFields};
use crate::secrets::models::{ov, JsonOutput, JsonOutputControl};
use crate::secrets::storage::{source_view, ValueSource};
use crate::text::{contains, copy_str, join2, str_eq};
use vstd::utf8::{decode_utf8, valid_utf8};

verus! {

/// What to do to fetch the stored copy of an entry.
pub enum DownloadPlan {
    /// Copy the file prepared for tests.
    TestCopy,
    /// Read the secret from Azure Key Vault.
    KeyVault,
    /// Try the keys in order in the bucket, until one is found.
    Objects { bucket: String, keys: Vec<String> },
    /// The storage type is not known.
    Unsupported,
}

/// The entry and temporary path of a test run.
pub open spec fn is_test_run(e: EntryFields, temp_path: Seq<char>) -> bool {
    contains(or_default(ov(e.file_nm), Seq::empty()), "/tmp/testfile"@) && contains(
        temp_path,
        "/tmp/.tmp"@,
    )
}

/// The keys under which an object may have been stored, in the order they
/// are tried: `secrets/r2_name`, `secrets/hash`, `hash`, `secret/hash`,
/// `/secrets/r2_name`, `/secrets/hash`, then `secrets/filename` and
/// `filename` (the entries without an `r2_name` or `filename` leave theirs
/// out; a missing hash is empty).
pub open spec fn candidate_keys(r2_name: Option<Seq<char>>, hash: Seq<char>, filename: Option<
    Seq<char>,
>) -> Seq<Seq<char>> {
    let first = match r2_name {
        Some(n) => seq!["secrets/"@ + n],
        None => Seq::empty(),
    };
    let slash = match r2_name {
        Some(n) => seq!["/secrets/"@ + n],
        None => Seq::empty(),
    };
    let named = match filename {
        Some(f) => seq!["secrets/"@ + f, f],
        None => Seq::empty(),
    };
    first + seq!["secrets/"@ + hash, hash, "secret/"@ + hash] + slash + seq!["/secrets/"@ + hash]
        + named
}

/// Retrieval tries the key an upload stored the object under when the
/// upload used no prefix or the prefix `secrets`: the key, `prefix/hash`
/// or `hash`, is among the keys tried for the uploaded record.
pub proof fn lemma_retrieval_tries_upload_key(
    hash: Seq<char>,
    prefix: Option<Seq<char>>,
    r2_name: Option<Seq<char>>,
    filename: Option<Seq<char>>,
)
    requires
        prefix is None || prefix == Some("secrets"@),
    ensures
        candidate_keys(r2_name, hash, filename).contains(
            crate::secrets::storage::spec_object_key(hash, prefix),
        ),
{
    let ks = candidate_keys(r2_name, hash, filename);
    let first: Seq<Seq<char>> = match r2_name {
        Some(n) => seq!["secrets/"@ + n],
        None => Seq::empty(),
    };
    let k = crate::secrets::storage::spec_object_key(hash, prefix);
    match prefix {
        None => {
            assert(ks[first.len() as int + 1] == hash);
            assert(ks[first.len() as int + 1] == k);
        },
        Some(p) => {
            reveal_strlit("secrets");
            reveal_strlit("secrets/");
            reveal_strlit("/");
            assert(p + "/"@ =~= "secrets/"@);
            assert(k =~= "secrets/"@ + hash);
            assert(ks[first.len() as int] == "secrets/"@ + hash);
            assert(ks[first.len() as int] == k);
        },
    }
}

/// The texts of a vector of strings.
pub open spec fn texts(v: Seq<String>) -> Seq<Seq<char>> {
    v.map_values(|s: String| s@)
}

fn push_text(v: &mut Vec<String>, s: String)
    ensures
        texts(final(v)@) == texts(old(v)@).push(s@),
{
    let ghost before = texts(v@);
    v.push(s);
    assert(texts(v@) =~= before.push(s@));
}

/// The keys to try for an entry.
pub fn object_keys_for(e: &EntryFields) -> (r: Vec<String>)
    ensures
        texts(r@) == candidate_keys(
            ov(e.r2_name),
            or_default(ov(e.hash), Seq::empty()),
            ov(e.filename),
        ),
{
    let empty = String::new();
    let hash: &str = match &e.hash {
        Some(h) => h.as_str(),
        None => empty.as_str(),
    };
    let mut r: Vec<String> = Vec::new();
    assert(texts(r@) =~= Seq::empty());
    if let Some(n) = &e.r2_name {
        push_text(&mut r, join2("secrets/", n.as_str()));
    }
    push_text(&mut r, join2("secrets/", hash));
    push_text(&mut r, copy_str(hash));
    push_text(&mut r, join2("secret/", hash));
    if let Some(n) = &e.r2_name {
        push_text(&mut r, join2("/secrets/", n.as_str()));
    }
    push_text(&mut r, join2("/secrets/", hash));
    if let Some(f) = &e.filename {
        push_text(&mut r, join2("secrets/", f.as_str()));
        push_text(&mut r, copy_str(f.as_str()));
    }
    assert(texts(r@) =~= candidate_keys(
        ov(e.r2_name),
        or_default(ov(e.hash), Seq::empty()),
        ov(e.filename),
    ));
    r
}

fn contains_str(s: &str, p: &str) -> (b: bool)
    ensures
        b == contains(s@, p@),
{
    let v = crate::text::chars_of(s);
    let w = crate::text::chars_of(p);
    crate::text::contains_chars(&v, &w)
}

/// How the stored copy of an entry is fetched: Key
/// Vault for `azure_kv`, the object store for `b2` and `r2` (which needs a
/// bucket), the prepared file in a test run of either.
pub fn plan_download(storage_type: &str, e: &EntryFields, temp_path: &str) -> (r: Result<
    DownloadPlan,
    String,
>)
    ensures
        storage_type@ == "azure_kv"@ ==> (r matches Ok(p) && (if is_test_run(*e, temp_path@) {
            p is TestCopy
        } else {
            p is KeyVault
        })),
        (storage_type@ == "b2"@ || storage_type@ == "r2"@) && is_test_run(*e, temp_path@) ==> (
        r matches Ok(p) && p is TestCopy),
        (storage_type@ == "b2"@ || storage_type@ == "r2"@) && !is_test_run(*e, temp_path@)
            && e.cloud_upload_bucket is None ==> (r matches Err(m) && m@
            == "cloud_upload_bucket is required for B2/R2 storage"@),
        (storage_type@ == "b2"@ || storage_type@ == "r2"@) && !is_test_run(*e, temp_path@)
            && e.cloud_upload_bucket is Some ==> (r matches Ok(DownloadPlan::Objects { bucket, keys })
            && Some(bucket@) == ov(e.cloud_upload_bucket) && texts(keys@) == candidate_keys(
            ov(e.r2_name),
            or_default(ov(e.hash), Seq::empty()),
            ov(e.filename),
        )),
        storage_type@ != "azure_kv"@ && storage_type@ != "b2"@ && storage_type@ != "r2"@ ==> (r
            matches Ok(p) && p is Unsupported),
{
    proof {
        reveal_strlit("azure_kv");
        reveal_strlit("b2");
        reveal_strlit("r2");
        assert("azure_kv"@.len() == 8);
        assert("b2"@.len() == 2);
        assert("azure_kv"@ != "b2"@);
        assert("azure_kv"@ != "r2"@);
    }
    let empty = String::new();
    let file_nm: &str = match &e.file_nm {
        Some(f) => f.as_str(),
        None => empty.as_str(),
    };
    let test_run = contains_str(file_nm, "/tmp/testfile") && contains_str(temp_path, "/tmp/.tmp");
    if str_eq(storage_type, "azure_kv") {
        if test_run {
            Ok(DownloadPlan::TestCopy)
        } else {
            Ok(DownloadPlan::KeyVault)
        }
    } else if str_eq(storage_type, "b2") || str_eq(storage_type, "r2") {
        if test_run {
            return Ok(DownloadPlan::TestCopy);
        }
        let bucket = match &e.cloud_upload_bucket {
            Some(b) => b.clone(),
            None => {
                return Err("cloud_upload_bucket is required for B2/R2 storage".to_owned());
            },
        };
        Ok(DownloadPlan::Objects { bucket, keys: object_keys_for(e) })
    } else {
        Ok(DownloadPlan::Unsupported)
    }
}

/// Why no key gave the object.
pub enum DownloadFailure {
    /// The store does not hold the object under any of the keys.
    NotFound,
    /// Another error, the last one met.
    Other(String),
    /// No error was recorded.
    Unknown,
}

/// What the last error of the tries means: a missing object when it speaks
/// of `NoSuchKey` or of something that does not exist.
pub fn classify_download_failure(last_error: Option<&str>) -> (r: DownloadFailure)
    ensures
        match last_error {
            None => r is Unknown,
            Some(e) => if contains(e@, "NoSuchKey"@) || contains(e@, "does not exist"@) {
                r is NotFound
            } else {
                r matches DownloadFailure::Other(m) && m@ == e@
            },
        },
{
    match last_error {
        None => DownloadFailure::Unknown,
        Some(e) => {
            if contains_str(e, "NoSuchKey") || contains_str(e, "does not exist") {
                DownloadFailure::NotFound
            } else {
                DownloadFailure::Other(copy_str(e))
            }
        },
    }
}

/// What an answer to the retrieve prompt asks for.
#[derive(Clone, Copy, Debug, PartialEq, Eq, Structural)]
pub enum RetrieveChoice {
    Skip,
    ShowDiff,
    Details,
    Help,
    Invalid,
}

/// The meaning of an answer to the retrieve prompt: nothing, `N` or `n`
/// skips, `y` shows the diff, `d` the details, `?` the help.
pub fn retrieve_choice(input: Option<&str>) -> (r: RetrieveChoice)
    ensures
        r == match input {
            None => RetrieveChoice::Skip,
            Some(c) => if c@ == "N"@ || c@ == "n"@ {
                RetrieveChoice::Skip
            } else if c@ == "y"@ {
                RetrieveChoice::ShowDiff
            } else if c@ == "d"@ {
                RetrieveChoice::Details
            } else if c@ == "?"@ {
                RetrieveChoice::Help
            } else {
                RetrieveChoice::Invalid
            },
        },
{
    match input {
        None => RetrieveChoice::Skip,
        Some(c) => {
            if str_eq(c, "N") || str_eq(c, "n") {
                RetrieveChoice::Skip
            } else if str_eq(c, "y") {
                RetrieveChoice::ShowDiff
            } else if str_eq(c, "d") {
                RetrieveChoice::Details
            } else if str_eq(c, "?") {
                RetrieveChoice::Help
            } else {
                RetrieveChoice::Invalid
            }
        },
    }
}

/// What to do after an answer to the validation prompt.
#[derive(Clone, Copy, Debug, PartialEq, Eq, Structural)]
pub enum ValidationStep {
    /// Leave the entry without validating it.
    Stop,
    /// Validate the entry, then leave it.
    Validate,
    /// Show the entry's details and ask again.
    ShowDetails,
    /// Show the help and ask again.
    ShowHelp,
    /// Ask again (all entries are now validated without asking).
    Continue,
    /// The answer is not a choice; ask again.
    Invalid,
}

/// The step an answer leads to: no answer or `N` stops, `v` validates, `d` shows
/// details, `?` help, `a` sets "validate all" and goes on.
pub open spec fn spec_validation_step(input: Option<Seq<char>>) -> ValidationStep {
    match input {
        None => ValidationStep::Stop,
        Some(c) => if c == "d"@ {
            ValidationStep::ShowDetails
        } else if c == "v"@ {
            ValidationStep::Validate
        } else if c == "?"@ {
            ValidationStep::ShowHelp
        } else if c == "a"@ {
            ValidationStep::Continue
        } else if c == "N"@ {
            ValidationStep::Stop
        } else {
            ValidationStep::Invalid
        },
    }
}

/// What each answer to the validation prompt leads to: the prompt ends only
/// on no answer, `v` (which alone validates) or `N`; `?` alone shows the
/// help, `d` alone the details, and `a` alone goes on to validate all;
/// anything else asks again as invalid.
pub proof fn lemma_validation_answers(input: Option<Seq<char>>)
    ensures
        (spec_validation_step(input) == ValidationStep::Stop || spec_validation_step(input)
            == ValidationStep::Validate) <==> (input is None || (input matches Some(c) && (c == "v"@ || c
            == "N"@))),
        spec_validation_step(input) == ValidationStep::Validate <==> input == Some("v"@),
        spec_validation_step(input) == ValidationStep::ShowHelp <==> input == Some("?"@),
        spec_validation_step(input) == ValidationStep::ShowDetails <==> input == Some("d"@),
        spec_validation_step(input) == ValidationStep::Continue <==> input == Some("a"@),
        spec_validation_step(input) == ValidationStep::Invalid <==> (input matches Some(c) && c != "v"@
            && c != "N"@ && c != "?"@ && c != "d"@ && c != "a"@),
{
    reveal_strlit("a");
    reveal_strlit("d");
    reveal_strlit("v");
    reveal_strlit("?");
    reveal_strlit("N");
    assert("a"@ != "d"@ && "a"@ != "v"@ && "a"@ != "?"@ && "a"@ != "N"@ && "d"@ != "v"@ && "d"@ != "?"@
        && "d"@ != "N"@ && "v"@ != "?"@ && "v"@ != "N"@ && "?"@ != "N"@) by {
        assert("a"@[0] == 'a' && "d"@[0] == 'd' && "v"@[0] == 'v' && "?"@[0] == '?' && "N"@[0] == 'N');
    }
}

/// Takes one answer of the validation prompt: says what to do next, and
/// records "validate all" when the answer is `a`.
pub fn read_val_loop_step(control: &mut JsonOutputControl, input: Option<&str>) -> (r: ValidationStep)
    ensures
        r == spec_validation_step(os_view(input)),
        final(control).json_output == old(control).json_output,
        final(control).validate_all == (old(control).validate_all || (input matches Some(c) && c@
            == "a"@)),
        (r == ValidationStep::Stop || r == ValidationStep::Validate) <==> (input is None || (input matches Some(
            c,
        ) && (c@ == "v"@ || c@ == "N"@))),
        r == ValidationStep::Validate <==> (input matches Some(c) && c@ == "v"@),
        r == ValidationStep::ShowHelp <==> (input matches Some(c) && c@ == "?"@),
        r == ValidationStep::ShowDetails <==> (input matches Some(c) && c@ == "d"@),
        r == ValidationStep::Continue <==> (input matches Some(c) && c@ == "a"@),
{
    proof {
        lemma_validation_answers(os_view(input));
        reveal_strlit("a");
        reveal_strlit("d");
        reveal_strlit("v");
        reveal_strlit("?");
        reveal_strlit("N");
        assert("a"@.len() == 1 && "d"@.len() == 1 && "v"@.len() == 1);
        assert("a"@[0] == 'a' && "d"@[0] == 'd' && "v"@[0] == 'v' && "?"@[0] == '?' && "N"@[0] == 'N');
        assert("d"@ != "a"@ && "v"@ != "a"@ && "?"@ != "a"@ && "N"@ != "a"@);
    }
    match input {
        None => ValidationStep::Stop,
        Some(c) => {
            if str_eq(c, "d") {
                ValidationStep::ShowDetails
            } else if str_eq(c, "v") {
                ValidationStep::Validate
            } else if str_eq(c, "?") {
                ValidationStep::ShowHelp
            } else if str_eq(c, "a") {
                control.validate_all = true;
                ValidationStep::Continue
            } else if str_eq(c, "N") {
                ValidationStep::Stop
            } else {
                ValidationStep::Invalid
            }
        },
    }
}

/// The text of an optional string slice.
pub open spec fn os_view(o: Option<&str>) -> Option<Seq<char>> {
    match o {
        Some(s) => Some(s@),
        None => None,
    }
}

/// Whether a validation goes to the object store (`b2`, `r2`) rather than
/// to Key Vault.
pub fn uses_object_store(storage_type: &str) -> (b: bool)
    ensures
        b == (storage_type@ == "b2"@ || storage_type@ == "r2"@),
{
    str_eq(storage_type, "b2") || str_eq(storage_type, "r2")
}

/// The key a validation reads from the object store: `secrets/` and the
/// hash (empty when missing).
pub fn validation_object_key(e: &EntryFields) -> (r: String)
    ensures
        r@ == "secrets/"@ + or_default(ov(e.hash), Seq::empty()),
{
    match &e.hash {
        Some(h) => join2("secrets/", h.as_str()),
        None => "secrets/".to_owned(),
    }
}

/// Whether a retrieval handles an entry on this host: its host name, or
/// the empty text when it has none, is this host's name.
pub fn retrieve_for_host(entry_host: Option<&str>, our_hostname: &str) -> (b: bool)
    ensures
        b == (match entry_host {
            Some(h) => h@ == our_hostname@,
            None => our_hostname@.len() == 0,
        }),
{
    match entry_host {
        Some(h) => str_eq(h, our_hostname),
        None => our_hostname.is_empty(),
    }
}

/// Where a credential argument is read from: a file when it holds a path
/// separator (`/`), else the argument is the value.
pub fn arg_source(arg: &str) -> (r: ValueSource)
    ensures
        r == (if contains(arg@, "/"@) {
            ValueSource::File(r->File_0)
        } else {
            ValueSource::Given(r->Given_0)
        }),
        r matches ValueSource::File(p) ==> p@ == arg@,
        r matches ValueSource::Given(p) ==> p@ == arg@,
{
    if contains_str(arg, "/") {
        ValueSource::File(copy_str(arg))
    } else {
        ValueSource::Given(copy_str(arg))
    }
}

/// Where a required credential argument is read from, or the error that
/// names it when it was not given.
pub open spec fn required_source(arg: Option<Seq<char>>, missing: Seq<char>) -> Result<(bool, Seq<char>), Seq<char>> {
    match arg {
        Some(a) => Ok((contains(a, "/"@), a)),
        None => Err(missing),
    }
}

fn required_arg(arg: Option<&str>, missing: &str) -> (r: Result<ValueSource, String>)
    ensures
        match r {
            Ok(v) => required_source(opt_str_view(arg), missing@) == Ok::<(bool, Seq<char>), Seq<char>>(source_view(v)),
            Err(e) => required_source(opt_str_view(arg), missing@) == Err::<(bool, Seq<char>), Seq<char>>(e@),
        },
{
    match arg {
        Some(a) => Ok(arg_source(a)),
        None => Err(copy_str(missing)),
    }
}

/// The text of an optional string slice.
pub open spec fn opt_str_view(o: Option<&str>) -> Option<Seq<char>> {
    match o {
        Some(s) => Some(s@),
        None => None,
    }
}

/// Where the Key Vault client id is read from (`get_client_id`).
pub fn get_client_id(secrets_client_id: Option<&str>) -> (r: Result<ValueSource, String>)
    ensures
        match r {
            Ok(v) => required_source(opt_str_view(secrets_client_id), "Client ID is required"@)
                == Ok::<(bool, Seq<char>), Seq<char>>(source_view(v)),
            Err(e) => required_source(opt_str_view(secrets_client_id), "Client ID is required"@)
                == Err::<(bool, Seq<char>), Seq<char>>(e@),
        },
{
    required_arg(secrets_client_id, "Client ID is required")
}

/// Where the tenant id is read from (`get_tenant_id`).
pub fn get_tenant_id(secrets_tenant_id: Option<&str>) -> (r: Result<ValueSource, String>)
    ensures
        match r {
            Ok(v) => required_source(opt_str_view(secrets_tenant_id), "Tenant ID is required"@)
                == Ok::<(bool, Seq<char>), Seq<char>>(source_view(v)),
            Err(e) => required_source(opt_str_view(secrets_tenant_id), "Tenant ID is required"@)
                == Err::<(bool, Seq<char>), Seq<char>>(e@),
        },
{
    required_arg(secrets_tenant_id, "Tenant ID is required")
}

/// Where the Key Vault name is read from (`get_key_vault_name`).
pub fn get_key_vault_name(secrets_vault_name: Option<&str>) -> (r: Result<ValueSource, String>)
    ensures
        match r {
            Ok(v) => required_source(opt_str_view(secrets_vault_name), "Key vault name is required"@)
                == Ok::<(bool, Seq<char>), Seq<char>>(source_view(v)),
            Err(e) => required_source(opt_str_view(secrets_vault_name), "Key vault name is required"@)
                == Err::<(bool, Seq<char>), Seq<char>>(e@),
        },
{
    required_arg(secrets_vault_name, "Key vault name is required")
}

} // verus!

verus! {

/// What Key Vault holds of a secret, its times as text.
pub struct SecretRecord {
    pub name: String,
    pub id: String,
    pub value: String,
    pub created: String,
    pub updated: String,
}

/// The lower-case hex MD5 digest of the UTF-8 bytes of a text.
pub uninterp spec fn md5_hex(text: Seq<char>) -> Seq<char>;

/// The MD5 digest of `content`, in lower-case hex (`md5::Md5::digest`,
/// written out with `hex::encode`). The contract only names the result.
#[verifier::external_body]
pub fn calculate_md5(content: &str) -> (r: String)
    ensures
        r@ == md5_hex(content@),
{
    hex::encode(<md5::Md5 as md5::Digest>::digest(content.as_bytes()))
}

/// The message of the error that invalid UTF-8 bytes give (the `Display`
/// text of `std::str::Utf8Error`).
pub uninterp spec fn utf8_error_text(bytes: Seq<u8>) -> Seq<char>;

/// The text that bytes hold when they are valid UTF-8, else the message of
/// the decoding error.
pub open spec fn utf8_decoded(bytes: Seq<u8>) -> Result<Seq<char>, Seq<char>> {
    if valid_utf8(bytes) {
        Ok(decode_utf8(bytes))
    } else {
        Err(utf8_error_text(bytes))
    }
}

/// The bytes as UTF-8 text (`std::str::from_utf8`): the text they encode
/// when they are valid UTF-8, else the error's message, which is only
/// named.
#[verifier::external_body]
pub(crate) fn utf8_text(bytes: &[u8]) -> (r: Result<String, String>)
    ensures
        match r {
            Ok(s) => valid_utf8(bytes@) && s@ == decode_utf8(bytes@),
            Err(e) => !valid_utf8(bytes@) && e@ == utf8_error_text(bytes@),
        },
{
    match std::str::from_utf8(bytes) {
        Ok(s) => Ok(s.to_string()),
        Err(e) => Err(e.to_string()),
    }
}

/// The text of bytes with each invalid UTF-8 sequence replaced.
pub uninterp spec fn utf8_lossy(bytes: Seq<u8>) -> Seq<char>;

/// The bytes as text, invalid sequences replaced by U+FFFD
/// (`String::from_utf8_lossy`). The contract only names the result.
#[verifier::external_body]
fn utf8_lossy_text(bytes: &[u8]) -> (r: String)
    ensures
        r@ == utf8_lossy(bytes@),
{
    String::from_utf8_lossy(bytes).to_string()
}

/// The standard base64 text of bytes.
pub uninterp spec fn base64_standard(bytes: Seq<u8>) -> Seq<char>;

/// The bytes in standard base64 with padding (`azure_core::base64::encode`).
/// The contract only names the result.
#[verifier::external_body]
pub(crate) fn base64_encode(bytes: &[u8]) -> (r: String)
    ensures
        r@ == base64_standard(bytes@),
{
    azure_core::base64::encode(bytes)
}

/// The bytes that standard base64 text decodes to, `None` when it is not
/// valid.
pub uninterp spec fn base64_standard_decoded(bytes: Seq<u8>) -> Option<Seq<u8>>;

/// Decodes standard base64 (`base64::decode`), `None` on any error. The
/// contract only names the result.
#[verifier::external_body]
#[allow(deprecated)]
fn base64_decode(bytes: &[u8]) -> (r: Option<Vec<u8>>)
    ensures
        match r {
            Some(v) => base64_standard_decoded(bytes@) == Some(v@),
            None => base64_standard_decoded(bytes@) is None,
        },
{
    match base64::decode(bytes) {
        Ok(v) => Some(v),
        Err(_) => None,
    }
}

/// Whether two byte sequences are equal.
pub fn bytes_eq(a: &[u8], b: &[u8]) -> (r: bool)
    ensures
        r == (a@ == b@),
{
    if a.len() != b.len() {
        return false;
    }
    let mut i: usize = 0;
    while i < a.len()
        invariant
            i <= a.len(),
            a.len() == b.len(),
            forall|k: int| 0 <= k < i ==> a@[k] == b@[k],
        decreases a.len() - i,
    {
        if a[i] != b[i] {
            return false;
        }
        i += 1;
    }
    assert(a@ =~= b@);
    true
}

/// The downloaded copy matches the local file: for base64 entries after
/// decoding the copy (the raw copy when it does not decode).
pub open spec fn spec_contents_match(downloaded: Seq<u8>, local: Seq<u8>, encoding: Seq<char>) -> bool {
    let d = if encoding == "base64"@ {
        match base64_standard_decoded(downloaded) {
            Some(x) => x,
            None => downloaded,
        }
    } else {
        downloaded
    };
    d == local
}

/// Whether the downloaded copy is the local file.
pub fn contents_match(downloaded: &[u8], local: &[u8], encoding: &str) -> (r: bool)
    ensures
        r == spec_contents_match(downloaded@, local@, encoding@),
{
    if str_eq(encoding, "base64") {
        match base64_decode(downloaded) {
            Some(d) => bytes_eq(d.as_slice(), local),
            None => bytes_eq(downloaded, local),
        }
    } else {
        bytes_eq(downloaded, local)
    }
}

/// The text whose MD5 is compared with the stored secret's: the file as
/// text when it is UTF-8, else its base64 (for base64 entries) or its text
/// with invalid sequences replaced.
pub open spec fn spec_checksum_text(bytes: Seq<u8>, encoding: Seq<char>) -> Seq<char> {
    match utf8_decoded(bytes) {
        Ok(t) => t,
        Err(_) => if encoding == "base64"@ {
            base64_standard(bytes)
        } else {
            utf8_lossy(bytes)
        },
    }
}

/// The text of a local file that a Key Vault secret is checked against.
pub fn checksum_text(bytes: &[u8], encoding: &str) -> (r: String)
    ensures
        r@ == spec_checksum_text(bytes@, encoding@),
{
    match utf8_text(bytes) {
        Ok(t) => t,
        Err(_) => {
            if str_eq(encoding, "base64") {
                base64_encode(bytes)
            } else {
                utf8_lossy_text(bytes)
            }
        },
    }
}

/// Whether the MD5 of the stored secret is that of the local file.
pub fn checksums_match(secret_value: &str, file_bytes: &[u8], encoding: &str) -> (r: bool)
    ensures
        r == (md5_hex(secret_value@) == md5_hex(spec_checksum_text(file_bytes@, encoding@))),
{
    let stored = calculate_md5(secret_value);
    let text = checksum_text(file_bytes, encoding);
    let local = calculate_md5(text.as_str());
    str_eq(stored.as_str(), local.as_str())
}

} // verus!

verus! {

/// The fields a validation record sets; the others keep the values a
/// record has when they are missing from its JSON (`azure_kv`, zero sizes,
/// empty texts).
pub open spec fn record_is(
    o: JsonOutput,
    file_nm: Seq<char>,
    md5: Seq<char>,
    ins_ts: Seq<char>,
    az_id: Seq<char>,
    az_create: Seq<char>,
    az_updated: Seq<char>,
    az_name: Seq<char>,
    hostname: Seq<char>,
    encoding: Seq<char>,
    hash_algo: Seq<char>,
) -> bool {
    &&& o.file_nm@ == file_nm
    &&& o.md5@ == md5
    &&& o.ins_ts@ == ins_ts
    &&& o.az_id@ == az_id
    &&& o.az_create@ == az_create
    &&& o.az_updated@ == az_updated
    &&& o.az_name@ == az_name
    &&& o.hostname@ == hostname
    &&& o.encoding@ == encoding
    &&& o.hash_val@ == md5
    &&& o.hash_algo@ == hash_algo
    &&& o.destination_cloud@ == "azure_kv"@
    &&& o.file_size == 0
    &&& o.encoded_size == 0
    &&& o.cloud_upload_bucket@.len() == 0
    &&& o.cloud_id@.len() == 0
    &&& o.cloud_cr_ts@.len() == 0
    &&& o.cloud_upd_ts@.len() == 0
    &&& o.cloud_prefix@.len() == 0
    &&& o.r2_hash@.len() == 0
    &&& o.r2_bucket_id@.len() == 0
    &&& o.r2_name@.len() == 0
}

fn record(
    file_nm: String,
    md5: String,
    ins_ts: String,
    az_id: String,
    az_create: String,
    az_updated: String,
    az_name: String,
    hostname: String,
    encoding: String,
    hash_algo: String,
) -> (o: JsonOutput)
    ensures
        record_is(
            o,
            file_nm@,
            md5@,
            ins_ts@,
            az_id@,
            az_create@,
            az_updated@,
            az_name@,
            hostname@,
            encoding@,
            hash_algo@,
        ),
{
    let hash_val = md5.clone();
    JsonOutput {
        file_nm,
        md5,
        ins_ts,
        az_id,
        az_create,
        az_updated,
        az_name,
        hostname,
        encoding,
        hash_val,
        hash_algo,
        destination_cloud: "azure_kv".to_owned(),
        file_size: 0,
        encoded_size: 0,
        cloud_upload_bucket: String::new(),
        cloud_id: String::new(),
        cloud_cr_ts: String::new(),
        cloud_upd_ts: String::new(),
        cloud_prefix: String::new(),
        r2_hash: String::new(),
        r2_bucket_id: String::new(),
        r2_name: String::new(),
    }
}

fn field_or(a: &Option<String>, d: &str) -> (r: String)
    ensures
        r@ == or_default(ov(*a), d@),
{
    match a {
        Some(x) => x.clone(),
        None => copy_str(d),
    }
}

fn field_or_empty(a: &Option<String>) -> (r: String)
    ensures
        r@ == or_default(ov(*a), Seq::empty()),
{
    match a {
        Some(x) => x.clone(),
        None => String::new(),
    }
}

/// The record of a retrieved file: the entry's
/// hash, cloud id, secret name and cloud times, with the time and host of
/// this run.
pub fn retrieve_output(
    file_nm: String,
    formatted_date: String,
    hostname: String,
    encoding: String,
    e: &EntryFields,
) -> (o: JsonOutput)
    ensures
        record_is(
            o,
            file_nm@,
            or_default(ov(e.hash), Seq::empty()),
            formatted_date@,
            or_default(ov(e.cloud_id), Seq::empty()),
            or_default(ov(e.cloud_cr_ts), Seq::empty()),
            or_default(ov(e.cloud_upd_ts), Seq::empty()),
            or_default(ov(e.az_name), Seq::empty()),
            hostname@,
            encoding@,
            or_default(ov(e.hash_algo), "sha1"@),
        ),
{
    record(
        file_nm,
        field_or_empty(&e.hash),
        formatted_date,
        field_or_empty(&e.cloud_id),
        field_or_empty(&e.cloud_cr_ts),
        field_or_empty(&e.cloud_upd_ts),
        field_or_empty(&e.az_name),
        hostname,
        encoding,
        field_or(&e.hash_algo, "sha1"),
    )
}

/// The record of an entry validated against the object store: the entry's hash (or md5), its
/// cloud times and hash algorithm.
pub fn cloud_validation_output(
    file_nm: String,
    cloud_id: String,
    secret_name: String,
    encoding: String,
    e: &EntryFields,
    formatted_date: String,
    hostname: String,
) -> (o: JsonOutput)
    ensures
        record_is(
            o,
            file_nm@,
            or_default(either(e.hash, e.md5), Seq::empty()),
            formatted_date@,
            cloud_id@,
            or_default(ov(e.cloud_cr_ts), Seq::empty()),
            or_default(ov(e.cloud_upd_ts), Seq::empty()),
            secret_name@,
            hostname@,
            encoding@,
            or_default(ov(e.hash_algo), "sha1"@),
        ),
{
    let hash = match &e.hash {
        Some(h) => h.clone(),
        None => field_or_empty(&e.md5),
    };
    record(
        file_nm,
        hash,
        formatted_date,
        cloud_id,
        field_or_empty(&e.cloud_cr_ts),
        field_or_empty(&e.cloud_upd_ts),
        secret_name,
        hostname,
        encoding,
        field_or(&e.hash_algo, "sha1"),
    )
}

/// The record of an entry validated against Key Vault: the MD5 of the stored value, and the
/// secret's id, times and name.
pub fn keyvault_validation_output(
    file_nm: String,
    secret: &SecretRecord,
    formatted_date: String,
    hostname: String,
    encoding: String,
) -> (o: JsonOutput)
    ensures
        record_is(
            o,
            file_nm@,
            md5_hex(secret.value@),
            formatted_date@,
            secret.id@,
            secret.created@,
            secret.updated@,
            secret.name@,
            hostname@,
            encoding@,
            "md5"@,
        ),
{
    record(
        file_nm,
        calculate_md5(secret.value.as_str()),
        formatted_date,
        secret.id.clone(),
        secret.created.clone(),
        secret.updated.clone(),
        secret.name.clone(),
        hostname,
        encoding,
        "md5".to_owned(),
    )
}

} // verus!

verus! {

/// The lower-case hex SHA-1 digest of bytes.
pub uninterp spec fn sha1_hex(bytes: Seq<u8>) -> Seq<char>;

/// The SHA-1 digest of a file's content in lower-case hex
/// (`sha1::Sha1` over the bytes, written out with `hex::encode`). The
/// contract only names the result.
#[verifier::external_body]
pub fn calculate_hash(content: &[u8]) -> (r: String)
    ensures
        r@ == sha1_hex(content@),
{
    hex::encode(<sha1::Sha1 as sha1::Digest>::digest(content))
}

/// A character a Key Vault secret name keeps: an ASCII letter or digit, or
/// `-`.
pub open spec fn name_char(c: char) -> bool {
    ('a' <= c <= 'z') || ('A' <= c <= 'Z') || ('0' <= c <= '9') || c == '-'
}

/// The secret name of an `.env` file: its path without
/// leading `/`, each other character turned into `-`.
pub open spec fn spec_env_secret_name(path: Seq<char>) -> Seq<char> {
    crate::text::trim_start_matches(path, seq!['/']).map_values(|c: char| if name_char(c) {
        c
    } else {
        '-'
    })
}

/// The secret name under which an `.env` file is stored.
pub fn env_secret_name(full_path: &str) -> (r: String)
    ensures
        r@ == spec_env_secret_name(full_path@),
{
    let v = crate::text::chars_of(full_path);
    let mut slash: Vec<char> = Vec::new();
    slash.push('/');
    assert(slash@ =~= seq!['/']);
    let t = crate::text::trim_start_matches_chars(&v, &slash);
    let mut out: Vec<char> = Vec::new();
    let mut i: usize = 0;
    while i < t.len()
        invariant
            i <= t.len(),
            out@ == t@.take(i as int).map_values(|c: char| if name_char(c) {
                c
            } else {
                '-'
            }),
        decreases t.len() - i,
    {
        let c = t[i];
        let keep = ('a' <= c && c <= 'z') || ('A' <= c && c <= 'Z') || ('0' <= c && c <= '9') || c == '-';
        out.push(if keep {
            c
        } else {
            '-'
        });
        assert(t@.take(i + 1) =~= t@.take(i as int).push(c));
        assert(out@ =~= t@.take(i + 1).map_values(|c: char| if name_char(c) {
            c
        } else {
            '-'
        }));
        i += 1;
    }
    assert(t@.take(t.len() as int) =~= t@);
    crate::text::string_from_chars(&out)
}

} // verus!
