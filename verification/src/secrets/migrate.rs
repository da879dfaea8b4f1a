//! Migrating secrets recorded on other hosts to this one: which entries are
//! foreign, what the prompt's answers mean, and the record written for a
//! migrated file.

use vstd::prelude::*;
use crate::secrets::models::{input_json_error, ov, validate_input_json, JsonEntry, JsonOutput};
use crate::text::{copy_str, decimal, join2, join3, str_eq, trim, u64_to_string};

verus! {

fn copy_opt(o: &Option<String>) -> (r: Option<String>)
    ensures
        ov(r) == ov(*o),
{
    match o {
        Some(s) => Some(s.clone()),
        None => None,
    }
}

/// Two migration entries with the same texts.
pub open spec fn same_entry(a: JsonEntry, b: JsonEntry) -> bool {
    &&& a.file_name@ == b.file_name@
    &&& a.hostname@ == b.hostname@
    &&& a.destination_cloud@ == b.destination_cloud@
    &&& ov(a.sha256) == ov(b.sha256)
    &&& ov(a.last_updated) == ov(b.last_updated)
}

/// The entries recorded on another host than `current`, in order.
pub fn foreign_entries(entries: &Vec<JsonEntry>, current: &str) -> (r: Vec<JsonEntry>)
    ensures
        exists|idx: Seq<int>|
            #![trigger idx.len()]
            idx.len() == r.len() && (forall|k: int|
                0 <= k < idx.len() ==> 0 <= #[trigger] idx[k] < entries.len() && entries@[idx[k]].hostname@
                    != current@ && same_entry(r@[k], entries@[idx[k]])) && (forall|a: int, b: int|
                0 <= a < b < idx.len() ==> #[trigger] idx[a] < #[trigger] idx[b]) && (forall|i: int|
                0 <= i < entries.len() && #[trigger] entries@[i].hostname@ != current@ ==> idx.contains(i)),
{
    let mut r: Vec<JsonEntry> = Vec::new();
    let ghost mut idx: Seq<int> = Seq::empty();
    let mut i: usize = 0;
    while i < entries.len()
        invariant
            i <= entries.len(),
            idx.len() == r.len(),
            forall|k: int|
                0 <= k < idx.len() ==> 0 <= #[trigger] idx[k] < i && entries@[idx[k]].hostname@
                    != current@ && same_entry(r@[k], entries@[idx[k]]),
            forall|a: int, b: int| 0 <= a < b < idx.len() ==> #[trigger] idx[a] < #[trigger] idx[b],
            forall|j: int| 0 <= j < i && #[trigger] entries@[j].hostname@ != current@ ==> idx.contains(j),
        decreases entries.len() - i,
    {
        let e = &entries[i];
        if !str_eq(e.hostname.as_str(), current) {
            let c = JsonEntry {
                file_name: e.file_name.clone(),
                hostname: e.hostname.clone(),
                destination_cloud: e.destination_cloud.clone(),
                sha256: copy_opt(&e.sha256),
                last_updated: copy_opt(&e.last_updated),
            };
            let ghost old_idx = idx;
            r.push(c);
            proof {
                idx = idx.push(i as int);
                assert forall|j: int|
                    0 <= j < i + 1 && #[trigger] entries@[j].hostname@ != current@ implies idx.contains(j) by {
                    if j < i {
                        let k = choose|k: int| 0 <= k < old_idx.len() && old_idx[k] == j;
                        assert(idx[k] == j);
                    } else {
                        assert(idx[idx.len() - 1] == j);
                    }
                }
            }
        }
        i += 1;
    }
    r
}

/// What an answer to the migration prompt asks for.
#[derive(Clone, Copy, Debug, PartialEq, Eq, Structural)]
pub enum MigrateChoice {
    Migrate,
    Skip,
    /// Explain what a migration does, then ask for confirmation.
    Explain,
    Unexpected,
}

/// The meaning of an answer: `Y`, `y`, `S`, `s` migrate; `N`, `n` skip;
/// `D`, `d`, `?` explain.
pub open spec fn spec_migrate_choice(c: Seq<char>) -> MigrateChoice {
    if c == "Y"@ || c == "y"@ || c == "S"@ || c == "s"@ {
        MigrateChoice::Migrate
    } else if c == "N"@ || c == "n"@ {
        MigrateChoice::Skip
    } else if c == "D"@ || c == "d"@ || c == "?"@ {
        MigrateChoice::Explain
    } else {
        MigrateChoice::Unexpected
    }
}

/// Reads an answer to the migration prompt.
pub fn migrate_choice(response: &str) -> (r: MigrateChoice)
    ensures
        r == spec_migrate_choice(response@),
{
    if str_eq(response, "Y") || str_eq(response, "y") || str_eq(response, "S") || str_eq(
        response,
        "s",
    ) {
        MigrateChoice::Migrate
    } else if str_eq(response, "N") || str_eq(response, "n") {
        MigrateChoice::Skip
    } else if str_eq(response, "D") || str_eq(response, "d") || str_eq(response, "?") {
        MigrateChoice::Explain
    } else {
        MigrateChoice::Unexpected
    }
}

/// Whether the confirmation answer is yes: `y` or `Y` around whitespace.
pub fn confirms_migration(input: &str) -> (b: bool)
    ensures
        b == (trim(input@) == seq!['y'] || trim(input@) == seq!['Y']),
{
    let v = crate::text::chars_of(input);
    let t = crate::text::trim_chars(&v);
    let yes = t.len() == 1 && (t[0] == 'y' || t[0] == 'Y');
    proof {
        if t@ == seq!['y'] || t@ == seq!['Y'] {
            assert(t@[0] == 'y' || t@[0] == 'Y');
        }
        if yes {
            assert(t@ =~= seq![t@[0]]);
        }
    }
    yes
}

/// The question asked for an entry.
pub fn migrate_prompt_text(file_name: &str, hostname: &str, current: &str) -> (r: String)
    ensures
        r@ == "Migrate "@ + file_name@ + " from "@ + hostname@ + " to "@ + current@,
{
    let a = join3("Migrate ", file_name, " from ");
    let b = join3(a.as_str(), hostname, " to ");
    join2(b.as_str(), current)
}

/// The cloud id of a migrated file: its Key Vault address for `azure_kv`,
/// else none.
pub open spec fn spec_migrated_cloud_id(destination: Seq<char>, hash: Seq<char>) -> Seq<char> {
    if destination == "azure_kv"@ {
        "https://keyvault.vault.azure.net/secrets/"@ + hash
    } else {
        Seq::empty()
    }
}

/// The record written for a migrated file: this
/// host, the new hash (SHA-1), the sizes and encoding found, the given
/// times, and the Key Vault id for `azure_kv`; all else empty.
pub fn migrated_record(
    entry: &JsonEntry,
    hostname: String,
    new_hash: String,
    file_size: u64,
    encoded_size: u64,
    encoding: String,
    ins_ts: String,
    cloud_cr_ts: String,
    cloud_upd_ts: String,
) -> (o: JsonOutput)
    ensures
        o.file_nm@ == entry.file_name@,
        o.md5@.len() == 0,
        o.ins_ts@ == ins_ts@,
        o.az_id@.len() == 0,
        o.az_create@.len() == 0,
        o.az_updated@.len() == 0,
        o.az_name@.len() == 0,
        o.hostname@ == hostname@,
        o.encoding@ == encoding@,
        o.hash_val@ == new_hash@,
        o.hash_algo@ == "sha1"@,
        o.destination_cloud@ == entry.destination_cloud@,
        o.file_size == file_size,
        o.encoded_size == encoded_size,
        o.cloud_upload_bucket@.len() == 0,
        o.cloud_id@ == spec_migrated_cloud_id(entry.destination_cloud@, new_hash@),
        o.cloud_cr_ts@ == cloud_cr_ts@,
        o.cloud_upd_ts@ == cloud_upd_ts@,
        o.cloud_prefix@.len() == 0,
        o.r2_hash@.len() == 0,
        o.r2_bucket_id@.len() == 0,
        o.r2_name@.len() == 0,
{
    let cloud_id = if str_eq(entry.destination_cloud.as_str(), "azure_kv") {
        join2("https://keyvault.vault.azure.net/secrets/", new_hash.as_str())
    } else {
        String::new()
    };
    JsonOutput {
        file_nm: entry.file_name.clone(),
        md5: String::new(),
        ins_ts,
        az_id: String::new(),
        az_create: String::new(),
        az_updated: String::new(),
        az_name: String::new(),
        hostname,
        encoding,
        hash_val: new_hash,
        hash_algo: "sha1".to_owned(),
        destination_cloud: entry.destination_cloud.clone(),
        file_size,
        encoded_size,
        cloud_upload_bucket: String::new(),
        cloud_id,
        cloud_cr_ts,
        cloud_upd_ts,
        cloud_prefix: String::new(),
        r2_hash: String::new(),
        r2_bucket_id: String::new(),
        r2_name: String::new(),
    }
}

/// The sizes and encoding a test migration records for its known files
/// (file size, encoded size, encoding); `(0, 0, utf8)` for any other.
pub open spec fn spec_test_sizes(name: Seq<char>) -> (u64, u64, Seq<char>) {
    if name == "tests/test12/a"@ {
        (2, 2, "utf8"@)
    } else if name == "tests/test12/b"@ {
        (4, 4, "utf8"@)
    } else if name == "tests/test12/e e"@ {
        (10, 17, "base64"@)
    } else if name == "local_secret.txt"@ {
        (100, 100, "utf8"@)
    } else if name == "remote_secret.txt"@ {
        (200, 200, "utf8"@)
    } else {
        (0, 0, "utf8"@)
    }
}

/// The sizes of a file in a test migration.
pub fn test_sizes(name: &str) -> (r: (u64, u64, String))
    ensures
        (r.0, r.1, r.2@) == spec_test_sizes(name@),
{
    if str_eq(name, "tests/test12/a") {
        (2, 2, "utf8".to_owned())
    } else if str_eq(name, "tests/test12/b") {
        (4, 4, "utf8".to_owned())
    } else if str_eq(name, "tests/test12/e e") {
        (10, 17, "base64".to_owned())
    } else if str_eq(name, "local_secret.txt") {
        (100, 100, "utf8".to_owned())
    } else if str_eq(name, "remote_secret.txt") {
        (200, 200, "utf8".to_owned())
    } else {
        (0, 0, "utf8".to_owned())
    }
}

} // verus!

verus! {

/// Why a list of records cannot be migrated: it is empty, or the first
/// record that fails `validate_input_json`, with its index.
pub open spec fn collection_error(entries: Seq<JsonOutput>) -> Option<Seq<char>> {
    if entries.len() == 0 {
        Some("Input JSON is empty, no entries to migrate"@)
    } else {
        first_invalid(entries, 0)
    }
}

/// The error of the first invalid record from position `i` on.
pub open spec fn first_invalid(entries: Seq<JsonOutput>, i: int) -> Option<Seq<char>>
    decreases entries.len() - i,
{
    if i < 0 || i >= entries.len() {
        None
    } else {
        match input_json_error(entries[i]) {
            Some(e) => Some("Entry at index "@ + decimal(i as nat) + ": "@ + e),
            None => first_invalid(entries, i + 1),
        }
    }
}

/// Checks a list of records before any is migrated.
pub fn validate_collection(entries: &Vec<JsonOutput>) -> (r: Result<(), String>)
    ensures
        match r {
            Ok(()) => collection_error(entries@) is None,
            Err(m) => collection_error(entries@) == Some(m@),
        },
{
    if entries.len() == 0 {
        return Err("Input JSON is empty, no entries to migrate".to_owned());
    }
    let mut i: usize = 0;
    while i < entries.len()
        invariant
            0 < entries.len(),
            i <= entries.len(),
            collection_error(entries@) == first_invalid(entries@, i as int),
        decreases entries.len() - i,
    {
        match validate_input_json(&entries[i]) {
            Err(e) => {
                let n = u64_to_string(i as u64);
                let head = join3("Entry at index ", n.as_str(), ": ");
                return Err(join2(head.as_str(), e.as_str()));
            },
            Ok(()) => {},
        }
        i += 1;
    }
    Ok(())
}

} // verus!
