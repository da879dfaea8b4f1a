use podman_compose_mgr::secrets::entry::{entry_from_fields, extract_validation_fields, filter_by_hostname, parse_entry, EntryFields};
use podman_compose_mgr::secrets::file_size::format_file_size;
use podman_compose_mgr::secrets::initialize::{check_encoding_and_size, init_bucket, init_destination, init_encoding, init_entry_file, init_input_is_map, init_summary, keeps_file_encoding, lookup_key, plan_merge};
use podman_compose_mgr::secrets::migrate::{confirms_migration, foreign_entries, migrate_choice, migrate_prompt_text, migrated_record, test_sizes, validate_collection, MigrateChoice};
use podman_compose_mgr::secrets::models::{host_or_unknown, hostname_result, default_azure_kv_output, default_encoding, default_hash_algo_output, determine_storage_backend, validate_input_json, FileDetails, JsonEntry, JsonOutput, JsonOutputControl, UploadEntry};
use podman_compose_mgr::secrets::records::merge_records;
use podman_compose_mgr::secrets::upload::{client_needs, existence_summary, keyvault_upload_path, route_entry, stored_size, upload_choice, upload_prompt_details, UploadPromptConfig, RouteFields, UploadChoice, UploadRoute};
use podman_compose_mgr::secrets::storage::R2UploadResult;
use podman_compose_mgr::secrets::retrieve::SecretRecord;
use podman_compose_mgr::secrets::{process_secrets_mode, SecretsMode, SecretsTask};

fn s(x: &str) -> Option<String> {
    Some(x.to_string())
}

fn empty_fields() -> EntryFields {
    EntryFields {
        file_nm: None,
        filenm: None,
        hash: None,
        md5: None,
        ins_ts: None,
        hash_algo: None,
        encoding: None,
        destination_cloud: None,
        cloud_type: None,
        hostname: None,
        cloud_upload_bucket: None,
        cloud_prefix: None,
        cloud_id: None,
        az_id: None,
        secret_name: None,
        az_name: None,
        cloud_cr_ts: None,
        cloud_upd_ts: None,
        r2_name: None,
        filename: None,
        file_size: None,
        encoded_size: None,
    }
}

#[test]
fn validation_fields_accept_old_names() {
    let mut e = empty_fields();
    assert_eq!(extract_validation_fields(&e), Err("cloud_id missing in input json".to_string()));
    e.az_id = s("id");
    assert_eq!(extract_validation_fields(&e), Err("file_nm missing in input json".to_string()));
    e.filenm = s("/f");
    assert_eq!(extract_validation_fields(&e), Err("secret_name missing in input json".to_string()));
    e.az_name = s("n");
    assert_eq!(
        extract_validation_fields(&e),
        Ok(("id".to_string(), "/f".to_string(), "n".to_string(), "utf8".to_string(), "azure_kv".to_string()))
    );
    e.cloud_type = s("b2");
    e.cloud_id = s("new");
    assert_eq!(extract_validation_fields(&e).unwrap().0, "new");
    assert_eq!(extract_validation_fields(&e).unwrap().4, "b2");
}

#[test]
fn entries_read_field_by_field() {
    let mut e = empty_fields();
    assert_eq!(entry_from_fields(&e, "{}", "h").err().unwrap(), "Missing file_nm field in entry: {}");
    e.filenm = s("/f");
    assert_eq!(entry_from_fields(&e, "{}", "h").err().unwrap(), "Missing hash/md5 field in entry: {}");
    e.md5 = s("m");
    assert_eq!(entry_from_fields(&e, "{}", "h").err().unwrap(), "Missing ins_ts field in entry: {}");
    e.ins_ts = s("t");
    e.file_size = Some(10);
    e.cloud_prefix = s("");
    let u = entry_from_fields(&e, "{}", "host").unwrap();
    assert_eq!(u.file_nm, "/f");
    assert_eq!(u.hash, "m");
    assert_eq!(u.hostname, "host");
    assert_eq!(u.hash_algo, "sha1");
    assert_eq!(u.encoding, "utf8");
    assert_eq!(u.file_size, 10);
    assert_eq!(u.encoded_size, 10);
    assert_eq!(u.destination_cloud, "azure_kv");
    assert_eq!(u.cloud_prefix, None);
    e.hostname = s("given");
    assert_eq!(parse_entry(&e, "{}").unwrap().hostname, "given");
}

#[test]
fn hostname_filter_keeps_entries_without_host() {
    let hosts = vec![s("a"), None, s("b"), s("a")];
    assert_eq!(filter_by_hostname(&hosts, "a"), vec![0, 1, 3]);
    assert_eq!(filter_by_hostname(&hosts, "c"), vec![1]);
}

#[test]
fn initialize_decisions() {
    assert!(init_input_is_map("  {\"a\": \"b\"}"));
    assert!(!init_input_is_map("[{}]"));
    assert_eq!(init_destination(None, 20001), "r2");
    assert_eq!(init_destination(None, 20000), "azure_kv");
    assert_eq!(init_destination(Some("b2"), 1), "b2");
    assert!(keeps_file_encoding("azure_kv"));
    assert!(!keeps_file_encoding("r2"));
    assert_eq!(init_bucket("r2", Some("bk")), "bk");
    assert_eq!(init_bucket("b2", None), "");
    assert_eq!(init_bucket("azure_kv", Some("bk")), "");
    assert_eq!(lookup_key("f", "h", "c"), "f-h-c");
}

#[test]
fn init_merge_updates_first_match_and_appends_the_rest() {
    let existing = vec![s("a-h-r2"), None, s("b-h-azure_kv"), s("a-h-r2")];
    let new = vec!["a-h-r2".to_string(), "c-h-r2".to_string(), "b-h-azure_kv".to_string(), "a-h-r2".to_string()];
    let p = plan_merge(&existing, &new);
    assert_eq!(p.updates, vec![(0, 0), (2, 2), (0, 3)]);
    assert_eq!(p.appended, vec![1]);
    assert_eq!(init_summary(3, 1), "info: Successfully updated output file with 1 new entries and 3 updated entries");
    assert_eq!(init_summary(2, 0), "info: Successfully updated output file with 2 updated entries");
    assert_eq!(init_summary(0, 0), "info: Successfully updated output file with 0 new entries");
}

fn route(host: Option<&str>, dest: Option<&str>, enc: Option<u64>, size: Option<u64>) -> RouteFields {
    RouteFields {
        hostname: host.map(|h| h.to_string()),
        destination_cloud: dest.map(|d| d.to_string()),
        encoded_size: enc,
        file_size: size,
    }
}

#[test]
fn upload_runs_make_the_clients_they_need() {
    let entries = vec![route(Some("me"), Some("azure_kv"), Some(10), None), route(Some("other"), Some("r2"), None, None)];
    assert_eq!(client_needs(&entries, "me"), (true, false));
    let entries = vec![route(None, None, None, Some(30000))];
    assert_eq!(client_needs(&entries, "me"), (false, true));
    assert_eq!(client_needs(&Vec::new(), "me"), (false, false));
}

fn upload_entry(dest: &str, bucket: Option<&str>, size: u64) -> UploadEntry {
    UploadEntry {
        file_nm: "/f".to_string(),
        hash: "h".to_string(),
        ins_ts: "t".to_string(),
        hostname: "me".to_string(),
        hash_algo: "sha1".to_string(),
        encoding: "utf8".to_string(),
        file_size: size,
        encoded_size: size,
        destination_cloud: dest.to_string(),
        cloud_upload_bucket: bucket.map(|b| b.to_string()),
        cloud_prefix: None,
    }
}

#[test]
fn entries_are_routed() {
    assert_eq!(route_entry(&upload_entry("r2", Some("b"), 1), "other", true), UploadRoute::OtherHost);
    assert_eq!(route_entry(&upload_entry("r2", Some("b"), 1), "me", false), UploadRoute::MissingFile);
    assert_eq!(route_entry(&upload_entry("b2", None, 1), "me", true), UploadRoute::MissingBucket);
    assert_eq!(route_entry(&upload_entry("r2", Some("b"), 1), "me", true), UploadRoute::R2);
    assert_eq!(route_entry(&upload_entry("azure_kv", None, 24001), "me", true), UploadRoute::B2);
    assert_eq!(route_entry(&upload_entry("azure_kv", None, 24000), "me", true), UploadRoute::KeyVault);
}

#[test]
fn upload_prompt_answers() {
    assert_eq!(upload_choice(None), UploadChoice::Skip);
    assert_eq!(upload_choice(Some("Y")), UploadChoice::Upload);
    assert_eq!(upload_choice(Some("")), UploadChoice::Skip);
    assert_eq!(upload_choice(Some("d")), UploadChoice::Details);
    assert_eq!(upload_choice(Some("?")), UploadChoice::Help);
    assert_eq!(upload_choice(Some("maybe")), UploadChoice::Invalid);
    assert_eq!(existence_summary(Some((true, "c".to_string(), "u".to_string()))), (true, s("c"), s("u")));
    assert_eq!(existence_summary(Some((false, "c".to_string(), "u".to_string()))), (false, None, None));
    assert_eq!(existence_summary(None), (false, None, None));
    let meta = vec![("content_length".to_string(), "123".to_string())];
    assert_eq!(stored_size(&meta), Some(123));
    let meta = vec![("content_length".to_string(), "12x".to_string())];
    assert_eq!(stored_size(&meta), None);
    let mut e = upload_entry("azure_kv", None, 1);
    assert_eq!(keyvault_upload_path(&e), "/f");
    e.encoding = "base64".to_string();
    assert_eq!(keyvault_upload_path(&e), "/f.base64");
}

#[test]
fn upload_records() {
    let mut e = upload_entry("r2", Some("bk"), 5);
    e.cloud_prefix = s("pre");
    let r = R2UploadResult { hash: "rh".to_string(), id: "rid".to_string(), bucket_id: "rb".to_string(), name: "rn".to_string() };
    let rec = e.r2_record(&r);
    assert_eq!(rec.cloud_id, "rid");
    assert_eq!(rec.destination_cloud, "r2");
    assert_eq!(rec.cloud_upload_bucket, "bk");
    let obj = rec.object.unwrap();
    assert_eq!(obj.cloud_prefix, "pre");
    assert_eq!(obj.r2_name, "rn");
    let secret = SecretRecord { name: "n".to_string(), id: "sid".to_string(), value: "v".to_string(), created: "c".to_string(), updated: "u".to_string() };
    let az = upload_entry("azure_kv", None, 5).azure_record(&secret);
    assert_eq!(az.cloud_id, "sid");
    assert_eq!(az.cloud_cr_ts, "c");
    assert_eq!(az.cloud_upload_bucket, "");
    assert!(az.object.is_none());
}

fn jentry(name: &str, host: &str) -> JsonEntry {
    JsonEntry { file_name: name.to_string(), hostname: host.to_string(), destination_cloud: "azure_kv".to_string(), sha256: None, last_updated: None }
}

#[test]
fn migration_decisions() {
    let entries = vec![jentry("a", "me"), jentry("b", "old"), jentry("c", "other")];
    let foreign = foreign_entries(&entries, "me");
    let names: Vec<&str> = foreign.iter().map(|e| e.file_name.as_str()).collect();
    assert_eq!(names, vec!["b", "c"]);
    assert_eq!(migrate_choice("s"), MigrateChoice::Migrate);
    assert_eq!(migrate_choice("n"), MigrateChoice::Skip);
    assert_eq!(migrate_choice("?"), MigrateChoice::Explain);
    assert_eq!(migrate_choice("x"), MigrateChoice::Unexpected);
    assert!(confirms_migration(" Y\n"));
    assert!(!confirms_migration("yes"));
    assert_eq!(migrate_prompt_text("f", "h", "me"), "Migrate f from h to me");
    assert_eq!(test_sizes("tests/test12/e e"), (10, 17, "base64".to_string()));
    assert_eq!(test_sizes("zzz"), (0, 0, "utf8".to_string()));
    let rec = migrated_record(&jentry("f", "old"), "me".to_string(), "hh".to_string(), 1, 2, "utf8".to_string(), "t0".to_string(), "t1".to_string(), "t2".to_string());
    assert_eq!(rec.cloud_id, "https://keyvault.vault.azure.net/secrets/hh");
    assert_eq!(rec.hash_val, "hh");
    assert_eq!(rec.hostname, "me");
    assert_eq!(rec.cloud_cr_ts, "t1");
    let mut r2 = jentry("f", "old");
    r2.destination_cloud = "r2".to_string();
    let rec = migrated_record(&r2, "me".to_string(), "hh".to_string(), 1, 2, "utf8".to_string(), "t0".to_string(), "t1".to_string(), "t2".to_string());
    assert_eq!(rec.cloud_id, "");
}

#[test]
fn file_sizes_for_people() {
    assert_eq!(format_file_size(0), "0 bytes");
    assert_eq!(format_file_size(1023), "1023 bytes");
    assert_eq!(format_file_size(1024), "1.00 KiB");
    assert_eq!(format_file_size(1536), "1.50 KiB");
    assert_eq!(format_file_size(1152), "1.12 KiB");
    assert_eq!(format_file_size(1408), "1.38 KiB");
    assert_eq!(format_file_size(1048575), "1024.00 KiB");
    assert_eq!(format_file_size(1048576), "1.00 MiB");
    assert_eq!(format_file_size(5 * 1024 * 1024 * 1024), "5.00 GiB");
    assert_eq!(format_file_size(1u64 << 40), "1.00 TiB");
    assert_eq!(format_file_size(1u64 << 50), "1.00 PiB");
    assert_eq!(format_file_size(u64::MAX), "16384.00 PiB");
    for n in [1024u64, 1152, 1408, 2000, 123456, 98765432, 1u64 << 53, (1u64 << 53) + 1, u64::MAX - 1000] {
        assert_eq!(format_file_size(n), float_reference(n));
    }
}

fn float_reference(n: u64) -> String {
    let units = ["KiB", "MiB", "GiB", "TiB", "PiB"];
    let mut scale = 1024f64;
    let mut k = 0;
    while k < 4 && (n as f64) >= scale * 1024.0 {
        scale *= 1024.0;
        k += 1;
    }
    format!("{:.2} {}", n as f64 / scale, units[k])
}

fn out(name: &str, host: &str, hash: &str, md5: &str) -> JsonOutput {
    let mut o = JsonOutputControl::new().json_output;
    o.file_nm = name.to_string();
    o.hostname = host.to_string();
    o.hash_val = hash.to_string();
    o.md5 = md5.to_string();
    o
}

#[test]
fn records_merge_by_file_name() {
    let existing = vec![out("a", "h2", "x", ""), out("b", "h1", "", "m")];
    let new = vec![out("a", "h1", "z", ""), out("c", "h1", "a", "")];
    let merged = merge_records(existing, new, false);
    let names: Vec<(&str, &str)> = merged.iter().map(|o| (o.file_nm.as_str(), o.hostname.as_str())).collect();
    assert_eq!(names, vec![("a", "h1"), ("b", "h1"), ("c", "h1")]);
    let existing = vec![out("a", "h2", "x", ""), out("b", "h1", "", "m")];
    let new = vec![out("a", "h1", "z", ""), out("c", "h1", "a", "")];
    let sorted = merge_records(existing, new, true);
    let names: Vec<&str> = sorted.iter().map(|o| o.file_nm.as_str()).collect();
    assert_eq!(names, vec!["c", "b", "a"]);
}

#[test]
fn secrets_modes() {
    assert_eq!(process_secrets_mode(SecretsMode::SecretUpload), Ok(SecretsTask::Upload));
    assert_eq!(process_secrets_mode(SecretsMode::SecretRetrieve), Ok(SecretsTask::Validate));
    assert_eq!(process_secrets_mode(SecretsMode::SecretInitialize), Ok(SecretsTask::Initialize));
    assert_eq!(process_secrets_mode(SecretsMode::Other), Err("Unsupported mode for secrets processing".to_string()));
}

#[test]
fn files_that_are_not_utf8_go_as_base64() {
    let t = check_encoding_and_size(b"hello");
    assert_eq!((t.encoding.as_str(), t.file_size, t.encoded_size), ("utf8", 5, 5));
    assert!(t.base64_text.is_none());
    let b = check_encoding_and_size(&[0xff, 0xfe, 0x00]);
    assert_eq!((b.encoding.as_str(), b.file_size, b.encoded_size), ("base64", 3, 4));
    assert_eq!(b.base64_text.as_deref(), Some("//4A"));
}

#[test]
fn upload_details_show_the_cloud_copy() {
    let local = FileDetails {
        file_path: "/etc/a".to_string(),
        file_size: 10,
        encoded_size: 10,
        last_modified: "01/02/25 10:00:00".to_string(),
        encoding: "utf8".to_string(),
        cloud_created: None,
        cloud_updated: None,
        cloud_type: Some("local".to_string()),
        hash: "h".to_string(),
        hash_algo: "sha1".to_string(),
        cloud_upload_bucket: None,
        cloud_prefix: None,
    };
    let config = UploadPromptConfig {
        file_path: "/etc/a",
        secret_exists: true,
        cloud_created: Some("2025-01-01".to_string()),
        cloud_updated: Some("2025-01-02".to_string()),
        cloud_type: Some("r2"),
        cloud_file_size: Some(10),
        local_file_size: 10,
    };
    let d = upload_prompt_details(&config, local);
    assert_eq!(d.cloud_created.as_deref(), Some("2025-01-01"));
    assert_eq!(d.cloud_updated.as_deref(), Some("2025-01-02"));
    assert_eq!(d.cloud_type.as_deref(), Some("r2"));
    assert_eq!(d.file_path, "/etc/a");
    let no_type = UploadPromptConfig { cloud_type: None, cloud_created: None, ..config };
    let d2 = upload_prompt_details(&no_type, d);
    assert_eq!(d2.cloud_type.as_deref(), Some("r2"));
    assert!(d2.cloud_created.is_none());
}

#[test]
fn defaults_of_records() {
    assert_eq!(default_encoding(), "utf8");
    assert_eq!(default_hash_algo_output(), "sha1");
    assert_eq!(default_azure_kv_output(), "azure_kv");
}

#[test]
fn entries_for_r2_and_their_sizes() {
    let e = UploadEntry::new_for_r2("/etc/big.bin", "abc", "my-bucket");
    assert_eq!(e.destination_cloud, "r2");
    assert_eq!(e.cloud_upload_bucket.as_deref(), Some("my-bucket"));
    assert_eq!(e.hash, "abc");
    let sized = e.with_size_info(30000, None);
    assert_eq!((sized.file_size, sized.encoded_size), (30000, 30000));
    assert!(sized.is_too_large_for_keyvault());
    let sized2 = UploadEntry::new("/etc/a", "h").with_size_info(10, Some(16));
    assert_eq!((sized2.file_size, sized2.encoded_size), (10, 16));
    assert!(!sized2.is_too_large_for_keyvault());
}

#[test]
fn storage_backend_by_destination_and_size() {
    assert_eq!(determine_storage_backend(Some("b2"), 10), "b2");
    assert_eq!(determine_storage_backend(Some("azure_kv"), 99999), "azure_kv");
    assert_eq!(determine_storage_backend(Some("r2"), 24001), "b2");
    assert_eq!(determine_storage_backend(None, 24000), "azure_kv");
}

#[test]
fn records_checked_before_migration() {
    let mut o = JsonOutputControl::new().json_output;
    assert_eq!(validate_input_json(&o), Err("Entry is empty, missing required fields".to_string()));
    o.file_nm = "/etc/a".to_string();
    assert_eq!(validate_input_json(&o), Err("Entry is missing the hostname field".to_string()));
    o.hostname = "h1".to_string();
    o.destination_cloud = String::new();
    assert_eq!(
        validate_input_json(&o),
        Err("Entry for file '/etc/a' is missing the destination_cloud field".to_string())
    );
    o.destination_cloud = "s3".to_string();
    assert_eq!(
        validate_input_json(&o),
        Err("Entry for file '/etc/a' has an unsupported destination_cloud: 's3'. Must be 'azure_kv', 'b2', or 'r2'".to_string())
    );
    o.destination_cloud = "b2".to_string();
    assert_eq!(validate_input_json(&o), Ok(()));
}

fn good_record() -> JsonOutput {
    let mut good = JsonOutputControl::new().json_output;
    good.file_nm = "/etc/a".to_string();
    good.hostname = "h".to_string();
    good
}

#[test]
fn a_migration_list_is_checked_entry_by_entry() {
    assert_eq!(validate_collection(&Vec::new()), Err("Input JSON is empty, no entries to migrate".to_string()));
    let bad = JsonOutputControl::new().json_output;
    let mut bad_host = JsonOutputControl::new().json_output;
    bad_host.file_nm = "/etc/b".to_string();
    assert_eq!(
        validate_collection(&vec![good_record(), bad]),
        Err("Entry at index 1: Entry is empty, missing required fields".to_string())
    );
    assert_eq!(
        validate_collection(&vec![good_record(), bad_host]),
        Err("Entry at index 1: Entry is missing the hostname field".to_string())
    );
    assert_eq!(validate_collection(&vec![good_record(), good_record()]), Ok(()));
}

#[test]
fn object_stores_record_the_size_on_disk() {
    let enc = check_encoding_and_size(&[0xff, 0xfe, 0x00]);
    assert_eq!(init_encoding("azure_kv", &enc, 3), ("base64".to_string(), 3, 4));
    assert_eq!(init_encoding("r2", &enc, 3), ("utf8".to_string(), 3, 3));
    assert_eq!(init_encoding("b2", &enc, 7), ("utf8".to_string(), 7, 7));
}

#[test]
fn host_name_lookups_are_read() {
    assert_eq!(hostname_result(Ok(Some("box1".to_string()))), Ok("box1".to_string()));
    assert_eq!(hostname_result(Ok(None)), Err("Hostname contains non-UTF8 characters".to_string()));
    assert_eq!(
        hostname_result(Err("permission denied".to_string())),
        Err("Failed to get hostname: permission denied".to_string())
    );
}

#[test]
fn init_entries_without_a_file_are_skipped_and_missing_files_fail() {
    assert_eq!(init_entry_file(None, false), Ok(None));
    assert_eq!(init_entry_file(Some("/nope/a.env"), false), Err("File /nope/a.env does not exist".to_string()));
    assert_eq!(init_entry_file(Some("/etc/a.env"), true), Ok(Some("/etc/a.env".to_string())));
}

#[test]
fn entries_record_the_looked_up_host_or_unknown_host() {
    let e = UploadEntry::new_from_lookup("/etc/a", "h", Ok(Some("box1".to_string())), "t0".to_string());
    assert_eq!(e.hostname, "box1");
    assert_eq!(e.ins_ts, "t0");
    assert_eq!(e.destination_cloud, "azure_kv");
    let e = UploadEntry::new_from_lookup("/etc/a", "h", Ok(None), "t0".to_string());
    assert_eq!(e.hostname, "unknown_host");
    let e = UploadEntry::new_for_r2_from_lookup("/etc/a", "h", "bk", Err("io".to_string()), "t1".to_string());
    assert_eq!(e.hostname, "unknown_host");
    assert_eq!(e.destination_cloud, "r2");
    assert_eq!(e.cloud_upload_bucket.as_deref(), Some("bk"));
    assert_eq!(host_or_unknown(Ok("n".to_string())), "n");
    assert_eq!(host_or_unknown(Err("x".to_string())), "unknown_host");
}
