use podman_compose_mgr::secrets::entry::EntryFields;
use podman_compose_mgr::secrets::models::JsonOutputControl;
use podman_compose_mgr::secrets::retrieve::{
    arg_source, calculate_hash, calculate_md5, checksum_text, checksums_match, classify_download_failure,
    cloud_validation_output, contents_match, env_secret_name, get_client_id, retrieve_for_host, get_key_vault_name, get_tenant_id, keyvault_validation_output, object_keys_for,
    plan_download, read_val_loop_step, retrieve_choice, retrieve_output, uses_object_store,
    validation_object_key, DownloadFailure, DownloadPlan, RetrieveChoice, SecretRecord, ValidationStep,
};
use podman_compose_mgr::secrets::storage::{object_key, ValueSource};

fn s(x: &str) -> Option<String> {
    Some(x.to_string())
}

fn fields() -> EntryFields {
    EntryFields {
        file_nm: s("/etc/app.env"),
        filenm: None,
        hash: s("h1"),
        md5: s("m1"),
        ins_ts: None,
        hash_algo: None,
        encoding: None,
        destination_cloud: None,
        cloud_type: None,
        hostname: None,
        cloud_upload_bucket: s("bk"),
        cloud_prefix: None,
        cloud_id: s("cid"),
        az_id: None,
        secret_name: None,
        az_name: s("an"),
        cloud_cr_ts: s("c"),
        cloud_upd_ts: None,
        r2_name: s("obj"),
        filename: s("name.txt"),
        file_size: None,
        encoded_size: None,
    }
}

#[test]
fn download_keys_in_order() {
    let keys = object_keys_for(&fields());
    assert_eq!(
        keys,
        vec![
            "secrets/obj", "secrets/h1", "h1", "secret/h1", "/secrets/obj", "/secrets/h1",
            "secrets/name.txt", "name.txt"
        ]
    );
    let mut f = fields();
    f.r2_name = None;
    f.filename = None;
    f.hash = None;
    assert_eq!(object_keys_for(&f), vec!["secrets/", "", "secret/", "/secrets/"]);
}

#[test]
fn download_plans() {
    let f = fields();
    assert!(matches!(plan_download("azure_kv", &f, "/var/tmp/x"), Ok(DownloadPlan::KeyVault)));
    assert!(matches!(plan_download("nfs", &f, "/var/tmp/x"), Ok(DownloadPlan::Unsupported)));
    match plan_download("r2", &f, "/var/tmp/x").unwrap() {
        DownloadPlan::Objects { bucket, keys } => {
            assert_eq!(bucket, "bk");
            assert_eq!(keys.len(), 8);
        }
        _ => panic!("expected objects"),
    }
    let mut g = fields();
    g.cloud_upload_bucket = None;
    assert_eq!(plan_download("b2", &g, "/var/tmp/x").err().unwrap(), "cloud_upload_bucket is required for B2/R2 storage");
    g.file_nm = s("/tmp/testfile1");
    assert!(matches!(plan_download("b2", &g, "/tmp/.tmpXYZ"), Ok(DownloadPlan::TestCopy)));
    assert!(matches!(plan_download("azure_kv", &g, "/tmp/.tmpXYZ"), Ok(DownloadPlan::TestCopy)));
}

#[test]
fn download_failures() {
    assert!(matches!(classify_download_failure(None), DownloadFailure::Unknown));
    assert!(matches!(classify_download_failure(Some("service error: NoSuchKey")), DownloadFailure::NotFound));
    assert!(matches!(classify_download_failure(Some("the key does not exist")), DownloadFailure::NotFound));
    assert!(matches!(classify_download_failure(Some("timeout")), DownloadFailure::Other(ref m) if m == "timeout"));
}

#[test]
fn prompt_choices() {
    assert_eq!(retrieve_choice(None), RetrieveChoice::Skip);
    assert_eq!(retrieve_choice(Some("n")), RetrieveChoice::Skip);
    assert_eq!(retrieve_choice(Some("y")), RetrieveChoice::ShowDiff);
    assert_eq!(retrieve_choice(Some("d")), RetrieveChoice::Details);
    assert_eq!(retrieve_choice(Some("?")), RetrieveChoice::Help);
    assert_eq!(retrieve_choice(Some("Y")), RetrieveChoice::Invalid);
    let mut c = JsonOutputControl::new();
    assert_eq!(read_val_loop_step(&mut c, Some("d")), ValidationStep::ShowDetails);
    assert!(!c.validate_all);
    assert_eq!(read_val_loop_step(&mut c, Some("a")), ValidationStep::Continue);
    assert!(c.validate_all);
    assert_eq!(read_val_loop_step(&mut c, Some("v")), ValidationStep::Validate);
    assert_eq!(read_val_loop_step(&mut c, Some("N")), ValidationStep::Stop);
    assert_eq!(read_val_loop_step(&mut c, None), ValidationStep::Stop);
    assert_eq!(read_val_loop_step(&mut c, Some("zz")), ValidationStep::Invalid);
    assert!(c.validate_all);
}

#[test]
fn known_digests() {
    assert_eq!(calculate_md5(""), "d41d8cd98f00b204e9800998ecf8427e");
    assert_eq!(calculate_md5("hello"), "5d41402abc4b2a76b9719d911017c592");
    assert_eq!(calculate_hash(b""), "da39a3ee5e6b4b0d3255bfef95601890afd80709");
    assert_eq!(calculate_hash(b"abc"), "a9993e364706816aba3e25717850c26c9cd0d89d");
}

#[test]
fn contents_compare_after_base64() {
    assert!(contents_match(b"aGVsbG8=", b"hello", "base64"));
    assert!(!contents_match(b"aGVsbG8=", b"hello", "utf8"));
    assert!(contents_match(b"not base64!", b"not base64!", "base64"));
    assert!(contents_match(b"same", b"same", "utf8"));
}

#[test]
fn checksum_texts() {
    assert_eq!(checksum_text(b"plain", "utf8"), "plain");
    assert_eq!(checksum_text(&[0xff, 0x00], "base64"), "/wA=");
    assert_eq!(checksum_text(&[0xff], "utf8"), "\u{fffd}");
    assert!(checksums_match("plain", b"plain", "utf8"));
    assert!(!checksums_match("other", b"plain", "utf8"));
    assert!(checksums_match("/wA=", &[0xff, 0x00], "base64"));
}

#[test]
fn validation_records() {
    let f = fields();
    let o = retrieve_output("/f".to_string(), "now".to_string(), "me".to_string(), "utf8".to_string(), &f);
    assert_eq!(o.md5, "h1");
    assert_eq!(o.hash_val, "h1");
    assert_eq!(o.az_id, "cid");
    assert_eq!(o.az_create, "c");
    assert_eq!(o.az_updated, "");
    assert_eq!(o.az_name, "an");
    assert_eq!(o.hash_algo, "sha1");
    assert_eq!(o.destination_cloud, "azure_kv");
    let mut g = fields();
    g.hash = None;
    let c = cloud_validation_output("/f".to_string(), "id".to_string(), "sn".to_string(), "utf8".to_string(), &g, "now".to_string(), "me".to_string());
    assert_eq!(c.md5, "m1");
    assert_eq!(c.az_id, "id");
    assert_eq!(c.az_name, "sn");
    let secret = SecretRecord { name: "n".to_string(), id: "i".to_string(), value: "hello".to_string(), created: "c".to_string(), updated: "u".to_string() };
    let k = keyvault_validation_output("/f".to_string(), &secret, "now".to_string(), "me".to_string(), "utf8".to_string());
    assert_eq!(k.md5, "5d41402abc4b2a76b9719d911017c592");
    assert_eq!(k.hash_algo, "md5");
    assert_eq!(k.az_updated, "u");
}

#[test]
fn validation_routes_and_sources() {
    assert!(uses_object_store("r2"));
    assert!(uses_object_store("b2"));
    assert!(!uses_object_store("azure_kv"));
    assert_eq!(validation_object_key(&fields()), "secrets/h1");
    assert!(matches!(arg_source("/run/secret"), ValueSource::File(ref p) if p == "/run/secret"));
    assert!(matches!(arg_source("plain-id"), ValueSource::Given(ref p) if p == "plain-id"));
}

#[test]
fn env_file_secret_names() {
    assert_eq!(env_secret_name("/home/user/app/.env"), "home-user-app--env");
    assert_eq!(env_secret_name("//a_b"), "a-b");
    assert_eq!(env_secret_name("x-1"), "x-1");
}

#[test]
fn credential_arguments_name_their_source() {
    assert!(matches!(get_client_id(Some("abc-123")), Ok(ValueSource::Given(s)) if s == "abc-123"));
    assert!(matches!(get_client_id(Some("/run/secrets/id")), Ok(ValueSource::File(p)) if p == "/run/secrets/id"));
    assert!(matches!(get_client_id(None), Err(e) if e == "Client ID is required"));
    assert!(matches!(get_tenant_id(None), Err(e) if e == "Tenant ID is required"));
    assert!(matches!(get_tenant_id(Some("t")), Ok(ValueSource::Given(s)) if s == "t"));
    assert!(matches!(get_key_vault_name(None), Err(e) if e == "Key vault name is required"));
    assert!(matches!(get_key_vault_name(Some("vaults/name")), Ok(ValueSource::File(p)) if p == "vaults/name"));
}

#[test]
fn retrieval_tries_the_key_an_upload_used() {
    let mut f = fields();
    f.r2_name = Some("deadbeef".to_string());
    f.hash = Some("deadbeef".to_string());
    let keys = object_keys_for(&f);
    assert!(keys.contains(&object_key("deadbeef", None)));
    assert!(keys.contains(&object_key("deadbeef", Some("secrets"))));
    assert!(!keys.contains(&object_key("deadbeef", Some("backup"))));
}

#[test]
fn retrieval_keeps_the_entries_of_this_host() {
    assert!(retrieve_for_host(Some("box1"), "box1"));
    assert!(!retrieve_for_host(Some("box2"), "box1"));
    assert!(!retrieve_for_host(None, "box1"));
    assert!(retrieve_for_host(None, ""));
}
