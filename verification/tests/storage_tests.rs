use podman_compose_mgr::secrets::models::FileDetails;
use podman_compose_mgr::secrets::storage::{
    b2_head_metadata, b2_upload_file, dummy_r2_config, read_value_from_file, FileText, exists_answer, finish_upload, get_bucket_name,
    is_real_client, mock_object_list, object_key, plan_b2_from_args, plan_r2_from_args,
    plan_s3_client, s3_head_metadata, upload_result, B2UploadPlan, CredentialsPlan,
    DefaultB2StorageClient, DefaultR2StorageClient, DirectUpload, ExistsPlan, HeadObject,
    R2UploadPlan, S3ClientSettings, S3Config, S3Provider, UploadPlan, ValueSource,
};

fn config(key: &str, app: &str, bucket: &str, provider: S3Provider, account: Option<&str>) -> S3Config {
    S3Config {
        key_id: key.to_string(),
        application_key: app.to_string(),
        bucket: bucket.to_string(),
        provider,
        account_id: account.map(|a| a.to_string()),
    }
}

fn live(bucket: &str) -> S3ClientSettings {
    S3ClientSettings {
        bucket_name: bucket.to_string(),
        provider_type: S3Provider::CloudflareR2,
        is_real_client: true,
        verbose: 0,
    }
}

fn details(bucket: Option<&str>, prefix: Option<&str>) -> FileDetails {
    FileDetails {
        file_path: "/tmp/secret.txt".to_string(),
        file_size: 42,
        encoded_size: 42,
        last_modified: String::new(),
        encoding: "utf8".to_string(),
        cloud_created: None,
        cloud_updated: None,
        cloud_type: None,
        hash: "abc123".to_string(),
        hash_algo: "sha1".to_string(),
        cloud_upload_bucket: bucket.map(|b| b.to_string()),
        cloud_prefix: prefix.map(|p| p.to_string()),
    }
}

fn lookup<'a>(m: &'a [(String, String)], k: &str) -> Option<&'a str> {
    m.iter().rev().find(|(a, _)| a == k).map(|(_, v)| v.as_str())
}

#[test]
fn dummy_config_makes_a_stand_in_client() {
    let c = config("dummy", "dummy", "dummy", S3Provider::CloudflareR2, None);
    assert!(!is_real_client(&c));
    let setup = plan_s3_client(c, 1).unwrap();
    assert_eq!(setup.endpoint, "https://mock-value.r2.cloudflarestorage.com");
    assert_eq!(setup.region, "auto");
    assert_eq!(setup.credentials_name, "R2StaticCredentials");
    assert!(!setup.settings.is_real_client);
    assert!(!setup.ensure_bucket);
    assert_eq!(setup.settings.verbose, 1);
}

#[test]
fn live_r2_client_needs_an_account_id() {
    let c = config("id", "key", "bucket", S3Provider::CloudflareR2, None);
    match plan_s3_client(c, 0) {
        Err(e) => assert_eq!(e, "Account ID is required for R2 storage"),
        Ok(_) => panic!("expected an error"),
    }
    let c = config("id", "key", "bucket", S3Provider::CloudflareR2, Some("acct"));
    let setup = plan_s3_client(c, 0).unwrap();
    assert_eq!(setup.endpoint, "https://acct.r2.cloudflarestorage.com");
    assert!(setup.ensure_bucket);
}

#[test]
fn b2_client_uses_the_backblaze_endpoint() {
    let c = config("id", "key", "placeholder_bucket_will_be_provided_from_json", S3Provider::BackblazeB2, None);
    let setup = plan_s3_client(c, 0).unwrap();
    assert_eq!(setup.endpoint, "https://s3.us-west-004.backblazeb2.com");
    assert_eq!(setup.region, "us-west-004");
    assert_eq!(setup.credentials_name, "B2StaticCredentials");
    assert!(setup.settings.is_real_client);
    assert!(!setup.ensure_bucket);
}

#[test]
fn object_keys_use_the_prefix() {
    assert_eq!(object_key("h", Some("p/q")), "p/q/h");
    assert_eq!(object_key("h", None), "h");
}

#[test]
fn upload_file_plans() {
    let mut s = live("bucket");
    s.is_real_client = false;
    match s.plan_upload_file("/tmp/a", "k", false).unwrap() {
        DirectUpload::Mock(m) => {
            assert_eq!(m.hash, "mock-hash-/tmp/a");
            assert_eq!(m.id, "mock-hash-/tmp/a");
            assert_eq!(m.bucket_id, "bucket");
            assert_eq!(m.name, "k");
            assert_eq!(m.created, "2025-01-01T00:00:00Z");
        }
        DirectUpload::Send { .. } => panic!("stand-in must not send"),
    }
    let p = live("placeholder_bucket_will_be_provided_from_json");
    assert_eq!(
        p.plan_upload_file("/tmp/a", "k", true).err().unwrap(),
        "Cannot upload directly with a placeholder bucket - use upload_file_with_details instead"
    );
    let l = live("bucket");
    assert_eq!(l.plan_upload_file("/tmp/a", "k", false).err().unwrap(), "Local file does not exist: /tmp/a");
    match l.plan_upload_file("/tmp/a", "k", true).unwrap() {
        DirectUpload::Send { bucket, key } => {
            assert_eq!(bucket, "bucket");
            assert_eq!(key, "k");
        }
        DirectUpload::Mock(_) => panic!("live client must send"),
    }
}

#[test]
fn upload_with_details_needs_a_bucket() {
    let l = live("bucket");
    assert_eq!(
        l.plan_upload_with_details(&details(None, None), true).err().unwrap(),
        "cloud_upload_bucket is required in JSON for B2/R2 storage"
    );
    let p = live("placeholder_bucket_will_be_provided_from_json");
    assert_eq!(
        p.plan_upload_with_details(&details(Some(""), None), true).err().unwrap(),
        "cloud_upload_bucket must be provided in JSON when using placeholder bucket configuration"
    );
}

#[test]
fn upload_with_details_to_the_entry_bucket() {
    let p = live("placeholder_bucket_will_be_provided_from_json");
    match p.plan_upload_with_details(&details(Some("real"), Some("pre")), false).unwrap() {
        UploadPlan::Send(q) => {
            assert_eq!(q.bucket, "real");
            assert_eq!(q.key, "pre/abc123");
            assert!(q.ensure_bucket_first);
            assert_eq!(lookup(&q.metadata, "bucket"), Some("real"));
            assert_eq!(lookup(&q.metadata, "encoding"), Some("binary"));
            assert_eq!(lookup(&q.metadata, "original-encoding"), Some("utf8"));
            assert_eq!(lookup(&q.metadata, "size"), Some("42"));
            assert_eq!(lookup(&q.metadata, "content-length"), Some("42"));
            assert_eq!(lookup(&q.metadata, "hash"), Some("abc123"));
            assert_eq!(q.metadata.len(), 8);
        }
        UploadPlan::Mock(_) => panic!("live client must send"),
    }
    let l = live("mine");
    match l.plan_upload_with_details(&details(Some("real"), None), true).unwrap() {
        UploadPlan::Send(q) => {
            assert_eq!(q.bucket, "mine");
            assert_eq!(q.key, "abc123");
            assert!(!q.ensure_bucket_first);
            assert_eq!(lookup(&q.metadata, "bucket"), Some("mine"));
        }
        UploadPlan::Mock(_) => panic!("live client must send"),
    }
    assert_eq!(
        l.plan_upload_with_details(&details(Some("real"), None), false).err().unwrap(),
        "Local file does not exist: /tmp/secret.txt"
    );
}

#[test]
fn stand_in_upload_with_details_answers_at_once() {
    let mut s = live("x");
    s.is_real_client = false;
    match s.plan_upload_with_details(&details(Some("b"), Some("p")), false).unwrap() {
        UploadPlan::Mock(m) => {
            assert_eq!(m.hash, "mock-hash-abc123");
            assert_eq!(m.bucket_id, "b");
            assert_eq!(m.name, "p/abc123");
        }
        UploadPlan::Send(_) => panic!("stand-in must not send"),
    }
}

#[test]
fn upload_results_drop_etag_quotes() {
    let r = upload_result(Some("\"abc\""), "b", "k", "now").unwrap();
    assert_eq!(r.hash, "abc");
    assert_eq!(r.id, "abc");
    assert_eq!(r.created, "now");
    assert_eq!(upload_result(None, "b", "k", "now").err().unwrap(), "No ETag in response");
    let f = finish_upload(Some("\"e\""), "b", "k").unwrap();
    assert_eq!(f.hash, "e");
    assert_eq!(f.created, f.updated);
}

fn head(length: Option<i64>, user: Option<Vec<(&str, &str)>>) -> HeadObject {
    HeadObject {
        content_type: Some("text/plain".to_string()),
        content_length: length,
        e_tag: Some("\"t\"".to_string()),
        last_modified: Some("then".to_string()),
        metadata: user.map(|u| u.into_iter().map(|(a, b)| (a.to_string(), b.to_string())).collect()),
    }
}

#[test]
fn head_metadata_takes_the_size_from_user_metadata() {
    let h = head(None, Some(vec![("file-size", "9"), ("content-length", "7")]));
    let m = s3_head_metadata(&h);
    assert_eq!(lookup(&m, "content_length"), Some("7"));
    assert_eq!(lookup(&m, "content-length"), Some("7"));
    assert_eq!(lookup(&m, "content_type"), Some("text/plain"));
    assert_eq!(lookup(&m, "etag"), Some("\"t\""));
    assert_eq!(lookup(&m, "last_modified"), Some("then"));
    let b = b2_head_metadata(&h);
    assert_eq!(lookup(&b, "content_length"), None);
    let h = head(Some(-5), Some(vec![("content_type", "override")]));
    let m = s3_head_metadata(&h);
    assert_eq!(lookup(&m, "content_length"), Some("-5"));
    assert_eq!(lookup(&m, "content_type"), Some("override"));
}

#[test]
fn existence_checks() {
    let l = live("mine");
    match l.plan_exists_check("h", None, Some("p")) {
        ExistsPlan::Ask { bucket, key } => {
            assert_eq!(bucket, "mine");
            assert_eq!(key, "p/h");
        }
        ExistsPlan::Known(_) => panic!("must ask"),
    }
    let p = live("placeholder_bucket_will_be_provided_from_json");
    assert!(matches!(p.plan_exists_check("h", None, None), ExistsPlan::Known(None)));
    match p.plan_exists_check("h", Some("b"), None) {
        ExistsPlan::Ask { bucket, key } => {
            assert_eq!(bucket, "b");
            assert_eq!(key, "h");
        }
        ExistsPlan::Known(_) => panic!("must ask"),
    }
    assert_eq!(exists_answer(false, Some("x")), Some((false, String::new(), String::new())));
    assert_eq!(exists_answer(true, None), Some((true, "Unknown".to_string(), "Unknown".to_string())));
    assert_eq!(exists_answer(true, Some("t")), Some((true, "t".to_string(), "t".to_string())));
}

#[test]
fn mock_listing_uses_the_prefix() {
    assert_eq!(mock_object_list("secrets/"), vec!["secrets/mock_file1.txt", "secrets/mock_file2.txt"]);
}

#[test]
fn r2_credentials_come_from_files_first() {
    let p = plan_r2_from_args(Some("/acct"), Some("acct"), Some("/kid"), Some("/k"), Some("kid"), Some("k"), Some("b")).unwrap();
    assert!(matches!(p.account_id, ValueSource::File(ref f) if f == "/acct"));
    match p.credentials {
        CredentialsPlan::Use { key_id, key, bucket_path } => {
            assert!(matches!(key_id, ValueSource::File(ref f) if f == "/kid"));
            assert!(matches!(key, ValueSource::File(ref f) if f == "/k"));
            assert_eq!(bucket_path, Ok("b".to_string()));
        }
        CredentialsPlan::Missing(_) => panic!("credentials given"),
    }
    assert_eq!(
        plan_r2_from_args(None, None, None, None, None, None, None).err().unwrap(),
        "R2 account ID is required"
    );
    let p = plan_r2_from_args(None, Some("acct"), None, Some("/k"), None, None, Some("b")).unwrap();
    assert!(matches!(p.credentials, CredentialsPlan::Missing(ref m) if m == "R2 credentials are required (either via files or direct parameters)"));
    let p = plan_r2_from_args(None, Some("acct"), None, None, Some("kid"), Some("k"), None).unwrap();
    match p.credentials {
        CredentialsPlan::Use { key_id, bucket_path, .. } => {
            assert!(matches!(key_id, ValueSource::Given(ref v) if v == "kid"));
            assert_eq!(bucket_path, Err("R2 bucket name is required".to_string()));
        }
        CredentialsPlan::Missing(_) => panic!("credentials given"),
    }
}

#[test]
fn b2_credentials_and_bucket_names() {
    assert!(matches!(
        plan_b2_from_args(None, None, None, None, Some("b")),
        CredentialsPlan::Missing(ref m) if m == "Either B2 account ID and key files or direct credentials are required"
    ));
    match plan_b2_from_args(None, None, Some("kid"), Some("key"), None) {
        CredentialsPlan::Use { bucket_path, .. } => {
            assert_eq!(bucket_path, Err("B2 bucket name is required".to_string()))
        }
        CredentialsPlan::Missing(_) => panic!("credentials given"),
    }
    assert_eq!(get_bucket_name("/path", Some(FileText::Text("  bucket-1\n".to_string()))), Ok("bucket-1".to_string()));
    assert_eq!(get_bucket_name("bucket-2", None), Ok("bucket-2".to_string()));
    assert_eq!(
        get_bucket_name("/etc", Some(FileText::ReadFailed("Is a directory (os error 21)".to_string()))),
        Err("Failed to read file: Is a directory (os error 21)".to_string())
    );
    assert_eq!(
        get_bucket_name("/root/b", Some(FileText::OpenFailed("Permission denied (os error 13)".to_string()))),
        Err("Failed to open file: Permission denied (os error 13)".to_string())
    );
    assert_eq!(read_value_from_file(FileText::Text("\tkey\n".to_string())), Ok("key".to_string()));
}

#[test]
fn default_clients_stand_in_answers() {
    let r2 = DefaultR2StorageClient::new_dummy();
    assert!(!r2.is_real_client);
    assert_eq!(r2.client.bucket_name, "dummy");
    let c = dummy_r2_config();
    assert_eq!(c.account_id, "dummy");
    match r2.plan_upload(&details(None, None), false).unwrap() {
        R2UploadPlan::Done(u) => {
            assert_eq!(u.hash, "mock-hash-abc123");
            assert_eq!(u.id, "mock-id-abc123");
            assert_eq!(u.bucket_id, "mock-bucket");
            assert_eq!(u.name, "secrets/abc123");
        }
        R2UploadPlan::Client(_) => panic!("stand-in must answer"),
    }
    assert!(matches!(
        r2.plan_exists("h", None),
        ExistsPlan::Known(Some((true, ref a, ref b))) if a == "2025-01-01T00:00:00Z" && b == "2025-01-01T00:00:00Z"
    ));
    let live_r2 = DefaultR2StorageClient::new(live("mine"));
    assert!(matches!(live_r2.plan_upload(&details(None, None), true), Err(ref e) if e == "cloud_upload_bucket is required in JSON for B2/R2 storage"));
}

#[test]
fn b2_default_client_plans() {
    let d = DefaultB2StorageClient::new_dummy();
    assert!(matches!(d.plan_upload(&details(None, None), false), Ok(B2UploadPlan::Done(ref u)) if u.name == "secrets/abc123"));
    let l = DefaultB2StorageClient::new("mine".to_string());
    let mut fd = details(Some("bk"), None);
    fd.encoding = "base64".to_string();
    match l.plan_upload(&fd, true).unwrap() {
        B2UploadPlan::Send(q) => {
            assert_eq!(q.bucket, "mine");
            assert_eq!(q.key, "bk/secrets/abc123");
            assert_eq!(q.file_path, "/tmp/secret.txt.base64");
            assert_eq!(lookup(&q.metadata, "encoding"), Some("base64"));
            assert_eq!(lookup(&q.metadata, "bucket"), Some("bk"));
        }
        B2UploadPlan::Done(_) => panic!("live client must send"),
    }
    assert_eq!(
        l.plan_upload(&fd, false).err().unwrap(),
        "Local file does not exist: /tmp/secret.txt.base64"
    );
    match l.plan_exists("h", None) {
        ExistsPlan::Ask { bucket, key } => {
            assert_eq!(bucket, "mine");
            assert_eq!(key, "h");
        }
        ExistsPlan::Known(_) => panic!("must ask"),
    }
}

#[test]
fn a_client_can_be_pointed_at_another_bucket() {
    let mut s = live("placeholder-bucket");
    let before = s.provider_type();
    s.set_bucket_name("real-bucket".to_string());
    assert_eq!(s.bucket_name, "real-bucket");
    assert_eq!(s.provider_type(), before);
    match s.plan_exists_check("h", None, None) {
        ExistsPlan::Ask { bucket, key } => {
            assert_eq!(bucket, "real-bucket");
            assert_eq!(key, "h");
        }
        ExistsPlan::Known(_) => panic!("a live client with a real bucket asks the store"),
    }
}

#[test]
fn b2_sends_the_base64_copy_of_base64_files() {
    let mut d = details(Some("bk"), None);
    assert_eq!(b2_upload_file(&d), "/tmp/secret.txt");
    d.encoding = "base64".to_string();
    assert_eq!(b2_upload_file(&d), "/tmp/secret.txt.base64");
}
