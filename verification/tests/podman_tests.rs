use podman_compose_mgr::podman::{
    digest_ref, inspect_created_args, local_images_from, refresh_time_from_output,
    split_repo_tag, ImageEntry,
};

#[test]
fn tag_references() {
    assert_eq!(split_repo_tag("localhost/djf/ffmpeg:latest"), Some(("localhost/djf/ffmpeg".to_string(), "latest".to_string())));
    assert_eq!(split_repo_tag("docker.io/library/alpine:3"), None);
    assert_eq!(split_repo_tag("localhost/x@sha256:abc"), None);
    assert_eq!(split_repo_tag("localhost/noversion"), None);
    assert_eq!(split_repo_tag("localhost:5000/a:b"), None);
}

#[test]
fn digest_references() {
    assert_eq!(digest_ref("localhost/djf/helper_x@sha256:1234"), Some(("localhost/djf/helper_x".to_string(), "latest".to_string())));
    assert_eq!(digest_ref("localhost/a:v1@sha256:1"), Some(("localhost/a".to_string(), "v1".to_string())));
    assert_eq!(digest_ref("quay.io/a@sha256:1"), None);
}

fn entry(tags: &[&str], names: &[&str], digests: &[&str], repo: Option<&str>, tag: Option<&str>) -> ImageEntry {
    ImageEntry {
        created_at: Some("2024-01-02T03:04:05Z".to_string()),
        repo_tags: tags.iter().map(|s| s.to_string()).collect(),
        names: names.iter().map(|s| s.to_string()).collect(),
        repo_digests: digests.iter().map(|s| s.to_string()).collect(),
        repository: repo.map(|s| s.to_string()),
        tag: tag.map(|s| s.to_string()),
    }
}

#[test]
fn parses_names_and_digests_for_localhost_images() {
    let entries = vec![
        entry(&[], &["localhost/djf/ffmpeg:latest"], &[], None, None),
        entry(&[], &[], &["localhost/djf/helper_x@sha256:ab"], None, None),
        entry(&[], &[], &[], Some("localhost/djf/ffmpeg_base"), Some("latest")),
        entry(&["localhost/djf/openssh:latest"], &["localhost/djf/openssh:latest"], &[], Some("docker.io/x"), Some("1")),
    ];
    let images = local_images_from(&entries);
    let names: Vec<String> = images.iter().map(|i| format!("{}:{}", i.repository, i.tag)).collect();
    assert!(names.contains(&"localhost/djf/ffmpeg:latest".to_string()));
    assert!(names.contains(&"localhost/djf/helper_x:latest".to_string()));
    assert!(names.contains(&"localhost/djf/ffmpeg_base:latest".to_string()));
    assert!(names.contains(&"localhost/djf/openssh:latest".to_string()));
    assert_eq!(names.len(), 5);
    assert_eq!(images[0].created, Some((1704164645, 0)));
}

#[test]
fn creation_times() {
    assert_eq!(refresh_time_from_output(true, b"1970-01-01T00:00:01Z", b""), Ok((1, 0)));
    assert!(refresh_time_from_output(true, b"yesterday", b"").is_err());
    assert_eq!(refresh_time_from_output(true, b"1970-01-01T00:01:00+00:00\n", b""), Ok((60, 0)));
    assert_eq!(refresh_time_from_output(false, b"", b"no such image"), Err("podman failed: no such image".to_string()));
    assert!(refresh_time_from_output(true, b"garbage", b"").unwrap_err().starts_with("Failed to parse date: "));
    assert!(refresh_time_from_output(true, &[0xff], b"").unwrap_err().starts_with("Failed to parse podman output: "));
    assert_eq!(inspect_created_args("img"), vec!["inspect", "--format", "{{.Created}}", "img"]);
}
