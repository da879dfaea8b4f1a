use podman_compose_mgr::compose::{compose_rebuild_pairs, compose_scan_rows, ComposeService, YamlField};

fn text(s: &str) -> YamlField {
    YamlField::Text(s.to_string())
}

fn service(name: Option<&str>, mapping: bool, image: YamlField, container: YamlField) -> ComposeService {
    ComposeService { name: name.map(str::to_string), is_mapping: mapping, image, container_name: container }
}

#[test]
fn scan_rows_take_the_container_name_or_the_service_name() {
    let services = vec![
        service(Some("web"), true, text("nginx"), text("web1")),
        service(Some("db"), true, text("postgres"), YamlField::Absent),
        service(Some("cache"), true, YamlField::Absent, text("c1")),
        service(Some("odd"), true, YamlField::Other, text("o1")),
        service(Some("list"), false, YamlField::Absent, YamlField::Absent),
        service(None, true, text("alpine"), YamlField::Other),
    ];
    assert_eq!(
        compose_scan_rows(&services),
        vec![
            ("nginx".to_string(), Some("web1".to_string())),
            ("postgres".to_string(), Some("db".to_string())),
            ("alpine".to_string(), None),
        ]
    );
}

#[test]
fn rebuild_pairs_need_image_and_container() {
    let services = vec![
        service(Some("web"), true, text("nginx"), text("web1")),
        service(Some("db"), true, text("postgres"), YamlField::Absent),
        service(Some("x"), true, YamlField::Absent, text("x1")),
        service(Some("y"), true, text("redis"), text("cache")),
    ];
    assert_eq!(
        compose_rebuild_pairs(&services),
        vec![("nginx".to_string(), "web1".to_string()), ("redis".to_string(), "cache".to_string())]
    );
}
