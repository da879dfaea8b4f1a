use podman_compose_mgr::quadlet::parse_container_file;

#[test]
fn quadlet_names_image_and_container() {
    let text = "[Unit]\nDescription=web\n\n[Container]\n  Image= docker.io/nginx:1.27 \nContainerName=web1\nImage=ignored\n";
    assert_eq!(
        parse_container_file(text),
        Some(("docker.io/nginx:1.27".to_string(), Some("web1".to_string())))
    );
    assert_eq!(parse_container_file("[Container]\nImage=alpine\n"), Some(("alpine".to_string(), None)));
    assert_eq!(parse_container_file("[Container]\nContainerName=x\n"), None);
    assert_eq!(parse_container_file(""), None);
}
