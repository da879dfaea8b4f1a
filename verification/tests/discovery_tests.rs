use podman_compose_mgr::discovery::{
    build_dockerfile_rows, build_makefile_rows, compile_regexes, makefile_parent_label,
    neighbor_image_and_quadlet, should_keep_path, ComposeInfo, ContainerInfo, DirInfo, FileKind,
    FsDiscovery, InferenceSource, ScanOptions,
};

fn opts(inc: &[&str], exc: &[&str]) -> ScanOptions {
    ScanOptions {
        root: "/srv".to_string(),
        include_patterns: inc.iter().map(|s| s.to_string()).collect(),
        exclude_patterns: exc.iter().map(|s| s.to_string()).collect(),
    }
}

#[test]
fn patterns_decide_which_paths_are_kept() {
    let ex = vec!["node_modules".to_string()];
    let inc = vec!["^/srv/a".to_string(), "^/srv/b".to_string()];
    assert!(should_keep_path("/srv/a/x", &ex, &inc));
    assert!(!should_keep_path("/srv/a/node_modules/x", &ex, &inc));
    assert!(!should_keep_path("/srv/c/x", &ex, &inc));
    assert!(should_keep_path("/srv/c/x", &ex, &Vec::new()));
    assert!(compile_regexes(&inc).is_ok());
    assert!(compile_regexes(&vec!["(".to_string()]).is_err());
    assert!(FsDiscovery::new(&opts(&["("], &[])).is_err());
}

#[test]
fn files_are_classified() {
    let d = FsDiscovery::new(&opts(&[], &["skip"])).unwrap();
    assert_eq!(d.classify("/srv/a/docker-compose.yml", true), FileKind::Compose);
    assert_eq!(d.classify("/srv/a/web.container", true), FileKind::Container);
    assert_eq!(d.classify("/srv/a/Dockerfile.web", true), FileKind::Dockerfile);
    assert_eq!(d.classify("/srv/a/Makefile", true), FileKind::Makefile);
    assert_eq!(d.classify("/srv/a/README", true), FileKind::Skip);
    assert_eq!(d.classify("/srv/a/Makefile", false), FileKind::Skip);
    assert_eq!(d.classify("/srv/skip/Makefile", true), FileKind::Skip);
}

#[test]
fn scan_collects_rows_once_and_sorts_them() {
    let mut d = FsDiscovery::new(&opts(&[], &[])).unwrap();
    let services = vec![
        ("img/b".to_string(), Some("b1".to_string())),
        ("img/a".to_string(), None),
        ("img/b".to_string(), Some("b1".to_string())),
    ];
    d.add_compose("/srv/x/docker-compose.yml", &services);
    d.add_container("/srv/y/app.container", Some(("img/a".to_string(), Some("app".to_string()))));
    d.add_dockerfile("/srv/x/Dockerfile");
    d.add_makefile("/srv/y/Makefile", Some("build:\n\tpodman build -t img/a .\n"));
    assert_eq!(d.rows.len(), 3);
    assert_eq!(d.dirs.len(), 2);
    let r = d.finish();
    let images: Vec<(&str, Option<&str>)> = r.images.iter().map(|i| (i.image.as_str(), i.container.as_deref())).collect();
    assert_eq!(images, vec![("img/a", None), ("img/a", Some("app")), ("img/b", Some("b1"))]);
    assert_eq!(r.dockerfiles.len(), 1);
    let df = &r.dockerfiles[0];
    assert_eq!(df.basename, "Dockerfile");
    assert_eq!(df.source_dir, "/srv/x");
    assert_eq!(df.neighbor_file_count, 1);
    assert!(matches!(df.neighbor_image, Some((InferenceSource::Compose, ref i)) if i == "img/b"));
    assert_eq!(r.makefiles.len(), 1);
    let mf = &r.makefiles[0];
    assert_eq!(mf.basename, "y: build");
    assert_eq!(mf.make_target.as_deref(), Some("build"));
    assert_eq!(mf.target_images, vec!["img/a".to_string()]);
    assert_eq!(mf.quadlet_basename.as_deref(), Some("app.container"));
    assert!(matches!(mf.neighbor_image, Some((InferenceSource::Quadlet, ref i)) if i == "img/a"));
}

#[test]
fn unreadable_makefile_gets_the_default_row() {
    let mut d = FsDiscovery::new(&opts(&[], &[])).unwrap();
    d.add_makefile("/srv/z/Makefile", None);
    d.add_makefile("/srv/z/sub.mk", Some("# no targets\n"));
    let r = d.finish();
    let names: Vec<&str> = r.makefiles.iter().map(|m| m.basename.as_str()).collect();
    assert_eq!(names, vec!["z: (default)", "z: (default)"]);
    assert!(r.makefiles.iter().all(|m| m.make_target.is_none() && m.neighbor_image.is_none()));
    assert!(r.makefiles[0].makefile_path < r.makefiles[1].makefile_path);
}

#[test]
fn parent_labels() {
    assert_eq!(makefile_parent_label("/srv/app/Makefile"), "app");
    assert_eq!(makefile_parent_label("Makefile"), "");
    assert_eq!(makefile_parent_label("/"), "Makefile");
}

#[test]
fn neighbors_need_a_single_build_file_and_neighbor() {
    let info = DirInfo {
        dockerfiles: vec!["/d/Dockerfile".to_string(), "/d/Dockerfile.b".to_string()],
        makefiles: Vec::new(),
        compose_files: vec![ComposeInfo { first_image: Some("i".to_string()) }],
        container_files: Vec::new(),
    };
    let (n, q) = neighbor_image_and_quadlet(&info, 1);
    assert!(n.is_none() && q.is_none());
    let dirs = vec![("/d".to_string(), info)];
    let rows = build_dockerfile_rows(&dirs);
    let names: Vec<&str> = rows.iter().map(|r| r.basename.as_str()).collect();
    assert_eq!(names, vec!["Dockerfile", "Dockerfile.b"]);
    assert!(rows.iter().all(|r| r.total_dockerfiles_in_dir == 2));
    assert!(build_makefile_rows(&dirs).is_empty());
    let info = DirInfo {
        dockerfiles: vec!["/e/Dockerfile".to_string()],
        makefiles: Vec::new(),
        compose_files: Vec::new(),
        container_files: vec![ContainerInfo { path: "/e/x.container".to_string(), image: None }],
    };
    let (n, q) = neighbor_image_and_quadlet(&info, 1);
    assert!(n.is_none() && q.is_none());
}

#[test]
fn each_makefile_gives_a_row_per_target_or_one_row() {
    let mut d = FsDiscovery::new(&opts(&[], &[])).unwrap();
    d.add_makefile("/srv/m/Makefile", Some("build:\n\techo b\ntest:\n\techo t\n"));
    d.add_makefile("/srv/m/extra.mk", Some("# nothing here\n"));
    let r = d.finish();
    let rows_for = |p: &str| r.makefiles.iter().filter(|m| m.makefile_path == p && m.source_dir == "/srv/m").count();
    assert_eq!(rows_for("/srv/m/Makefile"), 2);
    assert_eq!(rows_for("/srv/m/extra.mk"), 1);
    assert_eq!(r.makefiles.len(), 3);
    assert!(r.makefiles.iter().all(|m| m.total_makefiles_in_dir == 2));
}

#[test]
fn dockerfiles_with_one_name_keep_their_directory_order() {
    let dir = |p: &str| DirInfo {
        dockerfiles: vec![format!("{p}/Dockerfile")],
        makefiles: Vec::new(),
        compose_files: Vec::new(),
        container_files: Vec::new(),
    };
    let dirs = vec![("/srv/b".to_string(), dir("/srv/b")), ("/srv/a".to_string(), dir("/srv/a"))];
    let rows = build_dockerfile_rows(&dirs);
    let sources: Vec<&str> = rows.iter().map(|r| r.source_dir.as_str()).collect();
    assert_eq!(sources, vec!["/srv/b", "/srv/a"]);
}

#[test]
fn only_a_real_container_extension_counts() {
    let d = FsDiscovery::new(&opts(&[], &[])).unwrap();
    assert_eq!(d.classify("/srv/a/.container", true), FileKind::Skip);
    assert_eq!(d.classify("/srv/a/x.y.container", true), FileKind::Container);
    assert_eq!(d.classify("/srv/a/container", true), FileKind::Skip);
}
