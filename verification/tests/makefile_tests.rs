use podman_compose_mgr::makefile::{parse_makefile_target_images, parse_makefile_targets};

const SAMPLE: &str = ".PHONY: all clean helper_x\n\nall:\n\tpodman build -f Dockerfile.m-openssh -t djf/m-openssh\n\tpodman build -f Dockerfile.m-ffmpeg_base -t djf/m-ffmpeg_base\n\tpodman build -f Dockerfile.m-ffmpeg -t djf/m-ffmpeg\n\tpodman build -t djf/m-helper_x \\\n\t\t--build-arg USERNAME=$(shell id -un) \\\n\t\t-f Dockerfile.m-helper_x\n\nhelper_x:\n\tpodman build -t djf/m-helper_x -f Dockerfile.m-helper_x\n\nffmpeg:\n\tpodman build -f Dockerfile.m-ffmpeg_base -t djf/m-ffmpeg_base\n\tpodman build -f Dockerfile.m-ffmpeg -t djf/m-ffmpeg\n\nssh:\n\tdocker build --tag=djf/m-openssh -f Dockerfile.m-openssh .\n\nclean:\n\t@:\n";

#[test]
fn parse_makefile_target_images_extracts_tags_per_target() {
    let parsed = parse_makefile_target_images(SAMPLE);
    assert_eq!(
        parsed.get("all"),
        Some(&vec![
            "djf/m-openssh".to_string(),
            "djf/m-ffmpeg_base".to_string(),
            "djf/m-ffmpeg".to_string(),
            "djf/m-helper_x".to_string(),
        ])
    );
    assert_eq!(parsed.get("helper_x"), Some(&vec!["djf/m-helper_x".to_string()]));
    assert_eq!(
        parsed.get("ffmpeg"),
        Some(&vec!["djf/m-ffmpeg_base".to_string(), "djf/m-ffmpeg".to_string()])
    );
    assert_eq!(parsed.get("ssh"), Some(&vec!["djf/m-openssh".to_string()]));
    assert_eq!(parsed.get("clean"), None);
}

#[test]
fn makefile_targets_are_sorted_and_unique() {
    let targets = parse_makefile_targets(SAMPLE);
    assert_eq!(targets, vec!["all", "clean", "ffmpeg", "helper_x", "ssh"]);
}

#[test]
fn makefile_targets_skip_special_and_pattern_rules() {
    let text = "VAR := 1\n.DEFAULT_GOAL := build\n%.o: %.c\n\tcc -c $<\nbuild test: deps\n\techo\n";
    let targets = parse_makefile_targets(text);
    assert_eq!(targets, vec!["build", "test"]);
}

#[test]
fn makefile_without_targets_has_no_images() {
    let parsed = parse_makefile_target_images("# nothing here\n");
    assert_eq!(parsed.len(), 0);
    assert_eq!(parse_makefile_targets(""), Vec::<String>::new());
}

#[test]
fn recipe_lines_add_new_images_to_each_current_target() {
    let text = "a b:\n\tpodman build -t img1 .\n\tpodman build -t img1 -t img2 .\nc:\n\tdocker build -t img3 .\n\techo done\n";
    let t = parse_makefile_target_images(text);
    assert_eq!(t.get("a").unwrap(), &vec!["img1".to_string(), "img2".to_string()]);
    assert_eq!(t.get("b").unwrap(), &vec!["img1".to_string(), "img2".to_string()]);
    assert_eq!(t.get("c").unwrap(), &vec!["img3".to_string()]);
    assert!(t.get("d").is_none());
}
