use podman_compose_mgr::cmdline::{build_command_line, CliArg, CliItem, CliValue};

fn arg(name: &str, value: CliValue) -> CliArg {
    CliArg { name: name.to_string(), value }
}

#[test]
fn command_line_lists_set_arguments_by_name() {
    let args = vec![
        arg("verbose", CliValue::Json("2".to_string())),
        arg("path", CliValue::Str("/srv".to_string())),
        arg("dry_run", CliValue::Bool(true)),
        arg(
            "exclude_path_patterns",
            CliValue::Array(vec![CliItem::Str("a".to_string()), CliItem::Json("7".to_string())]),
        ),
        arg("tui", CliValue::Bool(false)),
        arg("podman_bin", CliValue::Null),
        arg("empty", CliValue::Str(String::new())),
        arg("none_listed", CliValue::Array(Vec::new())),
        arg("count", CliValue::Json("3".to_string())),
    ];
    assert_eq!(
        build_command_line("pcm", args),
        "pcm --count 3 --dry-run --exclude-path-patterns \"a\" --exclude-path-patterns 7 --path \"/srv\" --verbose --verbose"
    );
}

#[test]
fn verbose_that_is_not_a_count_adds_nothing() {
    let args = vec![
        arg("verbose", CliValue::Json("1.5".to_string())),
        arg("one_shot", CliValue::Bool(true)),
    ];
    assert_eq!(build_command_line("x", args), "x --one-shot");
    assert_eq!(build_command_line("x", Vec::new()), "x");
}
