use podman_compose_mgr::prompt_check::{formatting_check, try_build_prompt_data};
use podman_compose_mgr::prompt::{
    add_choice_options, add_upload_choice_options, apply_user_input, build_prompt_data,
    do_prompt_formatting, make_fragment, process_user_input, prompt_fragments, resolve_stdin_wrapper,
    setup_retrieve_prompt, setup_upload_prompt, setup_validation_prompt, unroll_grammar_into_string,
    GrammarType, InputProcessResult, Prompt, PromptGrammar, ReadValResult,
};

#[test]
fn validation_prompt_text() {
    let mut g = Vec::new();
    setup_validation_prompt(&mut g, Ok("/etc/app.env")).unwrap();
    assert_eq!(unroll_grammar_into_string(&g, false, false), "Check /etc/app.env? d/N/v/a/?: ");
    let choices: Vec<&str> = g.iter().filter(|f| f.grammar_type == GrammarType::UserChoice).map(|f| f.original_val_for_prompt.as_deref().unwrap()).collect();
    assert_eq!(choices, vec!["d", "N", "v", "a", "?"]);
}

#[test]
fn upload_prompt_text() {
    let mut g = Vec::new();
    setup_upload_prompt(&mut g, "/f", "1.50", "KiB");
    assert_eq!(unroll_grammar_into_string(&g, false, false), "Upload 1.50 KiB for /f? d/y/N/?: ");
    let mut h = Vec::new();
    add_upload_choice_options(&mut h);
    assert_eq!(h.len(), 4);
    assert_eq!(h[0].pos, 4);
    let mut c = Vec::new();
    add_choice_options(&mut c);
    assert_eq!(c.len(), 5);
    assert_eq!(c[0].pos, 2);
}

#[test]
fn long_prompts_are_shortened() {
    let mut g = Vec::new();
    setup_validation_prompt(&mut g, Ok("/a/very/long/path/to/some/secret/file/that/does/not/fit.env")).unwrap();
    let full = unroll_grammar_into_string(&g, false, false);
    let shown = do_prompt_formatting(&mut g, 40);
    assert!(shown.len() < full.len());
    assert!(shown.starts_with("Check ..."));
    assert!(shown.ends_with("? d/N/v/a/?: "));
    let mut short = Vec::new();
    setup_validation_prompt(&mut short, Ok("/a")).unwrap();
    assert_eq!(do_prompt_formatting(&mut short, 80), "Check /a? d/N/v/a/?: ");
}

#[test]
fn prompt_data_collects_choices() {
    let mut g = Vec::new();
    setup_retrieve_prompt(&mut g, "/f", true);
    let data = build_prompt_data(&mut g, 120);
    assert!(data.prompt_string.contains("/f"));
    assert!(data.user_choices.contains(&"N".to_string()));
    match process_user_input("N", &data.user_choices) {
        InputProcessResult::Valid(v) => assert_eq!(v, "N"),
        _ => panic!("N is a choice"),
    }
    assert!(matches!(process_user_input("   ", &data.user_choices), InputProcessResult::Empty));
    assert!(matches!(process_user_input("zz", &data.user_choices), InputProcessResult::Invalid));
}

#[test]
fn answers_end_or_repeat_the_prompt() {
    let mut r = ReadValResult { user_entered_val: None, was_interrupted: false };
    assert!(!apply_user_input(&mut r, InputProcessResult::Invalid, &Some("N".to_string())));
    assert_eq!(r.user_entered_val, None);
    assert!(apply_user_input(&mut r, InputProcessResult::Empty, &Some("N".to_string())));
    assert_eq!(r.user_entered_val.as_deref(), Some("N"));
    assert!(apply_user_input(&mut r, InputProcessResult::Valid("y".to_string()), &None));
    assert_eq!(r.user_entered_val.as_deref(), Some("y"));
    let a = 1;
    let b = 2;
    assert_eq!(*resolve_stdin_wrapper(Some(&a), &b), 1);
    assert_eq!(*resolve_stdin_wrapper(None, &b), 2);
}

#[test]
fn structured_prompts_become_fragments() {
    let p = Prompt {
        full_prompt: "Migrate x".to_string(),
        grammar: vec![
            PromptGrammar { text: "Migrate".to_string(), can_shorten: false, display_at_all: true, suffix: " ".to_string() },
            PromptGrammar { text: "file_name".to_string(), can_shorten: true, display_at_all: true, suffix: "?".to_string() },
        ],
    };
    let f = prompt_fragments(&p);
    assert_eq!(f.len(), 2);
    assert_eq!(f[0].grammar_type, GrammarType::Verbiage);
    assert_eq!(f[1].grammar_type, GrammarType::FileName);
    assert_eq!(unroll_grammar_into_string(&f, false, false), "Migrate file_name?");
    let m = make_fragment("x", 3, Some("/"), GrammarType::UserChoice, false, true);
    assert_eq!(m.pos, 3);
    assert_eq!(m.suffix.as_deref(), Some("/"));
}

#[test]
fn prompt_data_only_when_the_layout_works() {
    let name = "é".repeat(30);
    let mut g = Vec::new();
    setup_validation_prompt(&mut g, Ok(name.as_str())).unwrap();
    assert!(!formatting_check(&g, 0));
    assert!(try_build_prompt_data(&mut g, 0).is_none());
    // 41 columns leave 15 bytes for the name: the cut would split a character.
    assert!(!formatting_check(&g, 41));
    assert!(try_build_prompt_data(&mut g, 41).is_none());
    assert!(g[1].shortened_val_for_prompt.is_none());
    // 40 columns leave 14 bytes: seven characters after the ellipsis.
    let data = try_build_prompt_data(&mut g, 40).unwrap();
    assert_eq!(data.prompt_string, format!("Check ...{}? d/N/v/a/?: ", "é".repeat(7)));
    let mut wide = Vec::new();
    setup_validation_prompt(&mut wide, Ok(name.as_str())).unwrap();
    let data = try_build_prompt_data(&mut wide, 200).unwrap();
    assert_eq!(data.prompt_string, format!("Check {}? d/N/v/a/?: ", name));
    assert_eq!(data.user_choices, vec!["d", "N", "v", "a", "?"]);
}

#[test]
fn a_default_fragment_is_shown_verbiage_followed_by_a_space() {
    let g = podman_compose_mgr::prompt::GrammarFragment::default();
    assert_eq!(g.original_val_for_prompt, None);
    assert_eq!(g.shortened_val_for_prompt, None);
    assert_eq!(g.pos, 0);
    assert_eq!(g.prefix, None);
    assert_eq!(g.suffix.as_deref(), Some(" "));
    assert_eq!(g.grammar_type, GrammarType::Verbiage);
    assert!(g.display_at_all);
    assert!(!g.can_shorten);
    assert!(!g.is_default_choice);
}

#[test]
fn fitting_prompt_is_left_as_it_is() {
    let mut g = Vec::new();
    setup_validation_prompt(&mut g, Ok("/etc/app.env")).unwrap();
    let full = unroll_grammar_into_string(&g, false, false);
    let before: Vec<(Option<String>, Option<String>, u8)> =
        g.iter().map(|f| (f.original_val_for_prompt.clone(), f.shortened_val_for_prompt.clone(), f.pos)).collect();
    assert_eq!(do_prompt_formatting(&mut g, 200), full);
    let after: Vec<(Option<String>, Option<String>, u8)> =
        g.iter().map(|f| (f.original_val_for_prompt.clone(), f.shortened_val_for_prompt.clone(), f.pos)).collect();
    assert_eq!(before, after);
}

#[test]
fn validation_prompt_without_a_file_name_keeps_check_and_fails() {
    let mut g = Vec::new();
    let r = setup_validation_prompt(&mut g, Err("no file_nm".to_string()));
    assert_eq!(r, Err("no file_nm".to_string()));
    assert_eq!(g.len(), 1);
    assert_eq!(g[0].original_val_for_prompt.as_deref(), Some("Check"));
    assert_eq!(g[0].suffix.as_deref(), Some(" "));
    assert_eq!(g[0].pos, 0);
}
