use podman_compose_mgr::rebuild::{
    build_args_for, dockerfile_path, pull_args, rebuild_action, rebuild_prompt, rm_args, stop_args,
    Image, RebuildAction, RebuildManager,
};
use podman_compose_mgr::run::{restart_services, run_app, RunMode};
use podman_compose_mgr::prompt::unroll_grammar_into_string;

fn pair(a: &str, b: &str) -> (String, String) {
    (a.to_string(), b.to_string())
}

#[test]
fn services_are_asked_about_once() {
    let mut m = RebuildManager::new();
    let services = vec![pair("img", "c1"), pair("img", "c2"), pair("img", "c1")];
    let asked = m.plan_rebuild(&services);
    assert_eq!(asked, vec![pair("img", "c1"), pair("img", "c2")]);
    assert_eq!(m.images_checked.len(), 2);
    assert!(m.plan_rebuild(&services).is_empty());
    m.images_checked.push(Image { name: Some("other".to_string()), container: None, skipall_by_this_name: true });
    assert!(m.should_skip("other", "anything"));
    assert!(!m.should_skip("new", "c1"));
}

#[test]
fn rebuild_prompt_and_answers() {
    let g = rebuild_prompt("img", "/srv/app", "c1");
    assert_eq!(unroll_grammar_into_string(&g, false, false), "Refresh img from /srv/app? p/N/d/b/s/");
    assert_eq!(g.len(), 10);
    assert!(!g[9].display_at_all);
    assert_eq!(rebuild_action(Some("p")), RebuildAction::Pull);
    assert_eq!(rebuild_action(Some("N")), RebuildAction::Done);
    assert_eq!(rebuild_action(Some("b")), RebuildAction::Done);
    assert_eq!(rebuild_action(Some("d")), RebuildAction::Build);
    assert_eq!(rebuild_action(Some("s")), RebuildAction::Recreate);
    assert_eq!(rebuild_action(Some("?")), RebuildAction::Invalid);
    assert_eq!(rebuild_action(None), RebuildAction::Nothing);
}

#[test]
fn podman_commands() {
    assert_eq!(pull_args("img"), vec!["pull", "img"]);
    assert_eq!(stop_args("c"), vec!["stop", "c"]);
    assert_eq!(rm_args("c"), vec!["rm", "c"]);
    let args = vec!["A=1".to_string(), "B=2".to_string()];
    assert_eq!(
        build_args_for("img", "/d/Dockerfile", &args),
        vec!["build", "-t", "img", "-f", "/d/Dockerfile", "--build-arg", "A=1", "--build-arg", "B=2"]
    );
    assert_eq!(dockerfile_path("/d"), "/d/Dockerfile");
    assert_eq!(dockerfile_path("/d/"), "/d/Dockerfile");
    assert_eq!(dockerfile_path(""), "Dockerfile");
    let (prog, a) = restart_services();
    assert_eq!(prog, "podman");
    assert_eq!(a, vec!["restart", "-f", "docker-compose.yml"]);
}

#[test]
fn run_modes() {
    let p = run_app(Some("/usr/bin/podman"), 2, false, true, true);
    assert_eq!(p.podman_override.as_deref(), Some("/usr/bin/podman"));
    assert!(p.log_command_line);
    assert_eq!(p.mode, RunMode::OneShot);
    let p = run_app(None, 1, false, false, false);
    assert!(p.podman_override.is_none());
    assert!(!p.log_command_line);
    assert_eq!(p.mode, RunMode::CliLoop);
    assert_eq!(run_app(None, 0, true, true, true).mode, RunMode::Simulate);
    assert_eq!(run_app(None, 0, false, false, true).mode, RunMode::Tui);
}
