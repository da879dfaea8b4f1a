//! How a run of the program goes: which mode runs, and the commands it
//! hands to podman.

use vstd::prelude::*;
use crate::text::copy_str;

verus! {

/// The part of the program a run goes to.
#[derive(Clone, Copy, Debug, PartialEq, Eq, Structural)]
pub enum RunMode {
    /// Show a simulated terminal view.
    Simulate,
    /// Do one pass and stop.
    OneShot,
    /// The terminal interface.
    Tui,
    /// The command-line loop.
    CliLoop,
}

/// What a run does before its mode: the podman binary to use instead of
/// the default one, whether the command line is logged, and the mode.
pub struct RunPlan {
    pub podman_override: Option<String>,
    pub log_command_line: bool,
    pub mode: RunMode,
}

/// What the parts of a run share: the arguments, the logger and the
/// services they call.
pub struct Env<'a, A, L, S> {
    pub args: &'a A,
    pub logger: &'a L,
    pub services: &'a S,
}

/// Plans a run (`run_app`): the given podman binary, the command line
/// logged from verbosity 2, and the first of simulation, one-shot, TUI,
/// else the command-line loop.
pub fn run_app(podman_bin: Option<&str>, verbose: u8, tui_simulate: bool, one_shot: bool, tui: bool) -> (p: RunPlan)
    ensures
        crate::secrets::models::ov(p.podman_override) == match podman_bin {
            Some(b) => Some(b@),
            None => None,
        },
        p.log_command_line == (verbose >= 2),
        p.mode == (if tui_simulate {
            RunMode::Simulate
        } else if one_shot {
            RunMode::OneShot
        } else if tui {
            RunMode::Tui
        } else {
            RunMode::CliLoop
        }),
{
    let mode = if tui_simulate {
        RunMode::Simulate
    } else if one_shot {
        RunMode::OneShot
    } else if tui {
        RunMode::Tui
    } else {
        RunMode::CliLoop
    };
    RunPlan {
        podman_override: match podman_bin {
            Some(b) => Some(copy_str(b)),
            None => None,
        },
        log_command_line: verbose >= 2,
        mode,
    }
}

/// The podman command that restarts the services of the compose file in
/// the current directory (`restart_services`): program and arguments.
pub fn restart_services() -> (r: (String, Vec<String>))
    ensures
        r.0@ == "podman"@,
        r.1.len() == 3,
        r.1@[0]@ == "restart"@,
        r.1@[1]@ == "-f"@,
        r.1@[2]@ == "docker-compose.yml"@,
{
    let mut args = Vec::new();
    args.push("restart".to_owned());
    args.push("-f".to_owned());
    args.push("docker-compose.yml".to_owned());
    ("podman".to_owned(), args)
}

} // verus!
