use vstd::prelude::*;
use crate::text::copy_strings;

verus! {

/// How to start the program under test.
#[derive(Debug, Clone)]
pub struct LaunchPlan {
    pub exe: String,
    pub args: Vec<String>,
    /// Whether its standard output and error are shown (otherwise discarded).
    pub show_output: bool,
    /// Whether `perf stat` is attached to it.
    pub capture_perf: bool,
}

/// The arguments of a command: the given ones, or none.
pub open spec fn command_args(args: Option<Vec<String>>) -> Seq<String> {
    match args {
        Some(a) => a@,
        None => Seq::empty(),
    }
}

fn args_of(args: &Option<Vec<String>>) -> (r: Vec<String>)
    ensures
        r@ == command_args(*args),
{
    match args {
        Some(a) => copy_strings(a),
        None => Vec::new(),
    }
}

/// How to start an application's program, or `None` when it has no command;
/// output is shown and perf attached only when the settings say so.
pub fn launch_plan(app: &crate::config::App) -> (p: Option<LaunchPlan>)
    ensures
        p is None <==> app.command is None,
        p matches Some(plan) ==> {
            &&& plan.exe@ == app.command->0.first@
            &&& plan.args@ == command_args(app.command->0.args)
            &&& plan.show_output == (app.terminal == Some(true))
            &&& plan.capture_perf == (app.perf == Some(true))
        },
{
    let cmd = match &app.command {
        Some(c) => c,
        None => return None,
    };
    let show_output = match app.terminal {
        Some(b) => b,
        None => false,
    };
    let capture_perf = match app.perf {
        Some(b) => b,
        None => false,
    };
    Some(LaunchPlan { exe: cmd.first.clone(), args: args_of(&cmd.args), show_output, capture_perf })
}

/// The process to attach perf to: none when the process id is unknown (zero).
pub fn perf_target(pid: u32) -> (r: Option<u32>)
    ensures
        r == if pid == 0 {
            None
        } else {
            Some(pid)
        },
{
    if pid == 0 {
        None
    } else {
        Some(pid)
    }
}

/// How the process runner starts an application's program, which must have
/// a command and a perf setting.
pub fn runner_launch_plan(app: &crate::config_reader::App) -> (p: LaunchPlan)
    requires
        app.command is Some,
        app.perf is Some,
    ensures
        p.exe@ == app.command->0.first@,
        p.args@ == command_args(app.command->0.args),
        p.show_output == app.terminal,
        p.capture_perf == app.perf->0,
{
    let cmd = app.command.as_ref().unwrap();
    let capture_perf = match app.perf {
        Some(b) => b,
        None => false,
    };
    LaunchPlan {
        exe: cmd.first.clone(),
        args: args_of(&cmd.args),
        show_output: app.terminal,
        capture_perf,
    }
}

} // verus!
