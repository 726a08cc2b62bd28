//! The freshness gate (`wr`): decides, from the state the daemon wrote,
//! whether a target's output may run now, must be waited for, or may not
//! run. Polling the state file and running the output are left to the
//! program.

use vstd::prelude::*;
use vstd::string::*;
use crate::state::{ProjectState, ProjectStateView, TargetState, TargetStateView, BuildResult, find_target};
use crate::text::{str_eq, signed_decimal, i64_to_decimal};

verus! {

/// What `wr` does next.
#[derive(Debug)]
pub enum GateAction {
    /// Run the target's output (a path relative to the project root).
    Run { output_path: String },
    /// Print the message on stderr and exit with the code.
    Exit { code: i32, message: String },
    /// Sleep briefly and look at the state again.
    Wait,
    /// Fail with the message.
    Fail { message: String },
}

/// The mathematical value of a [`GateAction`].
pub enum GateView {
    Run { output_path: Seq<char> },
    Exit { code: i32, message: Seq<char> },
    Wait,
    Fail { message: Seq<char> },
}

impl View for GateAction {
    type V = GateView;

    open spec fn view(&self) -> GateView {
        match self {
            GateAction::Run { output_path } => GateView::Run { output_path: output_path@ },
            GateAction::Exit { code, message } => GateView::Exit { code: *code, message: message@ },
            GateAction::Wait => GateView::Wait,
            GateAction::Fail { message } => GateView::Fail { message: message@ },
        }
    }
}

/// The message for a failed last build.
pub open spec fn failure_message(exit_code: i32, error_summary: Option<Seq<char>>) -> Seq<char> {
    match error_summary {
        Some(e) => "Build failed (exit "@ + signed_decimal(exit_code as int) + "): "@ + e,
        None => "Build failed with exit code "@ + signed_decimal(exit_code as int),
    }
}

/// The decision of `wr` for target `t`, whose state is `ts` (`None` when the
/// state has no entry for it), given whether it may wait and whether its
/// waiting time is over.
pub open spec fn gate_spec(t: Seq<char>, ts: Option<TargetStateView>, no_wait: bool, timed_out: bool) -> GateView {
    match ts {
        None => GateView::Fail { message: "Target '"@ + t + "' not found in state"@ },
        Some(s) => if s.status == "ready"@ {
            match s.last_build {
                Some(b) => if b.exit_code == 0 {
                    match b.output_path {
                        Some(p) => GateView::Run { output_path: p },
                        None => GateView::Fail { message: "Target has no output_path"@ },
                    }
                } else {
                    GateView::Exit { code: b.exit_code, message: failure_message(b.exit_code, b.error_summary) }
                },
                None => GateView::Exit {
                    code: 1,
                    message: "Target '"@ + t + "' has no build history yet\nTrigger a build with: buildwatch build "@
                        + t,
                },
            }
        } else if s.status == "building"@ {
            if no_wait {
                GateView::Exit { code: 1, message: "Target '"@ + t + "' is currently building (--no-wait)"@ }
            } else if timed_out {
                GateView::Fail { message: "Timeout waiting for '"@ + t + "' to finish building"@ }
            } else {
                GateView::Wait
            }
        } else if s.status == "failed"@ {
            match s.last_build {
                Some(b) => GateView::Exit { code: b.exit_code, message: failure_message(b.exit_code, b.error_summary) },
                None => GateView::Exit { code: 1, message: "Target '"@ + t + "' is in failed state"@ },
            }
        } else if s.status == "pending"@ {
            if no_wait {
                GateView::Exit { code: 1, message: "Target '"@ + t + "' is pending build (--no-wait)"@ }
            } else if timed_out {
                GateView::Fail { message: "Timeout waiting for '"@ + t + "' build"@ }
            } else {
                GateView::Wait
            }
        } else {
            GateView::Fail { message: "Unknown target status: "@ + s.status }
        },
    }
}

/// The state of target `name` in `ps`, if it has an entry.
pub open spec fn target_state_of(ps: ProjectStateView, name: Seq<char>) -> Option<TargetStateView> {
    let k = find_target(ps.targets, name);
    if k >= 0 {
        Some(ps.targets[k].1)
    } else {
        None
    }
}

/// Returns `prefix + name + suffix`.
fn wrap(prefix: &str, name: &str, suffix: &str) -> (res: String)
    ensures
        res@ == prefix@ + name@ + suffix@,
{
    let mut res = String::from_str(prefix);
    res.append(name);
    res.append(suffix);
    res
}

/// Returns the message for a failed last build.
fn failure_text(build: &BuildResult) -> (res: String)
    ensures
        res@ == failure_message(build.exit_code, build.error_summary.deep_view()),
{
    let code = i64_to_decimal(build.exit_code as i64);
    match &build.error_summary {
        Some(e) => {
            let mut res = String::from_str("Build failed (exit ");
            res.append(code.as_str());
            res.append("): ");
            res.append(e.as_str());
            res
        },
        None => {
            let mut res = String::from_str("Build failed with exit code ");
            res.append(code.as_str());
            res
        },
    }
}

/// Decide what `wr` does for `target` given the project state: run the
/// output only after a successful build of a ready target, wait while the
/// target is building or pending (unless told not to wait, or out of
/// time), and otherwise report why it cannot run.
pub fn gate_decision(state: &ProjectState, target: &String, no_wait: bool, timed_out: bool) -> (res: GateAction)
    ensures
        res@ == gate_spec(target@, target_state_of(state@, target@), no_wait, timed_out),
{
    proof {
        crate::state::lemma_find_target(state@.targets, target@);
    }
    let t = target.as_str();
    let k = match state.find_entry(target) {
        Some(k) => k,
        None => {
            return GateAction::Fail { message: wrap("Target '", t, "' not found in state") };
        },
    };
    let ts: &TargetState = &state.targets[k].1;
    let ghost sv = ts@;
    assert(target_state_of(state@, target@) == Some(sv));
    let status = ts.status.as_str();
    if str_eq(status, "ready") {
        match &ts.last_build {
            Some(b) => {
                if b.exit_code == 0 {
                    match &b.output_path {
                        Some(p) => GateAction::Run { output_path: p.clone() },
                        None => GateAction::Fail { message: String::from_str("Target has no output_path") },
                    }
                } else {
                    GateAction::Exit { code: b.exit_code, message: failure_text(b) }
                }
            },
            None => {
                let mut message = wrap("Target '", t, "' has no build history yet\nTrigger a build with: buildwatch build ");
                message.append(t);
                GateAction::Exit { code: 1, message }
            },
        }
    } else if str_eq(status, "building") {
        if no_wait {
            GateAction::Exit { code: 1, message: wrap("Target '", t, "' is currently building (--no-wait)") }
        } else if timed_out {
            GateAction::Fail { message: wrap("Timeout waiting for '", t, "' to finish building") }
        } else {
            GateAction::Wait
        }
    } else if str_eq(status, "failed") {
        match &ts.last_build {
            Some(b) => GateAction::Exit { code: b.exit_code, message: failure_text(b) },
            None => GateAction::Exit { code: 1, message: wrap("Target '", t, "' is in failed state") },
        }
    } else if str_eq(status, "pending") {
        if no_wait {
            GateAction::Exit { code: 1, message: wrap("Target '", t, "' is pending build (--no-wait)") }
        } else if timed_out {
            GateAction::Fail { message: wrap("Timeout waiting for '", t, "' build") }
        } else {
            GateAction::Wait
        }
    } else {
        let mut message = String::from_str("Unknown target status: ");
        message.append(status);
        GateAction::Fail { message }
    }
}

// --- Laws ---

/// `wr` runs a target's output only when the target is ready and its
/// last build succeeded, and it runs that build's output.
pub proof fn law_gate_runs_only_fresh_success(t: Seq<char>, ts: Option<TargetStateView>, no_wait: bool, timed_out: bool)
    ensures
        gate_spec(t, ts, no_wait, timed_out) is Run ==> {
            &&& ts is Some
            &&& ts->0.status == "ready"@
            &&& ts->0.last_build is Some
            &&& ts->0.last_build->0.exit_code == 0
            &&& ts->0.last_build->0.output_path == Some(gate_spec(t, ts, no_wait, timed_out)->output_path)
        },
{
}

/// `wr` waits only for a building or pending target, only when allowed
/// to wait, and only while its time is not over.
pub proof fn law_gate_waits_only_when_allowed(t: Seq<char>, ts: Option<TargetStateView>, no_wait: bool, timed_out: bool)
    ensures
        gate_spec(t, ts, no_wait, timed_out) is Wait ==> {
            &&& ts is Some
            &&& ts->0.status == "building"@ || ts->0.status == "pending"@
            &&& !no_wait
            &&& !timed_out
        },
{
}


/// While a target's build is pending or running, `wr` waits for it when it
/// may wait (no `--no-wait`) and its time is not over.
pub proof fn law_gate_waits_for_unfinished_build(t: Seq<char>, s: TargetStateView)
    requires
        s.status == "pending"@ || s.status == "building"@,
    ensures
        gate_spec(t, Some(s), false, false) == GateView::Wait,
{
    reveal_strlit("ready");
    reveal_strlit("building");
    reveal_strlit("pending");
    reveal_strlit("failed");
    assert("ready"@.len() == 5);
    assert("building"@.len() == 8);
    assert("pending"@.len() == 7);
    assert("failed"@.len() == 6);
    assert("pending"@[0] != "building"@[0]);
}

} // verus!
