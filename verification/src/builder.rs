//! The decisions of the build engine: which targets a build request runs,
//! and what result a finished build process records. Spawning the process,
//! waiting for it and capturing its output are left to the program.

use vstd::prelude::*;
use vstd::string::*;
use crate::config::{Config, TargetConfig};
use crate::state::{BuildResult, BuildResultView};
use crate::text::{join, join_strings, clone_strings, decimal, u64_to_decimal};

verus! {

/// Maximum lines of stderr kept for a build's error summary.
pub const ERROR_SUMMARY_LINES: usize = 5;

/// How a build process ended.
#[derive(Debug)]
pub enum ProcessOutcome {
    /// The process exited; its exit code, if it had one.
    Exited(Option<i32>),
    /// Waiting for the process failed, with this error text.
    WaitFailed(String),
    /// The process did not finish within the build timeout.
    TimedOut,
}

/// The index of the first of `targets` named `name`, or -1.
pub open spec fn find_target_index(targets: Seq<TargetConfig>, name: Seq<char>) -> int
    decreases targets.len(),
{
    if targets.len() == 0 {
        -1
    } else {
        let r = find_target_index(targets.drop_last(), name);
        if r >= 0 {
            r
        } else if targets.last().name@ == name {
            targets.len() - 1
        } else {
            -1
        }
    }
}

proof fn lemma_find_target_index(targets: Seq<TargetConfig>, name: Seq<char>)
    ensures
        -1 <= find_target_index(targets, name) < targets.len(),
        find_target_index(targets, name) >= 0 ==> targets[find_target_index(targets, name)].name@ == name,
        forall|i: int| 0 <= i < targets.len() && (find_target_index(targets, name) == -1 || i < find_target_index(targets, name))
            ==> (#[trigger] targets[i]).name@ != name,
    decreases targets.len(),
{
    if targets.len() > 0 {
        lemma_find_target_index(targets.drop_last(), name);
        assert forall|i: int| 0 <= i < targets.len() - 1 implies targets[i] == targets.drop_last()[i] by {}
    }
}

/// Returns the index of the first configured target named `name`.
pub fn find_target(config: &Config, name: &str) -> (res: Option<usize>)
    ensures
        match res {
            Some(k) => k as int == find_target_index(config.targets@, name@),
            None => find_target_index(config.targets@, name@) == -1,
        },
{
    let ghost ts = config.targets@;
    proof {
        lemma_find_target_index(ts, name@);
    }
    let wanted = String::from_str(name);
    let mut i: usize = 0;
    while i < config.targets.len()
        invariant
            i <= ts.len(),
            ts == config.targets@,
            wanted@ == name@,
            -1 <= find_target_index(ts, name@) < ts.len(),
            find_target_index(ts, name@) >= 0 ==> ts[find_target_index(ts, name@)].name@ == name@,
            forall|k: int| 0 <= k < ts.len() && (find_target_index(ts, name@) == -1 || k < find_target_index(ts, name@))
                ==> (#[trigger] ts[k]).name@ != name@,
            forall|k: int| 0 <= k < i ==> (#[trigger] ts[k]).name@ != name@,
        decreases config.targets.len() - i,
    {
        if config.targets[i].name == wanted {
            assert(ts[i as int].name@ == name@);
            return Some(i);
        }
        i = i + 1;
    }
    None
}

/// The indices, in order, of the enabled targets.
pub open spec fn enabled_indices(targets: Seq<TargetConfig>) -> Seq<usize>
    decreases targets.len(),
{
    if targets.len() == 0 {
        Seq::empty()
    } else {
        let e = enabled_indices(targets.drop_last());
        if targets.last().enabled {
            e.push((targets.len() - 1) as usize)
        } else {
            e
        }
    }
}

/// Why a manual build could not start.
#[derive(Debug)]
pub enum ManualBuildError {
    /// No configured target has the requested name.
    TargetNotFound(String),
}

/// Choose the targets of `buildwatch build [target]`: the first target with
/// the given name (an error when there is none), or every enabled target
/// when no name is given.
pub fn select_manual_targets(config: &Config, target_name: Option<&str>) -> (res: Result<Vec<usize>, ManualBuildError>)
    ensures
        match target_name {
            Some(name) => match res {
                Ok(v) => find_target_index(config.targets@, name@) >= 0 && v@ == seq![
                    find_target_index(config.targets@, name@) as usize,
                ],
                Err(ManualBuildError::TargetNotFound(n)) => find_target_index(config.targets@, name@) == -1
                    && n@ == name@,
            },
            None => (res matches Ok(v) && v@ == enabled_indices(config.targets@)),
        },
{
    match target_name {
        Some(name) => match find_target(config, name) {
            Some(k) => {
                let v = vec![k];
                assert(v@ =~= seq![k]);
                Ok(v)
            },
            None => Err(ManualBuildError::TargetNotFound(String::from_str(name))),
        },
        None => {
            let ghost ts = config.targets@;
            let mut v: Vec<usize> = Vec::new();
            let mut i: usize = 0;
            while i < config.targets.len()
                invariant
                    i <= ts.len(),
                    ts == config.targets@,
                    v@ == enabled_indices(ts.take(i as int)),
                decreases config.targets.len() - i,
            {
                proof {
                    let t = ts.take(i + 1);
                    assert(t.drop_last() =~= ts.take(i as int));
                    assert(t.last() == ts[i as int]);
                }
                if config.targets[i].enabled {
                    v.push(i);
                }
                i = i + 1;
            }
            assert(ts.take(ts.len() as int) =~= ts);
            Ok(v)
        },
    }
}

/// Keep a line of a build's stderr for its error summary: only the first
/// [`ERROR_SUMMARY_LINES`] lines are kept.
pub fn keep_error_line(lines: &mut Vec<String>, line: String)
    ensures
        final(lines)@ == if old(lines)@.len() < ERROR_SUMMARY_LINES {
            old(lines)@.push(line)
        } else {
            old(lines)@
        },
{
    if lines.len() < ERROR_SUMMARY_LINES {
        lines.push(line);
    }
}

/// The exit code recorded for a build process outcome: the process's own,
/// or -1 when it has none, could not be waited for, or timed out.
pub open spec fn outcome_exit_code(outcome: ProcessOutcome) -> i32 {
    match outcome {
        ProcessOutcome::Exited(Some(code)) => code,
        _ => -1i32,
    }
}

/// The error summary recorded for a build process outcome: the kept stderr
/// lines, joined by newlines, when the process exited with a code other
/// than 0 and wrote some; a note on the waiting error or the timeout
/// otherwise.
pub open spec fn outcome_summary(
    outcome: ProcessOutcome,
    error_lines: Seq<Seq<char>>,
    timeout_seconds: u64,
) -> Option<Seq<char>> {
    match outcome {
        ProcessOutcome::Exited(code) => {
            let c = match code {
                Some(c) => c,
                None => -1i32,
            };
            if c != 0 && error_lines.len() > 0 {
                Some(join(error_lines, "\n"@))
            } else {
                None
            }
        },
        ProcessOutcome::WaitFailed(e) => Some("Process error: "@ + e@),
        ProcessOutcome::TimedOut => Some("Build timed out after "@ + decimal(timeout_seconds as nat) + "s"@),
    }
}

/// The status a build's result gives its target.
pub open spec fn status_after(exit_code: i32) -> Seq<char> {
    if exit_code == 0 {
        "ready"@
    } else {
        "failed"@
    }
}

/// Returns the status a build with `exit_code` gives its target.
pub fn build_status(exit_code: i32) -> (res: &'static str)
    ensures
        res@ == status_after(exit_code),
{
    if exit_code == 0 {
        "ready"
    } else {
        "failed"
    }
}

/// The duration between two times, as the build engine records it: the
/// difference in milliseconds, taken as a `u64` (wrapping when negative).
pub open spec fn duration_between(started_at: i64, finished_at: i64) -> u64 {
    (finished_at - started_at) as u64
}

/// Returns the recorded duration of a build.
pub fn duration_ms(started_at: i64, finished_at: i64) -> (res: u64)
    ensures
        res == duration_between(started_at, finished_at),
{
    let d: i128 = (finished_at as i128) - (started_at as i128);
    d as u64
}

/// The result recorded for a finished build of `target`.
pub open spec fn build_result_spec(
    outcome: ProcessOutcome,
    error_lines: Seq<Seq<char>>,
    timeout_seconds: u64,
    started_at: i64,
    finished_at: i64,
    output_path: Option<Seq<char>>,
    trigger_files: Seq<Seq<char>>,
) -> BuildResultView {
    BuildResultView {
        started_at,
        finished_at,
        duration_ms: duration_between(started_at, finished_at),
        exit_code: outcome_exit_code(outcome),
        output_path,
        trigger_files,
        error_summary: outcome_summary(outcome, error_lines, timeout_seconds),
    }
}

/// Build the result of a finished build from how its process ended.
pub fn build_result(
    outcome: ProcessOutcome,
    error_lines: &Vec<String>,
    timeout_seconds: u64,
    started_at: i64,
    finished_at: i64,
    target: &TargetConfig,
    trigger_files: &Vec<String>,
) -> (res: BuildResult)
    ensures
        res@ == build_result_spec(
            outcome,
            error_lines.deep_view(),
            timeout_seconds,
            started_at,
            finished_at,
            target.output_path.deep_view(),
            trigger_files.deep_view(),
        ),
{
    let (exit_code, error_summary) = match outcome {
        ProcessOutcome::Exited(code) => {
            let c = match code {
                Some(c) => c,
                None => -1,
            };
            let summary = if c != 0 && error_lines.len() > 0 {
                Some(join_strings(error_lines, "\n"))
            } else {
                None
            };
            (c, summary)
        },
        ProcessOutcome::WaitFailed(e) => {
            let mut text = String::from_str("Process error: ");
            text.append(e.as_str());
            (-1, Some(text))
        },
        ProcessOutcome::TimedOut => {
            let mut text = String::from_str("Build timed out after ");
            let secs = u64_to_decimal(timeout_seconds);
            text.append(secs.as_str());
            text.append("s");
            (-1, Some(text))
        },
    };
    let res = BuildResult {
        started_at,
        finished_at,
        duration_ms: duration_ms(started_at, finished_at),
        exit_code,
        output_path: match &target.output_path {
            Some(p) => Some(p.clone()),
            None => None,
        },
        trigger_files: clone_strings(trigger_files),
        error_summary,
    };
    res
}

/// The result recorded for a manual build (`buildwatch build`): its exit
/// code (-1 when the process had none), the trigger "manual", and no error
/// summary.
pub fn manual_build_result(
    exit_code: Option<i32>,
    started_at: i64,
    finished_at: i64,
    target: &TargetConfig,
) -> (res: BuildResult)
    ensures
        res@ == (BuildResultView {
            started_at,
            finished_at,
            duration_ms: duration_between(started_at, finished_at),
            exit_code: match exit_code {
                Some(c) => c,
                None => -1i32,
            },
            output_path: target.output_path.deep_view(),
            trigger_files: seq!["manual"@],
            error_summary: None,
        }),
{
    let res = BuildResult {
        started_at,
        finished_at,
        duration_ms: duration_ms(started_at, finished_at),
        exit_code: match exit_code {
            Some(c) => c,
            None => -1,
        },
        output_path: match &target.output_path {
            Some(p) => Some(p.clone()),
            None => None,
        },
        trigger_files: vec![String::from_str("manual")],
        error_summary: None,
    };
    assert(res.trigger_files.deep_view() =~= seq!["manual"@]);
    res
}


/// A build counts as a success only when its process exited on its own with
/// code 0: a timeout, a failed wait or a missing exit code records exit code
/// -1, and only a success makes its target "ready".
pub proof fn law_only_clean_exit_succeeds(
    outcome: ProcessOutcome,
    error_lines: Seq<Seq<char>>,
    timeout_seconds: u64,
    started_at: i64,
    finished_at: i64,
    output_path: Option<Seq<char>>,
    trigger_files: Seq<Seq<char>>,
)
    ensures
        ({
            let r = build_result_spec(
                outcome,
                error_lines,
                timeout_seconds,
                started_at,
                finished_at,
                output_path,
                trigger_files,
            );
            &&& (r.exit_code == 0) == (outcome == ProcessOutcome::Exited(Some(0i32)))
            &&& (outcome is TimedOut || outcome is WaitFailed || outcome == ProcessOutcome::Exited(None))
                ==> r.exit_code == -1
            &&& outcome matches ProcessOutcome::Exited(Some(c)) ==> r.exit_code == c
            &&& (status_after(r.exit_code) == "ready"@) == (r.exit_code == 0)
            &&& (status_after(r.exit_code) == "failed"@) == (r.exit_code != 0)
        }),
{
    reveal_strlit("ready");
    reveal_strlit("failed");
    let r = build_result_spec(outcome, error_lines, timeout_seconds, started_at, finished_at, output_path, trigger_files);
    assert(r.exit_code == outcome_exit_code(outcome));
    match outcome {
        ProcessOutcome::Exited(Some(c)) => {
            assert((c == 0) == (outcome == ProcessOutcome::Exited(Some(0i32))));
        },
        _ => {
            assert(outcome != ProcessOutcome::Exited(Some(0i32)));
        },
    }
    assert("ready"@.len() == 5);
    assert("failed"@.len() == 6);
    assert("ready"@ != "failed"@);
}

/// With no target named, `buildwatch build` builds every enabled target and
/// no other, each once, in the order of the configuration.
pub proof fn law_manual_build_all_enabled(targets: Seq<TargetConfig>)
    requires
        targets.len() <= usize::MAX,
    ensures
        forall|k: int|
            0 <= k < enabled_indices(targets).len() ==> enabled_indices(targets)[k] < targets.len()
                && targets[enabled_indices(targets)[k] as int].enabled,
        forall|i: int| 0 <= i < targets.len() && #[trigger] targets[i].enabled ==> enabled_indices(targets).contains(
            i as usize,
        ),
        forall|k1: int, k2: int|
            0 <= k1 < k2 < enabled_indices(targets).len() ==> enabled_indices(targets)[k1]
                < enabled_indices(targets)[k2],
    decreases targets.len(),
{
    if targets.len() > 0 {
        let init = targets.drop_last();
        law_manual_build_all_enabled(init);
        let e = enabled_indices(init);
        assert forall|k: int| 0 <= k < e.len() implies e[k] < init.len() && targets[e[k] as int].enabled by {
            assert(init[e[k] as int] == targets[e[k] as int]);
        }
        assert forall|i: int| 0 <= i < targets.len() && #[trigger] targets[i].enabled implies enabled_indices(
            targets,
        ).contains(i as usize) by {
            if i < targets.len() - 1 {
                assert(init[i] == targets[i]);
                assert(init[i].enabled);
                let k = choose|k: int| 0 <= k < e.len() && e[k] == i as usize;
                if targets.last().enabled {
                    assert(enabled_indices(targets)[k] == i as usize);
                } else {
                    assert(enabled_indices(targets)[k] == i as usize);
                }
            } else {
                assert(enabled_indices(targets).last() == i as usize);
            }
        }
    }
}

} // verus!
