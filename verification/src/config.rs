//! Configuration model: the contents of `buildwatch.config.json`, its
//! defaults, and the runtime overrides of `buildwatch watch`.

use vstd::prelude::*;
use vstd::string::*;
use crate::text::{path_join, str_path_join, seq_has};

verus! {

/// File name of the project configuration.
pub const CONFIG_FILENAME: &'static str = "buildwatch.config.json";

/// The whole project configuration.
#[derive(Debug)]
pub struct Config {
    /// Schema version for forward compatibility.
    pub version: u32,
    /// Debounce period before triggering a build (ms).
    pub settling_delay_ms: u64,
    /// Maximum build duration before timeout (seconds).
    pub build_timeout_seconds: u64,
    /// Notification settings.
    pub notifications: NotificationConfig,
    /// Build targets.
    pub targets: Vec<TargetConfig>,
    /// Global ignore patterns (in addition to .gitignore).
    pub global_excludes: Vec<String>,
}

/// When desktop notifications are sent.
#[derive(Debug, Clone, Copy)]
pub struct NotificationConfig {
    pub enabled: bool,
    pub on_success: bool,
    pub on_failure: bool,
    pub sound: bool,
}

impl Default for NotificationConfig {
    fn default() -> (res: Self)
        ensures
            res.enabled && res.on_success && res.on_failure && res.sound,
    {
        NotificationConfig { enabled: true, on_success: true, on_failure: true, sound: true }
    }
}

/// One build target.
#[derive(Debug)]
pub struct TargetConfig {
    /// Human-readable target name.
    pub name: String,
    /// Shell command to execute for building.
    pub build_command: String,
    /// Path to the build output artifact (relative to project root).
    pub output_path: Option<String>,
    /// Working directory for the build command (relative to project root).
    pub working_directory: String,
    /// File extensions to watch.
    pub watch_extensions: Vec<String>,
    /// Directories to watch (relative to project root).
    pub watch_paths: Vec<String>,
    /// Directories to exclude from watching.
    pub exclude_paths: Vec<String>,
    /// Environment variables for the build command, as (name, value) pairs.
    pub environment: Vec<(String, String)>,
    /// Priority for build ordering (higher = built first).
    pub priority: i32,
    /// Whether this target is active.
    pub enabled: bool,
    /// Command to run after a successful build.
    pub post_build: Option<String>,
    /// Auto-restart the running binary after rebuild.
    pub auto_restart: bool,
}

// --- Default values ---

/// Default schema version.
pub fn default_version() -> (res: u32)
    ensures
        res == 1,
{
    1
}

/// Default settling delay (ms).
pub fn default_settling_delay() -> (res: u64)
    ensures
        res == 200,
{
    200
}

/// Default build timeout (seconds).
pub fn default_build_timeout() -> (res: u64)
    ensures
        res == 300,
{
    300
}

/// Default for boolean switches that are on unless turned off.
pub fn default_true() -> (res: bool)
    ensures
        res,
{
    true
}

/// Default target priority.
pub fn default_priority() -> (res: i32)
    ensures
        res == 5,
{
    5
}

/// Default working directory of a target.
pub fn default_working_dir() -> (res: String)
    ensures
        res@ == "."@,
{
    String::from_str(".")
}

/// The global excludes that a configuration gets when it names none.
pub open spec fn default_global_excludes_spec() -> Seq<Seq<char>> {
    seq![".git/"@, "node_modules/"@, "__pycache__/"@, "target/"@, "bin/"@, ".next/"@, "dist/"@]
}

/// Default global excludes.
pub fn default_global_excludes() -> (res: Vec<String>)
    ensures
        res.deep_view() == default_global_excludes_spec(),
{
    let res = vec![
        String::from_str(".git/"),
        String::from_str("node_modules/"),
        String::from_str("__pycache__/"),
        String::from_str("target/"),
        String::from_str("bin/"),
        String::from_str(".next/"),
        String::from_str("dist/"),
    ];
    assert(res.deep_view() =~= default_global_excludes_spec());
    res
}

/// Returns the config file path for a given project root.
pub fn config_path(project_root: &str) -> (res: String)
    ensures
        res@ == path_join(project_root@, CONFIG_FILENAME@),
{
    str_path_join(project_root, CONFIG_FILENAME)
}

// --- Runtime overrides of `buildwatch watch` ---

/// Why runtime overrides could not be applied.
#[derive(Debug)]
pub enum OverrideError {
    /// A target named on the command line is not in the configuration.
    UnknownTarget(String),
}

/// The names of `targets`, in order.
pub open spec fn target_names(targets: Seq<TargetConfig>) -> Seq<Seq<char>> {
    Seq::new(targets.len(), |i: int| targets[i].name@)
}

/// The index of the first of `wanted` that is not in `names`, or -1.
pub open spec fn first_unknown(wanted: Seq<Seq<char>>, names: Seq<Seq<char>>) -> int
    decreases wanted.len(),
{
    if wanted.len() == 0 {
        -1
    } else {
        let r = first_unknown(wanted.drop_last(), names);
        if r >= 0 {
            r
        } else if !seq_has(names, wanted.last()) {
            wanted.len() - 1
        } else {
            -1
        }
    }
}

/// The targets, in order, whose name is one of `wanted`.
pub open spec fn keep_named(targets: Seq<TargetConfig>, wanted: Seq<Seq<char>>) -> Seq<TargetConfig>
    decreases targets.len(),
{
    if targets.len() == 0 {
        Seq::empty()
    } else {
        let k = keep_named(targets.drop_last(), wanted);
        if seq_has(wanted, targets.last().name@) {
            k.push(targets.last())
        } else {
            k
        }
    }
}

proof fn lemma_first_unknown(wanted: Seq<Seq<char>>, names: Seq<Seq<char>>)
    ensures
        -1 <= first_unknown(wanted, names) < wanted.len(),
        first_unknown(wanted, names) >= 0 ==> !seq_has(names, wanted[first_unknown(wanted, names)]),
        forall|i: int| 0 <= i < wanted.len() && (first_unknown(wanted, names) == -1 || i < first_unknown(wanted, names))
            ==> seq_has(names, #[trigger] wanted[i]),
    decreases wanted.len(),
{
    if wanted.len() > 0 {
        lemma_first_unknown(wanted.drop_last(), names);
        assert forall|i: int| 0 <= i < wanted.len() - 1 implies wanted[i] == wanted.drop_last()[i] by {}
    }
}

/// Returns whether one of `targets` is named `name`.
fn has_target_named(targets: &Vec<TargetConfig>, name: &String) -> (res: bool)
    ensures
        res == seq_has(target_names(targets@), name@),
{
    let mut i: usize = 0;
    while i < targets.len()
        invariant
            i <= targets.len(),
            forall|k: int| 0 <= k < i ==> target_names(targets@)[k] != name@,
        decreases targets.len() - i,
    {
        if targets[i].name == *name {
            assert(target_names(targets@)[i as int] == name@);
            return true;
        }
        i = i + 1;
    }
    false
}

/// Apply the runtime overrides of `buildwatch watch`: keep only the named
/// targets (when any are named) and override the settling delay (when one
/// is given). Fails, changing nothing, when a named target is not in the
/// configuration.
pub fn apply_watch_overrides(config: &mut Config, targets: &[String], settling: Option<u64>) -> (res: Result<(), OverrideError>)
    ensures
        ({
            let wanted = targets.deep_view();
            let bad = first_unknown(wanted, target_names(old(config).targets@));
            match res {
                Ok(()) => bad == -1 && final(config).targets@ == (if wanted.len() == 0 {
                    old(config).targets@
                } else {
                    keep_named(old(config).targets@, wanted)
                }) && final(config).settling_delay_ms == (match settling {
                    Some(ms) => ms,
                    None => old(config).settling_delay_ms,
                }) && final(config).version == old(config).version
                    && final(config).build_timeout_seconds == old(config).build_timeout_seconds
                    && final(config).notifications == old(config).notifications
                    && final(config).global_excludes == old(config).global_excludes,
                Err(OverrideError::UnknownTarget(name)) => bad >= 0 && name@ == wanted[bad] && *final(config)
                    == *old(config),
            }
        }),
{
    let ghost wanted = targets.deep_view();
    let ghost names = target_names(config.targets@);
    proof {
        lemma_first_unknown(wanted, names);
    }
    let mut j: usize = 0;
    while j < targets.len()
        invariant
            j <= targets@.len(),
            wanted == targets.deep_view(),
            names == target_names(config.targets@),
            -1 <= first_unknown(wanted, names) < wanted.len(),
            first_unknown(wanted, names) >= 0 ==> !seq_has(names, wanted[first_unknown(wanted, names)]),
            forall|i: int| 0 <= i < wanted.len() && (first_unknown(wanted, names) == -1 || i < first_unknown(wanted, names))
                ==> seq_has(names, #[trigger] wanted[i]),
            forall|i: int| 0 <= i < j ==> seq_has(names, #[trigger] wanted[i]),
        decreases targets.len() - j,
    {
        if !has_target_named(&config.targets, &targets[j]) {
            assert(wanted[j as int] == targets@[j as int]@);
            assert(!seq_has(names, wanted[j as int]));
            assert(first_unknown(wanted, names) == j as int);
            return Err(OverrideError::UnknownTarget(targets[j].clone()));
        }
        assert(wanted[j as int] == targets@[j as int]@);
        j = j + 1;
    }
    assert(first_unknown(wanted, names) == -1);
    if targets.len() > 0 {
        let mut rest: Vec<TargetConfig> = Vec::new();
        std::mem::swap(&mut rest, &mut config.targets);
        let ghost orig = rest@;
        let mut kept: Vec<TargetConfig> = Vec::new();
        let ghost mut done: int = 0;
        while rest.len() > 0
            invariant
                0 <= done <= orig.len(),
                rest@ == orig.skip(done),
                kept@ == keep_named(orig.take(done), wanted),
                wanted == targets.deep_view(),
            decreases rest.len(),
        {
            let t = rest.remove(0);
            proof {
                assert(t == orig[done]);
                let tk = orig.take(done + 1);
                assert(tk.drop_last() =~= orig.take(done));
                assert(tk.last() == orig[done]);
                assert(rest@ =~= orig.skip(done + 1));
            }
            let keep = vec_has_slice(targets, &t.name);
            if keep {
                kept.push(t);
            }
            proof {
                done = done + 1;
            }
        }
        proof {
            assert(done == orig.len());
            assert(orig.take(done) =~= orig);
        }
        config.targets = kept;
    }
    match settling {
        Some(ms) => {
            config.settling_delay_ms = ms;
        },
        None => {},
    }
    Ok(())
}

/// Returns whether `needle` is one of `items`.
fn vec_has_slice(items: &[String], needle: &String) -> (res: bool)
    ensures
        res == seq_has(items.deep_view(), needle@),
{
    let mut i: usize = 0;
    while i < items.len()
        invariant
            i <= items@.len(),
            forall|k: int| 0 <= k < i ==> items.deep_view()[k] != needle@,
        decreases items.len() - i,
    {
        if items[i] == *needle {
            assert(items.deep_view()[i as int] == needle@);
            return true;
        }
        i = i + 1;
    }
    false
}

// --- Hot reload ---

/// Whether the configuration file must be reloaded: it exists, and its
/// modification time differs from the one last seen.
pub fn config_changed(last_seen: Option<i64>, current: Option<i64>) -> (res: bool)
    ensures
        res == (current.is_some() && current != last_seen),
{
    match current {
        Some(m) => match last_seen {
            Some(l) => m != l,
            None => true,
        },
        None => false,
    }
}

/// Apply a reloaded configuration: the new one when it parsed, the current
/// one kept when it did not. Returns whether it changed.
pub fn apply_reload(config: &mut Config, reloaded: Option<Config>) -> (res: bool)
    ensures
        match reloaded {
            Some(c) => *final(config) == c && res,
            None => *final(config) == *old(config) && !res,
        },
{
    match reloaded {
        Some(c) => {
            *config = c;
            true
        },
        None => false,
    }
}

} // verus!
