//! The decisions of the daemon: its initial state, what it asks Watchman
//! to watch, how it reacts to each event of its main loop, and when it
//! notifies. Running the loop (timers, the Watchman channel, processes and
//! files) is left to the program.

use vstd::prelude::*;
use vstd::string::*;
use crate::config::{Config, NotificationConfig, TargetConfig};
use crate::queue::{
    BuildQueue, PendingBuild, merge_files, merge_into, enqueue_spec, dequeue_spec, complete_spec, triggers,
    new_scores_fit, lemma_merge_files_set,
};
use crate::state::{ProjectState, ProjectStateView, TargetState, fresh_target_state};
use crate::text::{u64_to_decimal, decimal};
use crate::watcher::{FileChangeEvent, reconnect_delay, reconnect_delay_ms};

verus! {

// --- Initial state and subscription ---

/// The names of the enabled targets, each once, in order of first appearance.
pub open spec fn enabled_names(targets: Seq<TargetConfig>) -> Seq<Seq<char>>
    decreases targets.len(),
{
    if targets.len() == 0 {
        Seq::empty()
    } else {
        let e = enabled_names(targets.drop_last());
        if targets.last().enabled {
            merge_files(e, seq![targets.last().name@])
        } else {
            e
        }
    }
}

/// The extensions watched by the enabled targets, each once, in order of
/// first appearance.
pub open spec fn watched_extensions(targets: Seq<TargetConfig>) -> Seq<Seq<char>>
    decreases targets.len(),
{
    if targets.len() == 0 {
        Seq::empty()
    } else {
        let e = watched_extensions(targets.drop_last());
        if targets.last().enabled {
            merge_files(e, targets.last().watch_extensions.deep_view())
        } else {
            e
        }
    }
}

/// The global excludes and the excludes of every target (enabled or not),
/// each once, in order of first appearance.
pub open spec fn excluded_dirs(targets: Seq<TargetConfig>, globals: Seq<Seq<char>>) -> Seq<Seq<char>>
    decreases targets.len(),
{
    if targets.len() == 0 {
        merge_files(Seq::empty(), globals)
    } else {
        merge_files(excluded_dirs(targets.drop_last(), globals), targets.last().exclude_paths.deep_view())
    }
}

/// Collect the watch extensions of the enabled targets, without repeats.
pub fn watch_extensions(config: &Config) -> (res: Vec<String>)
    ensures
        res.deep_view() == watched_extensions(config.targets@),
{
    let ghost ts = config.targets@;
    let mut res: Vec<String> = Vec::new();
    assert(res.deep_view() =~= Seq::<Seq<char>>::empty());
    let mut i: usize = 0;
    while i < config.targets.len()
        invariant
            i <= ts.len(),
            ts == config.targets@,
            res.deep_view() == watched_extensions(ts.take(i as int)),
        decreases config.targets.len() - i,
    {
        proof {
            let t = ts.take(i + 1);
            assert(t.drop_last() =~= ts.take(i as int));
            assert(t.last() == ts[i as int]);
        }
        if config.targets[i].enabled {
            merge_into(&mut res, &config.targets[i].watch_extensions);
        }
        i = i + 1;
    }
    assert(ts.take(ts.len() as int) =~= ts);
    res
}

/// Collect the global excludes and every target's excludes, without repeats.
pub fn exclude_dirs(config: &Config) -> (res: Vec<String>)
    ensures
        res.deep_view() == excluded_dirs(config.targets@, config.global_excludes.deep_view()),
{
    let ghost ts = config.targets@;
    let mut res: Vec<String> = Vec::new();
    assert(res.deep_view() =~= Seq::<Seq<char>>::empty());
    merge_into(&mut res, &config.global_excludes);
    assert(ts.take(0) =~= Seq::<TargetConfig>::empty());
    let mut i: usize = 0;
    while i < config.targets.len()
        invariant
            i <= ts.len(),
            ts == config.targets@,
            res.deep_view() == excluded_dirs(ts.take(i as int), config.global_excludes.deep_view()),
        decreases config.targets.len() - i,
    {
        proof {
            let t = ts.take(i + 1);
            assert(t.drop_last() =~= ts.take(i as int));
            assert(t.last() == ts[i as int]);
        }
        merge_into(&mut res, &config.targets[i].exclude_paths);
        i = i + 1;
    }
    assert(ts.take(ts.len() as int) =~= ts);
    res
}

/// The state written when the daemon starts: each enabled target pending,
/// never built; an idle queue.
pub open spec fn initial_state_spec(targets: Seq<TargetConfig>, now: i64) -> ProjectStateView {
    let names = enabled_names(targets);
    ProjectStateView {
        targets: Seq::new(names.len(), |i: int| (names[i], fresh_target_state())),
        queue: crate::state::QueueStateView { pending: Seq::empty(), current: None },
        updated_at: now,
    }
}

/// Returns the names of the enabled targets, each once.
fn enabled_target_names(config: &Config) -> (res: Vec<String>)
    ensures
        res.deep_view() == enabled_names(config.targets@),
{
    let ghost ts = config.targets@;
    let mut res: Vec<String> = Vec::new();
    assert(res.deep_view() =~= Seq::<Seq<char>>::empty());
    let mut i: usize = 0;
    while i < config.targets.len()
        invariant
            i <= ts.len(),
            ts == config.targets@,
            res.deep_view() == enabled_names(ts.take(i as int)),
        decreases config.targets.len() - i,
    {
        proof {
            let t = ts.take(i + 1);
            assert(t.drop_last() =~= ts.take(i as int));
            assert(t.last() == ts[i as int]);
        }
        if config.targets[i].enabled {
            let one = vec![config.targets[i].name.clone()];
            assert(one.deep_view() =~= seq![ts[i as int].name@]);
            merge_into(&mut res, &one);
        }
        i = i + 1;
    }
    assert(ts.take(ts.len() as int) =~= ts);
    res
}

/// Build the state written when the daemon starts.
pub fn initial_project_state(config: &Config, now: i64) -> (res: ProjectState)
    ensures
        res@ == initial_state_spec(config.targets@, now),
{
    let names = enabled_target_names(config);
    let ghost nv = names.deep_view();
    let mut res = ProjectState::empty(now);
    let mut i: usize = 0;
    while i < names.len()
        invariant
            i <= names.len(),
            nv == names.deep_view(),
            res@.targets == Seq::new(i as nat, |k: int| (nv[k], fresh_target_state())),
            res@.queue.pending.len() == 0,
            res@.queue.current.is_none(),
            res@.updated_at == now,
        decreases names.len() - i,
    {
        let ghost before = res@.targets;
        let n = names[i].clone();
        assert(n@ == nv[i as int]);
        let fresh = TargetState::fresh();
        res.targets.push((n, fresh));
        assert(res@.targets =~= before.push((nv[i as int], fresh_target_state())));
        assert(res@.targets =~= Seq::new((i + 1) as nat, |k: int| (nv[k], fresh_target_state())));
        i = i + 1;
    }
    assert(res@.queue.pending =~= Seq::<Seq<char>>::empty());
    assert(res@.targets =~= initial_state_spec(config.targets@, now).targets);
    res
}

/// Some enabled target of `targets` watches extension `x`.
pub open spec fn watched_by_enabled(targets: Seq<TargetConfig>, x: Seq<char>) -> bool {
    exists|i: int| 0 <= i < targets.len() && targets[i].enabled && #[trigger] targets[i].watch_extensions.deep_view().contains(x)
}

/// Some target of `targets` excludes directory `x`.
pub open spec fn excluded_by_some(targets: Seq<TargetConfig>, x: Seq<char>) -> bool {
    exists|i: int| 0 <= i < targets.len() && #[trigger] targets[i].exclude_paths.deep_view().contains(x)
}

/// Some enabled target of `targets` is named `x`.
pub open spec fn enabled_named(targets: Seq<TargetConfig>, x: Seq<char>) -> bool {
    exists|i: int| 0 <= i < targets.len() && targets[i].enabled && #[trigger] targets[i].name@ == x
}

/// The subscription watches each extension of an enabled target, once,
/// and no other.
pub proof fn law_watch_extensions(targets: Seq<TargetConfig>)
    ensures
        watched_extensions(targets).no_duplicates(),
        forall|x: Seq<char>| #[trigger] watched_extensions(targets).contains(x) <==> watched_by_enabled(targets, x),
    decreases targets.len(),
{
    if targets.len() > 0 {
        let init = targets.drop_last();
        law_watch_extensions(init);
        let e = watched_extensions(init);
        let t = targets.last();
        assert forall|i: int| 0 <= i < init.len() implies init[i] == targets[i] by {}
        if t.enabled {
            lemma_merge_files_set(e, t.watch_extensions.deep_view());
        }
        assert forall|x: Seq<char>| #[trigger] watched_extensions(targets).contains(x) <==> watched_by_enabled(targets, x) by {
            if watched_by_enabled(targets, x) {
                let i = choose|i: int| 0 <= i < targets.len() && targets[i].enabled && #[trigger] targets[i].watch_extensions.deep_view().contains(x);
                if i < init.len() {
                    assert(watched_by_enabled(init, x));
                }
            }
            if watched_by_enabled(init, x) {
                let i = choose|i: int| 0 <= i < init.len() && init[i].enabled && #[trigger] init[i].watch_extensions.deep_view().contains(x);
                assert(targets[i] == init[i]);
            }
        }
    }
}

/// The subscription excludes each global exclude and each exclude of every
/// target, once, and no other directory.
pub proof fn law_exclude_dirs(targets: Seq<TargetConfig>, globals: Seq<Seq<char>>)
    ensures
        excluded_dirs(targets, globals).no_duplicates(),
        forall|x: Seq<char>| #[trigger] excluded_dirs(targets, globals).contains(x) <==> (globals.contains(x)
            || excluded_by_some(targets, x)),
    decreases targets.len(),
{
    if targets.len() == 0 {
        assert(Seq::<Seq<char>>::empty().no_duplicates());
        lemma_merge_files_set(Seq::empty(), globals);
    } else {
        let init = targets.drop_last();
        law_exclude_dirs(init, globals);
        let e = excluded_dirs(init, globals);
        let t = targets.last();
        assert forall|i: int| 0 <= i < init.len() implies init[i] == targets[i] by {}
        lemma_merge_files_set(e, t.exclude_paths.deep_view());
        assert forall|x: Seq<char>| #[trigger] excluded_dirs(targets, globals).contains(x) <==> (globals.contains(x)
            || excluded_by_some(targets, x)) by {
            if excluded_by_some(targets, x) {
                let i = choose|i: int| 0 <= i < targets.len() && #[trigger] targets[i].exclude_paths.deep_view().contains(x);
                if i < init.len() {
                    assert(excluded_by_some(init, x));
                }
            }
            if excluded_by_some(init, x) {
                let i = choose|i: int| 0 <= i < init.len() && #[trigger] init[i].exclude_paths.deep_view().contains(x);
                assert(targets[i] == init[i]);
            }
        }
    }
}

/// The daemon starts with one entry per enabled target, each pending and
/// never built, and none for any other target.
pub proof fn law_initial_state(targets: Seq<TargetConfig>, now: i64)
    ensures
        initial_state_spec(targets, now).wf(),
        forall|x: Seq<char>| #[trigger] enabled_names(targets).contains(x) <==> enabled_named(targets, x),
        forall|i: int| 0 <= i < initial_state_spec(targets, now).targets.len()
            ==> #[trigger] initial_state_spec(targets, now).targets[i].1 == fresh_target_state(),
    decreases targets.len(),
{
    lemma_enabled_names(targets);
    let names = enabled_names(targets);
    let st = initial_state_spec(targets, now);
    assert forall|i: int, j: int|
        0 <= i < st.targets.len() && 0 <= j < st.targets.len() && i != j implies #[trigger] st.targets[i].0
            != #[trigger] st.targets[j].0 by {
        assert(st.targets[i].0 == names[i] && st.targets[j].0 == names[j]);
    }
}

proof fn lemma_enabled_names(targets: Seq<TargetConfig>)
    ensures
        enabled_names(targets).no_duplicates(),
        forall|x: Seq<char>| #[trigger] enabled_names(targets).contains(x) <==> enabled_named(targets, x),
    decreases targets.len(),
{
    if targets.len() > 0 {
        let init = targets.drop_last();
        lemma_enabled_names(init);
        let e = enabled_names(init);
        let t = targets.last();
        assert forall|i: int| 0 <= i < init.len() implies init[i] == targets[i] by {}
        if t.enabled {
            lemma_merge_files_set(e, seq![t.name@]);
            assert forall|x: Seq<char>| seq![t.name@].contains(x) <==> x == t.name@ by {
                if x == t.name@ {
                    assert(seq![t.name@][0] == x);
                }
            }
        }
        assert forall|x: Seq<char>| #[trigger] enabled_names(targets).contains(x) <==> enabled_named(targets, x) by {
            if enabled_named(targets, x) {
                let i = choose|i: int| 0 <= i < targets.len() && targets[i].enabled && #[trigger] targets[i].name@ == x;
                if i < init.len() {
                    assert(enabled_named(init, x));
                }
            }
            if enabled_named(init, x) {
                let i = choose|i: int| 0 <= i < init.len() && init[i].enabled && #[trigger] init[i].name@ == x;
                assert(targets[i] == init[i]);
            }
        }
    }
}

// --- Notifications ---

/// Whether a finished build is notified: successes when `on_success` is
/// set, failures when `on_failure` is set.
pub open spec fn should_notify_spec(n: NotificationConfig, success: bool) -> bool {
    (success && n.on_success) || (!success && n.on_failure)
}

/// Decide whether a finished build is notified.
pub fn should_notify(notifications: &NotificationConfig, success: bool) -> (res: bool)
    ensures
        res == should_notify_spec(*notifications, success),
{
    (success && notifications.on_success) || (!success && notifications.on_failure)
}

// --- Reporting the queue in the state file ---

/// Record the build queue in the state: the running build, the pending
/// targets, and the time.
pub fn record_queue(state: &mut ProjectState, current: Option<String>, pending: Vec<String>, now: i64)
    ensures
        final(state)@.targets == old(state)@.targets,
        final(state)@.queue.current == current.deep_view(),
        final(state)@.queue.pending == pending.deep_view(),
        final(state)@.updated_at == now,
{
    state.queue.current = current;
    state.queue.pending = pending;
    state.updated_at = now;
}

// --- Background start ---

/// `--target <name>` for each of `targets`, in order.
pub open spec fn target_flags(targets: Seq<Seq<char>>) -> Seq<Seq<char>>
    decreases targets.len(),
{
    if targets.len() == 0 {
        Seq::empty()
    } else {
        target_flags(targets.drop_last()) + seq!["--target"@, targets.last()]
    }
}

/// The arguments with which the daemon restarts itself in the background:
/// `haunt --foreground --project <root>`, then `--target <name>` for each
/// requested target, then `--settling <ms>` when one is given.
pub open spec fn daemon_args_spec(project_root: Seq<char>, targets: Seq<Seq<char>>, settling: Option<u64>) -> Seq<Seq<char>> {
    seq!["haunt"@, "--foreground"@, "--project"@, project_root] + target_flags(targets) + match settling {
        Some(ms) => seq!["--settling"@, decimal(ms as nat)],
        None => Seq::empty(),
    }
}

/// Returns the arguments with which the daemon restarts itself in the background.
pub fn daemon_args(project_root: &str, targets: &[String], settling: Option<u64>) -> (res: Vec<String>)
    ensures
        res.deep_view() == daemon_args_spec(project_root@, targets.deep_view(), settling),
{
    let ghost tv = targets.deep_view();
    let mut res: Vec<String> = Vec::new();
    res.push(String::from_str("haunt"));
    res.push(String::from_str("--foreground"));
    res.push(String::from_str("--project"));
    res.push(String::from_str(project_root));
    let ghost head = seq!["haunt"@, "--foreground"@, "--project"@, project_root@];
    assert(res.deep_view() =~= head);
    let mut i: usize = 0;
    while i < targets.len()
        invariant
            i <= targets@.len(),
            tv == targets.deep_view(),
            res.deep_view() == head + target_flags(tv.take(i as int)),
        decreases targets.len() - i,
    {
        let ghost before = res.deep_view();
        res.push(String::from_str("--target"));
        let t = targets[i].clone();
        assert(t@ == tv[i as int]);
        res.push(t);
        proof {
            let tk = tv.take(i + 1);
            assert(tk.drop_last() =~= tv.take(i as int));
            assert(tk.last() == tv[i as int]);
            assert(res.deep_view() =~= before + seq!["--target"@, tv[i as int]]);
            assert(res.deep_view() =~= head + target_flags(tk));
        }
        i = i + 1;
    }
    assert(tv.take(tv.len() as int) =~= tv);
    let ghost mid = res.deep_view();
    match settling {
        Some(ms) => {
            res.push(String::from_str("--settling"));
            res.push(u64_to_decimal(ms));
            assert(res.deep_view() =~= mid + seq!["--settling"@, decimal(ms as nat)]);
        },
        None => {
            assert(mid + Seq::<Seq<char>>::empty() =~= mid);
        },
    }
    res
}

// --- The main loop ---

/// What happened, as seen by the daemon's main loop.
pub enum DaemonEvent {
    /// The heartbeat timer ticked.
    Heartbeat,
    /// Watchman reported changed files.
    Changes(FileChangeEvent),
    /// The channel from Watchman closed, or an attempt to reconnect failed.
    WatcherClosed,
    /// The subscription to Watchman was made again.
    Reconnected,
    /// No change arrived for the settling delay.
    SettlingElapsed,
    /// The build that was started last has finished.
    BuildDone,
    /// The user asked the daemon to stop (Ctrl+C or a termination signal).
    ShutdownRequested,
}

/// What the main loop does next.
pub enum DaemonAction {
    /// Refresh the heartbeat in `daemon.json`.
    WriteHeartbeat,
    /// (Re)start the settling timer.
    ArmSettlingTimer,
    /// Wait this many milliseconds, then try to subscribe to Watchman again.
    ReconnectAfter(u64),
    /// Leave the main loop.
    Stop,
    /// Run this build, then report `BuildDone`.
    StartBuild(PendingBuild),
    /// Wait for the next event.
    Idle,
}

/// The state of the daemon's main loop.
pub struct DaemonCore {
    pub queue: BuildQueue,
    /// Whether the settling timer is running.
    pub settling: bool,
    /// Failed attempts to reach Watchman since the subscription was last up.
    pub reconnect_attempts: u32,
}

/// The attempt counter after one more failure; it stops at `u32::MAX`.
pub open spec fn next_attempt(attempts: u32) -> u32 {
    if attempts < u32::MAX {
        (attempts + 1) as u32
    } else {
        attempts
    }
}

impl DaemonCore {
    /// An idle daemon with an empty queue.
    pub fn new() -> (res: Self)
        ensures
            res.queue.wf(),
            res.queue@.pending.len() == 0,
            !res.queue@.building,
            !res.settling,
            res.reconnect_attempts == 0,
    {
        DaemonCore { queue: BuildQueue::new(), settling: false, reconnect_attempts: 0 }
    }

    /// React to one event: changes are queued (coalesced) and restart the
    /// settling timer; when the changes have settled, and after each build,
    /// the next pending build is started, highest priority first, one at a
    /// time. A lost Watchman connection is retried after a capped,
    /// growing delay; a shutdown request stops the loop.
    pub fn step(&mut self, event: DaemonEvent, targets: &[TargetConfig]) -> (action: DaemonAction)
        requires
            old(self).queue.wf(),
            event matches DaemonEvent::Changes(ev) ==> new_scores_fit(
                old(self).queue@.pending,
                targets@,
                ev.files(),
                ev.timestamp,
            ),
        ensures
            final(self).queue.wf(),
            match event {
                DaemonEvent::Heartbeat => action is WriteHeartbeat && final(self).queue@ == old(self).queue@
                    && final(self).settling == old(self).settling
                    && final(self).reconnect_attempts == old(self).reconnect_attempts,
                DaemonEvent::Changes(ev) => action is ArmSettlingTimer && final(self).queue@ == enqueue_spec(
                    old(self).queue@,
                    ev.files(),
                    ev.timestamp,
                    targets@,
                ) && final(self).settling && final(self).reconnect_attempts == old(self).reconnect_attempts,
                DaemonEvent::WatcherClosed => action == DaemonAction::ReconnectAfter(
                    reconnect_delay(old(self).reconnect_attempts as nat) as u64,
                ) && final(self).queue@ == old(self).queue@ && final(self).settling == old(self).settling
                    && final(self).reconnect_attempts == next_attempt(old(self).reconnect_attempts),
                DaemonEvent::Reconnected => action is Idle && final(self).queue@ == old(self).queue@
                    && final(self).settling == old(self).settling && final(self).reconnect_attempts == 0,
                DaemonEvent::ShutdownRequested => action is Stop && final(self).queue@ == old(self).queue@
                    && final(self).settling == old(self).settling
                    && final(self).reconnect_attempts == old(self).reconnect_attempts,
                DaemonEvent::SettlingElapsed => !final(self).settling && final(self).queue@ == dequeue_spec(
                    old(self).queue@,
                ).1 && final(self).reconnect_attempts == old(self).reconnect_attempts && match action {
                    DaemonAction::StartBuild(b) => dequeue_spec(old(self).queue@).0 == Some(b@),
                    DaemonAction::Idle => dequeue_spec(old(self).queue@).0.is_none(),
                    _ => false,
                },
                DaemonEvent::BuildDone => final(self).settling == old(self).settling && final(self).queue@
                    == dequeue_spec(complete_spec(old(self).queue@)).1
                    && final(self).reconnect_attempts == old(self).reconnect_attempts && match action {
                    DaemonAction::StartBuild(b) => dequeue_spec(complete_spec(old(self).queue@)).0 == Some(b@),
                    DaemonAction::Idle => dequeue_spec(complete_spec(old(self).queue@)).0.is_none(),
                    _ => false,
                },
            },
    {
        match event {
            DaemonEvent::Heartbeat => DaemonAction::WriteHeartbeat,
            DaemonEvent::Changes(ev) => {
                self.queue.enqueue_from_event(&ev, targets);
                self.settling = true;
                DaemonAction::ArmSettlingTimer
            },
            DaemonEvent::WatcherClosed => {
                let delay = reconnect_delay_ms(self.reconnect_attempts);
                if self.reconnect_attempts < u32::MAX {
                    self.reconnect_attempts = self.reconnect_attempts + 1;
                }
                DaemonAction::ReconnectAfter(delay)
            },
            DaemonEvent::Reconnected => {
                self.reconnect_attempts = 0;
                DaemonAction::Idle
            },
            DaemonEvent::ShutdownRequested => DaemonAction::Stop,
            DaemonEvent::SettlingElapsed => {
                self.settling = false;
                match self.queue.dequeue() {
                    Some(b) => DaemonAction::StartBuild(b),
                    None => DaemonAction::Idle,
                }
            },
            DaemonEvent::BuildDone => {
                self.queue.build_complete();
                match self.queue.dequeue() {
                    Some(b) => DaemonAction::StartBuild(b),
                    None => DaemonAction::Idle,
                }
            },
        }
    }
}

} // verus!
