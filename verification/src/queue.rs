//! Build queue with priority scoring and coalescing.
//!
//! Only one build runs at a time per daemon. Changes that arrive during
//! a build are coalesced into a single pending entry per target.

use vstd::prelude::*;
use crate::config::TargetConfig;
use crate::text::{ends_with, starts_with, strip_dot, str_ends_with, str_starts_with, str_strip_dot, vec_has, clone_strings};
use crate::watcher::FileChangeEvent;

verus! {

/// A pending build request with accumulated change context.
#[derive(Debug)]
pub struct PendingBuild {
    pub target_name: String,
    pub priority_score: i32,
    pub trigger_files: Vec<String>,
    /// When the first change for this build arrived, in ms since the Unix epoch.
    pub queued_at: i64,
}

/// The mathematical value of a [`PendingBuild`].
pub struct PendingBuildView {
    pub target_name: Seq<char>,
    pub priority_score: i32,
    pub trigger_files: Seq<Seq<char>>,
    pub queued_at: i64,
}

impl View for PendingBuild {
    type V = PendingBuildView;

    open spec fn view(&self) -> PendingBuildView {
        PendingBuildView {
            target_name: self.target_name@,
            priority_score: self.priority_score,
            trigger_files: self.trigger_files.deep_view(),
            queued_at: self.queued_at,
        }
    }
}

impl PendingBuild {
    /// Returns an equal copy.
    pub fn copy(&self) -> (res: PendingBuild)
        ensures
            res@ == self@,
    {
        PendingBuild {
            target_name: self.target_name.clone(),
            priority_score: self.priority_score,
            trigger_files: clone_strings(&self.trigger_files),
            queued_at: self.queued_at,
        }
    }
}

/// The views of a sequence of pending builds.
pub open spec fn views(v: Seq<PendingBuild>) -> Seq<PendingBuildView> {
    Seq::new(v.len(), |i: int| v[i]@)
}

/// Manages build ordering and coalescing.
pub struct BuildQueue {
    /// Pending builds, oldest first (at most one per target: see
    /// [`BuildQueueView::wf`], which every operation requires and keeps).
    pub pending: Vec<PendingBuild>,
    /// Whether a build is currently running.
    pub building: bool,
    /// Name of the currently building target.
    pub current_target: Option<String>,
}

/// The mathematical value of a [`BuildQueue`].
pub struct BuildQueueView {
    pub pending: Seq<PendingBuildView>,
    pub building: bool,
    pub current_target: Option<Seq<char>>,
}

impl View for BuildQueue {
    type V = BuildQueueView;

    open spec fn view(&self) -> BuildQueueView {
        BuildQueueView {
            pending: views(self.pending@),
            building: self.building,
            current_target: self.current_target.deep_view(),
        }
    }
}


// --- Specification ---

/// No two pending builds are for the same target.
pub open spec fn distinct_targets(p: Seq<PendingBuildView>) -> bool {
    forall|i: int, j: int|
        0 <= i < p.len() && 0 <= j < p.len() && i != j ==> #[trigger] p[i].target_name != #[trigger] p[j].target_name
}

impl BuildQueueView {
    /// The queue holds at most one pending build per target, and names a
    /// running target exactly while a build runs.
    pub open spec fn wf(self) -> bool {
        &&& distinct_targets(self.pending)
        &&& self.building == self.current_target.is_some()
    }
}

/// `file` ends with one of the target's watch extensions (a leading `'.'` of
/// the extension is not required).
pub open spec fn file_matches(t: TargetConfig, file: Seq<char>) -> bool {
    exists|j: int|
        0 <= j < t.watch_extensions@.len() && #[trigger] ends_with(file, strip_dot(t.watch_extensions@[j]@))
}

/// One of `files` matches the target's watch extensions.
pub open spec fn affected(t: TargetConfig, files: Seq<Seq<char>>) -> bool {
    exists|i: int| 0 <= i < files.len() && #[trigger] file_matches(t, files[i])
}

/// A change to `files` asks for a build of `t`: the target is enabled, and
/// either it watches every extension or one of the files matches.
pub open spec fn triggers(t: TargetConfig, files: Seq<Seq<char>>) -> bool {
    t.enabled && (t.watch_extensions@.len() == 0 || affected(t, files))
}

/// `file` lies under one of the target's watch paths, or the target names none.
pub open spec fn in_watch_paths(t: TargetConfig, file: Seq<char>) -> bool {
    t.watch_paths@.len() == 0 || exists|j: int|
        0 <= j < t.watch_paths@.len() && #[trigger] starts_with(file, t.watch_paths@[j]@)
}

/// The number of `files` that lie under the target's watch paths.
pub open spec fn affinity(t: TargetConfig, files: Seq<Seq<char>>) -> nat
    decreases files.len(),
{
    if files.len() == 0 {
        0
    } else {
        affinity(t, files.drop_last()) + if in_watch_paths(t, files.last()) {
            1nat
        } else {
            0nat
        }
    }
}

/// The priority score of a new pending build: the target's priority plus
/// one for each changed file under its watch paths.
pub open spec fn priority_of(t: TargetConfig, files: Seq<Seq<char>>) -> int {
    t.priority + affinity(t, files)
}

/// The score of `t` for `files` fits in an `i32`.
pub open spec fn score_fits(t: TargetConfig, files: Seq<Seq<char>>) -> bool {
    affinity(t, files) <= i32::MAX && priority_of(t, files) <= i32::MAX
}

/// `existing` with each of `new`, in order, appended unless already present.
pub open spec fn merge_files(existing: Seq<Seq<char>>, new: Seq<Seq<char>>) -> Seq<Seq<char>>
    decreases new.len(),
{
    if new.len() == 0 {
        existing
    } else {
        let m = merge_files(existing, new.drop_last());
        if m.contains(new.last()) {
            m
        } else {
            m.push(new.last())
        }
    }
}

/// The index of the first pending build for `name`, or -1.
pub open spec fn find_pending(p: Seq<PendingBuildView>, name: Seq<char>) -> int
    decreases p.len(),
{
    if p.len() == 0 {
        -1
    } else {
        let r = find_pending(p.drop_last(), name);
        if r >= 0 {
            r
        } else if p.last().target_name == name {
            p.len() - 1
        } else {
            -1
        }
    }
}

/// The pending builds after a change to `files` at time `ts` is offered to
/// target `t`: coalesced into the target's pending build if it has one,
/// else queued as a new pending build.
pub open spec fn enqueue_target(
    p: Seq<PendingBuildView>,
    t: TargetConfig,
    files: Seq<Seq<char>>,
    ts: i64,
) -> Seq<PendingBuildView> {
    if !triggers(t, files) {
        p
    } else {
        let k = find_pending(p, t.name@);
        if k >= 0 {
            p.update(
                k,
                PendingBuildView { trigger_files: merge_files(p[k].trigger_files, files), ..p[k] },
            )
        } else {
            p.push(
                PendingBuildView {
                    target_name: t.name@,
                    priority_score: priority_of(t, files) as i32,
                    trigger_files: files,
                    queued_at: ts,
                },
            )
        }
    }
}

/// The pending builds after a change is offered to each of `targets` in turn.
pub open spec fn enqueue_targets(
    p: Seq<PendingBuildView>,
    targets: Seq<TargetConfig>,
    files: Seq<Seq<char>>,
    ts: i64,
) -> Seq<PendingBuildView>
    decreases targets.len(),
{
    if targets.len() == 0 {
        p
    } else {
        enqueue_target(enqueue_targets(p, targets.drop_last(), files, ts), targets.last(), files, ts)
    }
}

/// Offering a change to `targets[i]` adds a new pending build: the change
/// triggers the target, and no build of its name is pending once the
/// earlier targets have been offered the change.
pub open spec fn adds_new_entry(
    p: Seq<PendingBuildView>,
    targets: Seq<TargetConfig>,
    i: int,
    files: Seq<Seq<char>>,
    ts: i64,
) -> bool {
    triggers(targets[i], files) && find_pending(enqueue_targets(p, targets.take(i), files, ts), targets[i].name@)
        == -1
}

/// Every new pending build that offering a change to `targets` adds has a
/// score that fits in an `i32` (builds that are coalesced get no score).
pub open spec fn new_scores_fit(
    p: Seq<PendingBuildView>,
    targets: Seq<TargetConfig>,
    files: Seq<Seq<char>>,
    ts: i64,
) -> bool {
    forall|i: int| 0 <= i < targets.len() && #[trigger] adds_new_entry(p, targets, i, files, ts) ==> score_fits(
        targets[i],
        files,
    )
}

/// The index of the first pending build with the highest score.
pub open spec fn best_index(p: Seq<PendingBuildView>) -> int
    decreases p.len(),
{
    if p.len() <= 1 {
        0
    } else {
        let b = best_index(p.drop_last());
        if p.last().priority_score > p[b].priority_score {
            p.len() - 1
        } else {
            b
        }
    }
}

/// The queue after a change event is offered to `targets`.
pub open spec fn enqueue_spec(
    q: BuildQueueView,
    files: Seq<Seq<char>>,
    ts: i64,
    targets: Seq<TargetConfig>,
) -> BuildQueueView {
    BuildQueueView { pending: enqueue_targets(q.pending, targets, files, ts), ..q }
}

/// What `dequeue` returns, and the queue after it.
pub open spec fn dequeue_spec(q: BuildQueueView) -> (Option<PendingBuildView>, BuildQueueView) {
    if q.building || q.pending.len() == 0 {
        (None, q)
    } else {
        let b = best_index(q.pending);
        (
            Some(q.pending[b]),
            BuildQueueView {
                pending: q.pending.remove(b),
                building: true,
                current_target: Some(q.pending[b].target_name),
            },
        )
    }
}

/// The queue after the running build completes.
pub open spec fn complete_spec(q: BuildQueueView) -> BuildQueueView {
    BuildQueueView { building: false, current_target: None, ..q }
}

/// The target names of `p` in the order in which repeated dequeues would
/// take them: highest score first, earlier-queued first among equal scores.
pub open spec fn drain_order(p: Seq<PendingBuildView>) -> Seq<Seq<char>>
    decreases p.len(),
{
    if p.len() == 0 {
        Seq::empty()
    } else {
        let b = best_index(p);
        proof {
            lemma_best_index(p);
        }
        seq![p[b].target_name] + drain_order(p.remove(b))
    }
}

// --- Lemmas about the specification ---

/// `best_index` picks the first highest-scored entry.
pub proof fn lemma_best_index(p: Seq<PendingBuildView>)
    requires
        p.len() > 0,
    ensures
        0 <= best_index(p) < p.len(),
        forall|i: int| 0 <= i < p.len() ==> (#[trigger] p[i]).priority_score <= p[best_index(p)].priority_score,
        forall|i: int| 0 <= i < best_index(p) ==> (#[trigger] p[i]).priority_score < p[best_index(p)].priority_score,
    decreases p.len(),
{
    if p.len() > 1 {
        lemma_best_index(p.drop_last());
        let b = best_index(p.drop_last());
        assert(p.drop_last()[b] == p[b]);
        assert forall|i: int| 0 <= i < p.len() - 1 implies p[i] == p.drop_last()[i] by {}
    }
}

/// `find_pending` finds the first entry with the given name, or reports -1
/// when there is none.
pub proof fn lemma_find_pending(p: Seq<PendingBuildView>, name: Seq<char>)
    ensures
        -1 <= find_pending(p, name) < p.len(),
        find_pending(p, name) >= 0 ==> p[find_pending(p, name)].target_name == name,
        forall|i: int| 0 <= i < p.len() && (find_pending(p, name) == -1 || i < find_pending(p, name))
            ==> (#[trigger] p[i]).target_name != name,
    decreases p.len(),
{
    if p.len() > 0 {
        lemma_find_pending(p.drop_last(), name);
        assert forall|i: int| 0 <= i < p.len() - 1 implies p[i] == p.drop_last()[i] by {}
    }
}

/// After a change is offered to `t`, no build of `name` is pending exactly
/// when none was and `t` is not a triggered target of that name.
proof fn lemma_enqueue_target_names(p: Seq<PendingBuildView>, t: TargetConfig, files: Seq<Seq<char>>, ts: i64, name: Seq<char>)
    ensures
        (find_pending(enqueue_target(p, t, files, ts), name) == -1) == (find_pending(p, name) == -1 && !(
        triggers(t, files) && t.name@ == name)),
{
    let q = enqueue_target(p, t, files, ts);
    lemma_find_pending(p, name);
    lemma_find_pending(q, name);
    if triggers(t, files) {
        let k = find_pending(p, t.name@);
        lemma_find_pending(p, t.name@);
        if k >= 0 {
            assert forall|i: int| 0 <= i < q.len() implies (#[trigger] q[i]).target_name == p[i].target_name by {}
            if find_pending(p, name) >= 0 {
                assert(q[find_pending(p, name)].target_name == name);
            }
        } else {
            assert(q.drop_last() =~= p);
        }
    }
}

/// After a change is offered to `targets`, no build of `name` is pending
/// exactly when none was and no triggered target has that name.
proof fn lemma_enqueue_targets_names(
    p: Seq<PendingBuildView>,
    targets: Seq<TargetConfig>,
    files: Seq<Seq<char>>,
    ts: i64,
    name: Seq<char>,
)
    ensures
        (find_pending(enqueue_targets(p, targets, files, ts), name) == -1) == (find_pending(p, name) == -1
            && !triggered_name(targets, files, name)),
    decreases targets.len(),
{
    if targets.len() > 0 {
        let init = targets.drop_last();
        lemma_enqueue_targets_names(p, init, files, ts, name);
        lemma_enqueue_target_names(enqueue_targets(p, init, files, ts), targets.last(), files, ts, name);
        if triggered_name(init, files, name) {
            let k = choose|k: int| 0 <= k < init.len() && #[trigger] triggers(init[k], files) && init[k].name@ == name;
            assert(targets[k] == init[k]);
        }
        if triggered_name(targets, files, name) {
            let k = choose|k: int| 0 <= k < targets.len() && #[trigger] triggers(targets[k], files) && targets[k].name@
                == name;
            if k < targets.len() - 1 {
                assert(init[k] == targets[k]);
            }
        }
    }
}

/// Merging holds exactly the files of both sides, and adds no repeats.
pub proof fn lemma_merge_files_set(existing: Seq<Seq<char>>, new: Seq<Seq<char>>)
    ensures
        existing.no_duplicates() ==> merge_files(existing, new).no_duplicates(),
        forall|x: Seq<char>| #[trigger] merge_files(existing, new).contains(x) <==> (existing.contains(x) || new.contains(x)),
    decreases new.len(),
{
    if new.len() > 0 {
        let init = new.drop_last();
        let m = merge_files(existing, init);
        lemma_merge_files_set(existing, init);
        assert forall|x: Seq<char>| new.contains(x) <==> (init.contains(x) || x == new.last()) by {
            if new.contains(x) {
                let k = choose|k: int| 0 <= k < new.len() && new[k] == x;
                if k < new.len() - 1 {
                    assert(init[k] == x);
                }
            }
            if init.contains(x) {
                let k = choose|k: int| 0 <= k < init.len() && init[k] == x;
                assert(new[k] == x);
            }
            if x == new.last() {
                assert(new[new.len() - 1] == x);
            }
        }
        if !m.contains(new.last()) {
            let r = m.push(new.last());
            assert forall|x: Seq<char>| r.contains(x) <==> (m.contains(x) || x == new.last()) by {
                if r.contains(x) {
                    let k = choose|k: int| 0 <= k < r.len() && r[k] == x;
                    if k < m.len() {
                        assert(m[k] == x);
                    }
                }
                if m.contains(x) {
                    let k = choose|k: int| 0 <= k < m.len() && m[k] == x;
                    assert(r[k] == x);
                }
                if x == new.last() {
                    assert(r[m.len() as int] == x);
                }
            }
            if existing.no_duplicates() {
                assert forall|i: int, j: int| 0 <= i < r.len() && 0 <= j < r.len() && i != j implies r[i] != r[j] by {
                    if i < m.len() && j < m.len() {
                        assert(r[i] == m[i] && r[j] == m[j]);
                    } else if i < m.len() {
                        assert(r[i] == m[i]);
                        assert(m.contains(m[i]));
                    } else {
                        assert(r[j] == m[j]);
                        assert(m.contains(m[j]));
                    }
                }
            }
        }
    }
}

/// Merging keeps every existing file, at its place.
pub proof fn lemma_merge_extends(existing: Seq<Seq<char>>, new: Seq<Seq<char>>)
    ensures
        merge_files(existing, new).len() >= existing.len(),
        merge_files(existing, new).subrange(0, existing.len() as int) == existing,
        forall|i: int| 0 <= i < new.len() ==> merge_files(existing, new).contains(#[trigger] new[i]),
    decreases new.len(),
{
    if new.len() > 0 {
        let m = merge_files(existing, new.drop_last());
        lemma_merge_extends(existing, new.drop_last());
        assert forall|i: int| 0 <= i < new.len() implies merge_files(existing, new).contains(#[trigger] new[i]) by {
            if i < new.len() - 1 {
                assert(new.drop_last()[i] == new[i]);
                assert(m.contains(new[i]));
                if !m.contains(new.last()) {
                    let k = choose|k: int| 0 <= k < m.len() && m[k] == new[i];
                    assert(m.push(new.last())[k] == new[i]);
                }
            } else {
                if !m.contains(new.last()) {
                    assert(m.push(new.last())[m.len() as int] == new.last());
                }
            }
        }
        if !m.contains(new.last()) {
            assert(m.push(new.last()).subrange(0, existing.len() as int) =~= m.subrange(
                0,
                existing.len() as int,
            ));
        }
    }
}

// --- Executable helpers ---

/// Returns whether `file` matches one of the target's watch extensions.
fn file_matches_target(target: &TargetConfig, file: &String) -> (res: bool)
    ensures
        res == file_matches(*target, file@),
{
    let mut j: usize = 0;
    while j < target.watch_extensions.len()
        invariant
            j <= target.watch_extensions@.len(),
            forall|k: int| 0 <= k < j ==> !#[trigger] ends_with(file@, strip_dot(target.watch_extensions@[k]@)),
        decreases target.watch_extensions.len() - j,
    {
        let ext = str_strip_dot(target.watch_extensions[j].as_str());
        if str_ends_with(file.as_str(), ext) {
            return true;
        }
        j = j + 1;
    }
    false
}

/// Returns whether one of `files` matches the target's watch extensions.
fn target_affected(target: &TargetConfig, files: &Vec<String>) -> (res: bool)
    ensures
        res == affected(*target, files.deep_view()),
{
    let mut i: usize = 0;
    while i < files.len()
        invariant
            i <= files.len(),
            forall|k: int| 0 <= k < i ==> !#[trigger] file_matches(*target, files.deep_view()[k]),
        decreases files.len() - i,
    {
        if file_matches_target(target, &files[i]) {
            assert(file_matches(*target, files.deep_view()[i as int]));
            return true;
        }
        i = i + 1;
    }
    false
}

/// Returns whether `file` lies under one of the target's watch paths.
fn file_in_watch_paths(target: &TargetConfig, file: &String) -> (res: bool)
    ensures
        res == in_watch_paths(*target, file@),
{
    if target.watch_paths.len() == 0 {
        return true;
    }
    let mut j: usize = 0;
    while j < target.watch_paths.len()
        invariant
            j <= target.watch_paths@.len(),
            forall|k: int| 0 <= k < j ==> !#[trigger] starts_with(file@, target.watch_paths@[k]@),
        decreases target.watch_paths.len() - j,
    {
        if str_starts_with(file.as_str(), target.watch_paths[j].as_str()) {
            return true;
        }
        j = j + 1;
    }
    false
}

/// Compute the priority score for a target based on its configured
/// priority and the changed files: one point more for each changed file
/// under the target's watch paths (every file, when it names none).
pub fn compute_priority(target: &TargetConfig, changed_files: &Vec<String>) -> (score: i32)
    requires
        score_fits(*target, changed_files.deep_view()),
    ensures
        score == priority_of(*target, changed_files.deep_view()),
{
    let count = count_affinity(target, changed_files);
    target.priority + count as i32
}

/// Returns the number of `files` under the target's watch paths.
fn count_affinity(target: &TargetConfig, changed_files: &Vec<String>) -> (count: usize)
    ensures
        count == affinity(*target, changed_files.deep_view()),
{
    let ghost files = changed_files.deep_view();
    let mut count: usize = 0;
    let mut i: usize = 0;
    while i < changed_files.len()
        invariant
            i <= changed_files.len(),
            files == changed_files.deep_view(),
            count <= i,
            count == affinity(*target, files.take(i as int)),
        decreases changed_files.len() - i,
    {
        assert(files.take(i + 1).drop_last() =~= files.take(i as int));
        assert(files.take(i + 1).last() == files[i as int]);
        if file_in_watch_paths(target, &changed_files[i]) {
            count = count + 1;
        }
        i = i + 1;
    }
    assert(files.take(changed_files.len() as int) =~= files);
    count
}

/// Returns whether a change to `files` triggers `target`.
fn fires(target: &TargetConfig, files: &Vec<String>) -> (res: bool)
    ensures
        res == triggers(*target, files.deep_view()),
{
    target.enabled && (target.watch_extensions.len() == 0 || target_affected(target, files))
}

/// Returns whether one of the first `n` targets is triggered by a change to
/// `files` and named `name`.
fn triggered_before(targets: &[TargetConfig], n: usize, files: &Vec<String>, name: &String) -> (res: bool)
    requires
        n <= targets@.len(),
    ensures
        res == triggered_name(targets@.take(n as int), files.deep_view(), name@),
{
    let ghost tk = targets@.take(n as int);
    let mut k: usize = 0;
    while k < n
        invariant
            k <= n <= targets@.len(),
            tk == targets@.take(n as int),
            forall|j: int| 0 <= j < k ==> !(#[trigger] triggers(tk[j], files.deep_view()) && tk[j].name@ == name@),
        decreases n - k,
    {
        if fires(&targets[k], files) && targets[k].name == *name {
            assert(tk[k as int] == targets@[k as int]);
            assert(triggers(tk[k as int], files.deep_view()));
            return true;
        }
        assert(tk[k as int] == targets@[k as int]);
        k = k + 1;
    }
    false
}

/// Returns whether offering `event` to `targets` keeps every new priority
/// score within an `i32` (what `enqueue_from_event` requires of `queue`).
pub fn event_scores_fit(queue: &BuildQueue, event: &FileChangeEvent, targets: &[TargetConfig]) -> (res: bool)
    ensures
        res == new_scores_fit(queue@.pending, targets@, event.files(), event.timestamp),
{
    let ghost p = queue@.pending;
    let ghost files = event.files();
    let ghost ts = event.timestamp;
    let mut i: usize = 0;
    while i < targets.len()
        invariant
            i <= targets@.len(),
            p == queue@.pending,
            files == event.files(),
            ts == event.timestamp,
            forall|k: int| 0 <= k < i && #[trigger] adds_new_entry(p, targets@, k, files, ts) ==> score_fits(
                targets@[k],
                files,
            ),
        decreases targets.len() - i,
    {
        let t = &targets[i];
        proof {
            lemma_enqueue_targets_names(p, targets@.take(i as int), files, ts, t.name@);
        }
        if fires(t, &event.changed_files) {
            let pending_already = match find_index(&queue.pending, &t.name) {
                Some(_) => true,
                None => false,
            };
            if !pending_already && !triggered_before(targets, i, &event.changed_files, &t.name) {
                assert(adds_new_entry(p, targets@, i as int, files, ts));
                let count = count_affinity(t, &event.changed_files);
                if count > i32::MAX as usize || (t.priority as i64) + (count as i64) > i32::MAX as i64 {
                    assert(!score_fits(targets@[i as int], event.files()));
                    return false;
                }
            } else {
                assert(!adds_new_entry(p, targets@, i as int, files, ts));
            }
        } else {
            assert(!adds_new_entry(p, targets@, i as int, files, ts));
        }
        i = i + 1;
    }
    true
}

/// Returns the index of the pending build for `name`, if any.
fn find_index(pending: &Vec<PendingBuild>, name: &String) -> (res: Option<usize>)
    ensures
        match res {
            Some(k) => k as int == find_pending(views(pending@), name@),
            None => find_pending(views(pending@), name@) == -1,
        },
{
    let ghost p = views(pending@);
    proof {
        lemma_find_pending(p, name@);
    }
    let mut i: usize = 0;
    while i < pending.len()
        invariant
            i <= pending.len(),
            p == views(pending@),
            -1 <= find_pending(p, name@) < p.len(),
            find_pending(p, name@) >= 0 ==> p[find_pending(p, name@)].target_name == name@,
            forall|k: int| 0 <= k < p.len() && (find_pending(p, name@) == -1 || k < find_pending(p, name@))
                ==> (#[trigger] p[k]).target_name != name@,
            forall|k: int| 0 <= k < i ==> (#[trigger] p[k]).target_name != name@,
        decreases pending.len() - i,
    {
        if pending[i].target_name == *name {
            assert(p[i as int].target_name == name@);
            return Some(i);
        }
        i = i + 1;
    }
    None
}

/// Returns the index of the first pending build with the highest score.
fn best_pending_index(pending: &Vec<PendingBuild>) -> (res: usize)
    requires
        pending.len() > 0,
    ensures
        res as int == best_index(views(pending@)),
{
    let ghost p = views(pending@);
    let mut b: usize = 0;
    let mut i: usize = 1;
    assert(p.take(1).len() == 1);
    while i < pending.len()
        invariant
            1 <= i <= pending.len(),
            p == views(pending@),
            b < i,
            b as int == best_index(p.take(i as int)),
        decreases pending.len() - i,
    {
        let ghost t = p.take(i + 1);
        assert(t.drop_last() =~= p.take(i as int));
        assert(t[b as int] == p[b as int]);
        assert(t.last() == p[i as int]);
        if pending[i].priority_score > pending[b].priority_score {
            b = i;
        }
        i = i + 1;
    }
    assert(p.take(pending.len() as int) =~= p);
    b
}

/// Appends each of `new` to `files` unless already present.
pub(crate) fn merge_into(files: &mut Vec<String>, new: &Vec<String>)
    ensures
        final(files).deep_view() == merge_files(old(files).deep_view(), new.deep_view()),
{
    let ghost start = files.deep_view();
    let ghost nv = new.deep_view();
    let mut j: usize = 0;
    while j < new.len()
        invariant
            j <= new.len(),
            nv == new.deep_view(),
            files.deep_view() == merge_files(start, nv.take(j as int)),
        decreases new.len() - j,
    {
        let ghost t = nv.take(j + 1);
        assert(t.drop_last() =~= nv.take(j as int));
        assert(t.last() == nv[j as int]);
        let present = vec_has(files, &new[j]);
        proof {
            let m = files.deep_view();
            if present {
                let k = choose|k: int| 0 <= k < m.len() && m[k] == nv[j as int];
                assert(m.contains(nv[j as int]));
            } else {
                assert(!m.contains(nv[j as int]));
            }
        }
        if !present {
            let f = new[j].clone();
            let ghost before = files.deep_view();
            files.push(f);
            assert(files.deep_view() =~= before.push(nv[j as int]));
        }
        j = j + 1;
    }
    assert(nv.take(new.len() as int) =~= nv);
}

// --- The queue ---

impl BuildQueue {
    /// The queue holds at most one pending build per target.
    pub open spec fn wf(&self) -> bool {
        self@.wf()
    }

    /// An empty, idle queue.
    pub fn new() -> (res: Self)
        ensures
            res@.pending.len() == 0,
            !res@.building,
            res@.current_target.is_none(),
            res.wf(),
    {
        BuildQueue { pending: Vec::new(), building: false, current_target: None }
    }

    /// Evaluate a file change event against configured targets.
    /// Enqueue affected targets, coalescing if already pending.
    pub fn enqueue_from_event(&mut self, event: &FileChangeEvent, targets: &[TargetConfig])
        requires
            old(self).wf(),
            new_scores_fit(old(self)@.pending, targets@, event.files(), event.timestamp),
        ensures
            final(self).wf(),
            final(self)@ == enqueue_spec(old(self)@, event.files(), event.timestamp, targets@),
    {
        let ghost start = self@;
        let ghost files = event.files();
        let ghost ts = event.timestamp;
        let mut i: usize = 0;
        while i < targets.len()
            invariant
                i <= targets@.len(),
                files == event.files(),
                ts == event.timestamp,
                self.wf(),
                self@.building == start.building,
                self@.current_target == start.current_target,
                self@.pending == enqueue_targets(start.pending, targets@.take(i as int), files, ts),
                new_scores_fit(start.pending, targets@, files, ts),
            decreases targets.len() - i,
        {
            let target = &targets[i];
            let ghost prev = self@.pending;
            proof {
                let tk = targets@.take(i + 1);
                assert(tk.drop_last() =~= targets@.take(i as int));
                assert(tk.last() == targets@[i as int]);
            }
            let fire = target.enabled && (target.watch_extensions.len() == 0 || target_affected(
                target,
                &event.changed_files,
            ));
            if fire {
                proof {
                    lemma_find_pending(prev, target.name@);
                }
                match find_index(&self.pending, &target.name) {
                    Some(k) => {
                        let mut pb = self.pending.remove(k);
                        merge_into(&mut pb.trigger_files, &event.changed_files);
                        self.pending.insert(k, pb);
                        proof {
                            let upd = PendingBuildView {
                                trigger_files: merge_files(prev[k as int].trigger_files, files),
                                ..prev[k as int]
                            };
                            assert(self@.pending =~= prev.update(k as int, upd));
                        }
                    },
                    None => {
                        assert(adds_new_entry(start.pending, targets@, i as int, files, ts));
                        let score = compute_priority(target, &event.changed_files);
                        let pb = PendingBuild {
                            target_name: target.name.clone(),
                            priority_score: score,
                            trigger_files: clone_strings(&event.changed_files),
                            queued_at: event.timestamp,
                        };
                        let ghost pv = pb@;
                        self.pending.push(pb);
                        proof {
                            assert(self@.pending =~= prev.push(pv));
                        }
                    },
                }
            }
            i = i + 1;
        }
        proof {
            assert(targets@.take(targets@.len() as int) =~= targets@);
        }
    }

    /// Dequeue the highest-priority pending build.
    /// Returns None if the queue is empty or a build is already running.
    pub fn dequeue(&mut self) -> (res: Option<PendingBuild>)
        requires
            old(self).wf(),
        ensures
            final(self).wf(),
            match res {
                Some(b) => dequeue_spec(old(self)@).0 == Some(b@),
                None => dequeue_spec(old(self)@).0.is_none(),
            },
            final(self)@ == dequeue_spec(old(self)@).1,
    {
        if self.building || self.pending.len() == 0 {
            return None;
        }
        let ghost prev = self@.pending;
        let b = best_pending_index(&self.pending);
        proof {
            lemma_best_index(prev);
        }
        let build = self.pending.remove(b);
        self.building = true;
        self.current_target = Some(build.target_name.clone());
        proof {
            assert(self@.pending =~= prev.remove(b as int));
            assert forall|i: int, j: int|
                0 <= i < self@.pending.len() && 0 <= j < self@.pending.len() && i != j
                implies #[trigger] self@.pending[i].target_name != #[trigger] self@.pending[j].target_name by {
                let oi = if i < b { i } else { i + 1 };
                let oj = if j < b { j } else { j + 1 };
                assert(self@.pending[i] == prev[oi]);
                assert(self@.pending[j] == prev[oj]);
            }
        }
        Some(build)
    }

    /// Mark the current build as complete. Allows the next dequeue.
    pub fn build_complete(&mut self)
        requires
            old(self).wf(),
        ensures
            final(self).wf(),
            final(self)@ == complete_spec(old(self)@),
    {
        self.building = false;
        self.current_target = None;
    }

    /// Check if there are pending builds waiting.
    pub fn has_pending(&self) -> (res: bool)
        ensures
            res == (self@.pending.len() > 0),
    {
        self.pending.len() > 0
    }

    /// Get a snapshot of pending target names for state reporting,
    /// highest priority first.
    pub fn pending_targets(&self) -> (res: Vec<String>)
        ensures
            res.deep_view() == drain_order(self@.pending),
    {
        let ghost whole = self@.pending;
        let mut rest: Vec<PendingBuild> = Vec::new();
        let mut i: usize = 0;
        while i < self.pending.len()
            invariant
                i <= self.pending.len(),
                whole == views(self.pending@),
                views(rest@) == whole.take(i as int),
            decreases self.pending.len() - i,
        {
            let c = self.pending[i].copy();
            let ghost before = views(rest@);
            rest.push(c);
            assert(views(rest@) =~= before.push(whole[i as int]));
            assert(whole.take(i + 1) =~= whole.take(i as int).push(whole[i as int]));
            i = i + 1;
        }
        assert(whole.take(self.pending.len() as int) =~= whole);
        let mut out: Vec<String> = Vec::new();
        while rest.len() > 0
            invariant
                out.deep_view() + drain_order(views(rest@)) == drain_order(whole),
            decreases rest.len(),
        {
            let ghost r = views(rest@);
            let b = best_pending_index(&rest);
            proof {
                lemma_best_index(r);
            }
            let pb = rest.remove(b);
            let ghost before = out.deep_view();
            out.push(pb.target_name);
            proof {
                assert(views(rest@) =~= r.remove(b as int));
                assert(out.deep_view() =~= before.push(r[b as int].target_name));
                assert(drain_order(r) == seq![r[b as int].target_name] + drain_order(r.remove(b as int)));
                assert(out.deep_view() + drain_order(views(rest@)) =~= before + drain_order(r));
            }
        }
        proof {
            assert(views(rest@) =~= Seq::<PendingBuildView>::empty());
            assert(out.deep_view() + drain_order(views(rest@)) =~= out.deep_view());
        }
        out
    }
}

// --- Laws ---

/// `a` is a prefix of `b`.
pub open spec fn is_prefix(a: Seq<Seq<char>>, b: Seq<Seq<char>>) -> bool {
    a.len() <= b.len() && b.subrange(0, a.len() as int) == a
}

proof fn lemma_prefix_contains(a: Seq<Seq<char>>, b: Seq<Seq<char>>, f: Seq<char>)
    requires
        is_prefix(a, b),
        a.contains(f),
    ensures
        b.contains(f),
{
    let k = choose|k: int| 0 <= k < a.len() && a[k] == f;
    assert(b.subrange(0, a.len() as int)[k] == b[k]);
}

proof fn lemma_prefix_trans(a: Seq<Seq<char>>, b: Seq<Seq<char>>, c: Seq<Seq<char>>)
    requires
        is_prefix(a, b),
        is_prefix(b, c),
    ensures
        is_prefix(a, c),
{
    assert forall|i: int| 0 <= i < a.len() implies c.subrange(0, a.len() as int)[i] == a[i] by {
        assert(b.subrange(0, a.len() as int)[i] == b[i]);
        assert(c.subrange(0, b.len() as int)[i] == c[i]);
    }
    assert(c.subrange(0, a.len() as int) =~= a);
}

/// `fs` holds each of `files`.
pub open spec fn holds_all(fs: Seq<Seq<char>>, files: Seq<Seq<char>>) -> bool {
    forall|j: int| 0 <= j < files.len() ==> fs.contains(#[trigger] files[j])
}

/// `e` is the pending build of target `name` and holds each of `files`.
pub open spec fn covers(e: PendingBuildView, name: Seq<char>, files: Seq<Seq<char>>) -> bool {
    e.target_name == name && holds_all(e.trigger_files, files)
}

/// Some pending build of `r` is the one of target `name` and holds each of `files`.
pub open spec fn has_covering(r: Seq<PendingBuildView>, name: Seq<char>, files: Seq<Seq<char>>) -> bool {
    exists|k: int| 0 <= k < r.len() && #[trigger] covers(r[k], name, files)
}

/// Some target of `targets` triggered on `files` is named `name`.
pub open spec fn triggered_name(targets: Seq<TargetConfig>, files: Seq<Seq<char>>, name: Seq<char>) -> bool {
    exists|i: int| 0 <= i < targets.len() && #[trigger] triggers(targets[i], files) && targets[i].name@ == name
}

/// `e` is `old` with possibly more trigger files.
pub open spec fn grown(old: PendingBuildView, e: PendingBuildView) -> bool {
    &&& e.target_name == old.target_name
    &&& e.priority_score == old.priority_score
    &&& e.queued_at == old.queued_at
    &&& is_prefix(old.trigger_files, e.trigger_files)
}

proof fn lemma_grown_refl(e: PendingBuildView)
    ensures
        grown(e, e),
{
    assert(e.trigger_files.subrange(0, e.trigger_files.len() as int) =~= e.trigger_files);
}

proof fn lemma_holds_all_grows(a: Seq<Seq<char>>, b: Seq<Seq<char>>, files: Seq<Seq<char>>)
    requires
        is_prefix(a, b),
        holds_all(a, files),
    ensures
        holds_all(b, files),
{
    assert forall|j: int| 0 <= j < files.len() implies b.contains(#[trigger] files[j]) by {
        lemma_prefix_contains(a, b, files[j]);
    }
}

/// Everything that offering one change to a list of targets does to the
/// pending builds.
proof fn lemma_enqueue_targets(
    p: Seq<PendingBuildView>,
    targets: Seq<TargetConfig>,
    files: Seq<Seq<char>>,
    ts: i64,
)
    requires
        distinct_targets(p),
    ensures
        distinct_targets(enqueue_targets(p, targets, files, ts)),
        enqueue_targets(p, targets, files, ts).len() >= p.len(),
        forall|k: int| 0 <= k < p.len() ==> grown(p[k], #[trigger] enqueue_targets(p, targets, files, ts)[k]),
        forall|i: int|
            0 <= i < targets.len() && triggers(#[trigger] targets[i], files) ==> has_covering(
                enqueue_targets(p, targets, files, ts),
                targets[i].name@,
                files,
            ),
        forall|k: int|
            p.len() <= k < enqueue_targets(p, targets, files, ts).len() ==> triggered_name(
                targets,
                files,
                #[trigger] enqueue_targets(p, targets, files, ts)[k].target_name,
            ) && enqueue_targets(p, targets, files, ts)[k].queued_at == ts,
    decreases targets.len(),
{
    if targets.len() == 0 {
        assert forall|k: int| 0 <= k < p.len() implies grown(p[k], #[trigger] enqueue_targets(p, targets, files, ts)[k]) by {
            lemma_grown_refl(p[k]);
        }
    } else {
        let init = targets.drop_last();
        let t = targets.last();
        let m = enqueue_targets(p, init, files, ts);
        let r = enqueue_targets(p, targets, files, ts);
        lemma_enqueue_targets(p, init, files, ts);
        assert(r == enqueue_target(m, t, files, ts));
        assert forall|i: int| 0 <= i < init.len() implies init[i] == targets[i] by {}
        // anything named by an earlier triggered target is named by one of all targets
        assert forall|name: Seq<char>| triggered_name(init, files, name) implies triggered_name(targets, files, name) by {
            let i = choose|i: int| 0 <= i < init.len() && #[trigger] triggers(init[i], files) && init[i].name@ == name;
            assert(targets[i] == init[i]);
        }
        if triggers(t, files) {
            lemma_find_pending(m, t.name@);
            let k = find_pending(m, t.name@);
            if k >= 0 {
                let upd = PendingBuildView { trigger_files: merge_files(m[k].trigger_files, files), ..m[k] };
                lemma_merge_extends(m[k].trigger_files, files);
                assert(r == m.update(k, upd));
                assert(grown(m[k], r[k]));
                assert forall|j: int| 0 <= j < m.len() implies grown(m[j], #[trigger] r[j]) by {
                    if j != k {
                        lemma_grown_refl(m[j]);
                    }
                }
                assert forall|j: int| 0 <= j < p.len() implies grown(p[j], #[trigger] r[j]) by {
                    assert(grown(p[j], m[j]));
                    lemma_prefix_trans(p[j].trigger_files, m[j].trigger_files, r[j].trigger_files);
                }
                assert(covers(r[k], t.name@, files));
                assert forall|i: int| 0 <= i < targets.len() && triggers(#[trigger] targets[i], files) implies has_covering(
                    r,
                    targets[i].name@,
                    files,
                ) by {
                    if i < targets.len() - 1 {
                        assert(triggers(init[i], files));
                        assert(has_covering(m, init[i].name@, files));
                        let k2 = choose|k2: int| 0 <= k2 < m.len() && #[trigger] covers(m[k2], init[i].name@, files);
                        assert(grown(m[k2], r[k2]));
                        lemma_holds_all_grows(m[k2].trigger_files, r[k2].trigger_files, files);
                        assert(covers(r[k2], targets[i].name@, files));
                    }
                }
                assert forall|k2: int| p.len() <= k2 < r.len() implies triggered_name(
                    targets,
                    files,
                    #[trigger] r[k2].target_name,
                ) && r[k2].queued_at == ts by {
                    assert(grown(m[k2], r[k2]));
                    assert(triggered_name(init, files, m[k2].target_name));
                }
            } else {
                let nb = PendingBuildView {
                    target_name: t.name@,
                    priority_score: priority_of(t, files) as i32,
                    trigger_files: files,
                    queued_at: ts,
                };
                assert(r == m.push(nb));
                assert forall|i: int, j: int|
                    0 <= i < r.len() && 0 <= j < r.len() && i != j implies #[trigger] r[i].target_name
                        != #[trigger] r[j].target_name by {
                    if i < m.len() && j < m.len() {
                        assert(r[i] == m[i] && r[j] == m[j]);
                    } else if i < m.len() {
                        assert(r[i] == m[i]);
                    } else {
                        assert(r[j] == m[j]);
                    }
                }
                assert forall|j: int| 0 <= j < p.len() implies grown(p[j], #[trigger] r[j]) by {
                    assert(r[j] == m[j]);
                }
                let last = m.len() as int;
                assert(r[last] == nb);
                assert(holds_all(files, files)) by {
                    assert forall|j: int| 0 <= j < files.len() implies files.contains(#[trigger] files[j]) by {}
                }
                assert(covers(r[last], t.name@, files));
                assert forall|i: int| 0 <= i < targets.len() && triggers(#[trigger] targets[i], files) implies has_covering(
                    r,
                    targets[i].name@,
                    files,
                ) by {
                    if i < targets.len() - 1 {
                        assert(triggers(init[i], files));
                        assert(has_covering(m, init[i].name@, files));
                        let k2 = choose|k2: int| 0 <= k2 < m.len() && #[trigger] covers(m[k2], init[i].name@, files);
                        assert(r[k2] == m[k2]);
                        assert(covers(r[k2], targets[i].name@, files));
                    }
                }
                assert(triggers(targets[targets.len() - 1], files));
                assert(triggered_name(targets, files, t.name@));
                assert forall|k2: int| p.len() <= k2 < r.len() implies triggered_name(
                    targets,
                    files,
                    #[trigger] r[k2].target_name,
                ) && r[k2].queued_at == ts by {
                    if k2 < m.len() {
                        assert(r[k2] == m[k2]);
                        assert(triggered_name(init, files, m[k2].target_name));
                    }
                }
            }
        } else {
            assert(r == m);
            assert forall|i: int| 0 <= i < targets.len() && triggers(#[trigger] targets[i], files) implies has_covering(
                r,
                targets[i].name@,
                files,
            ) by {
                assert(i < targets.len() - 1);
                assert(triggers(init[i], files));
            }
            assert forall|k2: int| p.len() <= k2 < r.len() implies triggered_name(
                targets,
                files,
                #[trigger] r[k2].target_name,
            ) && r[k2].queued_at == ts by {
                assert(triggered_name(init, files, m[k2].target_name));
            }
        }
    }
}

/// Some pending build of `p` is for target `name`.
pub open spec fn names_target(p: Seq<PendingBuildView>, name: Seq<char>) -> bool {
    exists|i: int| 0 <= i < p.len() && #[trigger] p[i].target_name == name
}

/// Offering a change never gives a target a second pending build.
pub proof fn law_one_pending_build_per_target(
    q: BuildQueueView,
    files: Seq<Seq<char>>,
    ts: i64,
    targets: Seq<TargetConfig>,
)
    requires
        q.wf(),
    ensures
        enqueue_spec(q, files, ts, targets).wf(),
{
    lemma_enqueue_targets(q.pending, targets, files, ts);
}

/// Every target that a change triggers has a pending build afterwards, and
/// that build holds every changed file.
pub proof fn law_triggered_targets_are_pending(
    q: BuildQueueView,
    files: Seq<Seq<char>>,
    ts: i64,
    targets: Seq<TargetConfig>,
)
    requires
        q.wf(),
    ensures
        forall|i: int|
            0 <= i < targets.len() && triggers(#[trigger] targets[i], files) ==> has_covering(
                enqueue_spec(q, files, ts, targets).pending,
                targets[i].name@,
                files,
            ),
{
    lemma_enqueue_targets(q.pending, targets, files, ts);
}

/// Coalescing: a change never drops, reorders or re-scores a pending build;
/// it only adds trigger files to it, after the ones it had.
pub proof fn law_enqueue_coalesces(
    q: BuildQueueView,
    files: Seq<Seq<char>>,
    ts: i64,
    targets: Seq<TargetConfig>,
)
    requires
        q.wf(),
    ensures
        enqueue_spec(q, files, ts, targets).pending.len() >= q.pending.len(),
        forall|k: int|
            0 <= k < q.pending.len() ==> grown(q.pending[k], #[trigger] enqueue_spec(q, files, ts, targets).pending[k]),
        enqueue_spec(q, files, ts, targets).building == q.building,
        enqueue_spec(q, files, ts, targets).current_target == q.current_target,
{
    lemma_enqueue_targets(q.pending, targets, files, ts);
}

/// Only targets that the change triggers (enabled, and watching one of the
/// changed files' extensions or all of them) get a new pending build, and it
/// carries the change's time.
pub proof fn law_only_triggered_targets_are_queued(
    q: BuildQueueView,
    files: Seq<Seq<char>>,
    ts: i64,
    targets: Seq<TargetConfig>,
)
    requires
        q.wf(),
    ensures
        forall|k: int|
            q.pending.len() <= k < enqueue_spec(q, files, ts, targets).pending.len() ==> triggered_name(
                targets,
                files,
                #[trigger] enqueue_spec(q, files, ts, targets).pending[k].target_name,
            ) && enqueue_spec(q, files, ts, targets).pending[k].queued_at == ts,
{
    lemma_enqueue_targets(q.pending, targets, files, ts);
    let r = enqueue_targets(q.pending, targets, files, ts);
    assert forall|k: int| q.pending.len() <= k < r.len() implies triggered_name(
        targets,
        files,
        #[trigger] enqueue_spec(q, files, ts, targets).pending[k].target_name,
    ) && r[k].queued_at == ts by {
        assert(triggered_name(targets, files, r[k].target_name));
    }
}

/// Only one build runs at a time: while a build is running, dequeue returns
/// nothing and leaves the queue as it is.
pub proof fn law_single_active_build(q: BuildQueueView)
    requires
        q.building,
    ensures
        dequeue_spec(q) == (None::<PendingBuildView>, q),
{
}

/// `file` ends with the extension `ext`, a leading `'.'` of `ext` dropped.
pub open spec fn has_extension(file: Seq<char>, ext: Seq<char>) -> bool {
    let e = if ext.len() > 0 && ext[0] == '.' {
        ext.subrange(1, ext.len() as int)
    } else {
        ext
    };
    e.len() <= file.len() && file.subrange(file.len() - e.len(), file.len() as int) =~= e
}

/// A target that watches given extensions is queued by a change only when
/// some changed file ends with one of them: a change whose files all end
/// otherwise leaves the queue as it was, and one where some file does (the
/// target being enabled) leaves a pending build for the target.
pub proof fn law_extension_decides_queueing(q: BuildQueueView, t: TargetConfig, files: Seq<Seq<char>>, ts: i64)
    requires
        t.watch_extensions@.len() > 0,
    ensures
        (forall|i: int, j: int|
            0 <= i < files.len() && 0 <= j < t.watch_extensions@.len() ==> !#[trigger] has_extension(
                files[i],
                t.watch_extensions@[j]@,
            )) ==> enqueue_spec(q, files, ts, seq![t]) == q,
        (t.enabled && exists|i: int, j: int|
            0 <= i < files.len() && 0 <= j < t.watch_extensions@.len() && #[trigger] has_extension(
                files[i],
                t.watch_extensions@[j]@,
            )) ==> exists|k: int|
            0 <= k < enqueue_spec(q, files, ts, seq![t]).pending.len() && #[trigger] enqueue_spec(
                q,
                files,
                ts,
                seq![t],
            ).pending[k].target_name == t.name@,
{
    let one = seq![t];
    assert(one.drop_last() =~= Seq::<TargetConfig>::empty());
    assert(one.last() == t);
    assert(enqueue_targets(q.pending, one.drop_last(), files, ts) == q.pending);
    assert(enqueue_targets(q.pending, one, files, ts) == enqueue_target(q.pending, t, files, ts));
    assert forall|i: int, j: int| 0 <= i < files.len() && 0 <= j < t.watch_extensions@.len() implies
        #[trigger] has_extension(files[i], t.watch_extensions@[j]@) == ends_with(
        files[i],
        strip_dot(t.watch_extensions@[j]@),
    ) by {
        let ext = t.watch_extensions@[j]@;
        if ext.len() > 0 && ext[0] == '.' {
            assert(ext.subrange(1, ext.len() as int) =~= ext.drop_first());
        }
    }
    if forall|i: int, j: int|
        0 <= i < files.len() && 0 <= j < t.watch_extensions@.len() ==> !#[trigger] has_extension(
            files[i],
            t.watch_extensions@[j]@,
        ) {
        assert forall|i: int| 0 <= i < files.len() implies !#[trigger] file_matches(t, files[i]) by {
            assert forall|j: int| 0 <= j < t.watch_extensions@.len() implies !#[trigger] ends_with(
                files[i],
                strip_dot(t.watch_extensions@[j]@),
            ) by {
                assert(!has_extension(files[i], t.watch_extensions@[j]@));
            }
        }
        assert(!affected(t, files));
        assert(!triggers(t, files));
        assert(enqueue_spec(q, files, ts, one) =~= q);
    }
    if t.enabled && exists|i: int, j: int|
        0 <= i < files.len() && 0 <= j < t.watch_extensions@.len() && #[trigger] has_extension(
            files[i],
            t.watch_extensions@[j]@,
        ) {
        let (i, j) = choose|i: int, j: int|
            0 <= i < files.len() && 0 <= j < t.watch_extensions@.len() && #[trigger] has_extension(
                files[i],
                t.watch_extensions@[j]@,
            );
        assert(ends_with(files[i], strip_dot(t.watch_extensions@[j]@)));
        assert(file_matches(t, files[i]));
        assert(affected(t, files));
        assert(triggers(t, files));
        let p = q.pending;
        let r = enqueue_spec(q, files, ts, one).pending;
        lemma_find_pending(p, t.name@);
        let k = find_pending(p, t.name@);
        if k >= 0 {
            assert(r[k].target_name == t.name@);
        } else {
            assert(r[p.len() as int].target_name == t.name@);
        }
    }
}

/// A disabled target is never queued; an enabled target that watches no
/// particular extension is queued by every change.
pub proof fn law_enabled_decides_queueing(q: BuildQueueView, t: TargetConfig, files: Seq<Seq<char>>, ts: i64)
    ensures
        !t.enabled ==> enqueue_spec(q, files, ts, seq![t]) == q,
        (t.enabled && t.watch_extensions@.len() == 0) ==> exists|k: int|
            0 <= k < enqueue_spec(q, files, ts, seq![t]).pending.len() && #[trigger] enqueue_spec(
                q,
                files,
                ts,
                seq![t],
            ).pending[k].target_name == t.name@,
{
    let one = seq![t];
    assert(one.drop_last() =~= Seq::<TargetConfig>::empty());
    assert(one.last() == t);
    assert(enqueue_targets(q.pending, one.drop_last(), files, ts) == q.pending);
    assert(enqueue_targets(q.pending, one, files, ts) == enqueue_target(q.pending, t, files, ts));
    if !t.enabled {
        assert(enqueue_spec(q, files, ts, one) =~= q);
    }
    if t.enabled && t.watch_extensions@.len() == 0 {
        let p = q.pending;
        let r = enqueue_spec(q, files, ts, one).pending;
        lemma_find_pending(p, t.name@);
        let k = find_pending(p, t.name@);
        if k >= 0 {
            assert(r[k].target_name == t.name@);
        } else {
            assert(r[p.len() as int].target_name == t.name@);
        }
    }
}

/// A target is named as running exactly while a build runs: a change keeps
/// the running build (so a running build still blocks the next dequeue),
/// dequeuing a build names its target, and completing clears it.
pub proof fn law_running_target(q: BuildQueueView, files: Seq<Seq<char>>, ts: i64, targets: Seq<TargetConfig>)
    requires
        q.wf(),
    ensures
        enqueue_spec(q, files, ts, targets).building == q.building,
        enqueue_spec(q, files, ts, targets).current_target == q.current_target,
        q.building ==> dequeue_spec(enqueue_spec(q, files, ts, targets)).0.is_none(),
        dequeue_spec(q).1.building == dequeue_spec(q).1.current_target.is_some(),
        dequeue_spec(q).0 matches Some(b) ==> dequeue_spec(q).1.building && dequeue_spec(q).1.current_target
            == Some(b.target_name),
        !complete_spec(q).building && complete_spec(q).current_target.is_none(),
{
}

/// Dequeue takes a pending build of the highest score, removes it, and marks
/// its target as the running build.
pub proof fn law_dequeue_takes_highest(q: BuildQueueView)
    requires
        q.wf(),
        !q.building,
        q.pending.len() > 0,
    ensures
        dequeue_spec(q).0 is Some,
        forall|i: int|
            0 <= i < q.pending.len() ==> (#[trigger] q.pending[i]).priority_score
                <= dequeue_spec(q).0->0.priority_score,
        names_target(q.pending, dequeue_spec(q).0->0.target_name),
        !names_target(dequeue_spec(q).1.pending, dequeue_spec(q).0->0.target_name),
        dequeue_spec(q).1.pending.len() == q.pending.len() - 1,
        dequeue_spec(q).1.building,
        dequeue_spec(q).1.current_target == Some(dequeue_spec(q).0->0.target_name),
        dequeue_spec(q).1.wf(),
{
    lemma_best_index(q.pending);
    let b = best_index(q.pending);
    let r = q.pending.remove(b);
    assert(q.pending[b].target_name == q.pending[b].target_name);
    assert forall|i: int| 0 <= i < r.len() implies #[trigger] r[i].target_name != q.pending[b].target_name by {
        if i < b {
            assert(r[i] == q.pending[i]);
        } else {
            assert(r[i] == q.pending[i + 1]);
        }
    }
    assert forall|i: int, j: int|
        0 <= i < r.len() && 0 <= j < r.len() && i != j implies #[trigger] r[i].target_name != #[trigger] r[j].target_name by {
        let oi = if i < b { i } else { i + 1 };
        let oj = if j < b { j } else { j + 1 };
        assert(r[i] == q.pending[oi]);
        assert(r[j] == q.pending[oj]);
    }
}

/// Once the running build completes, the next dequeue starts a build
/// exactly when one is pending.
pub proof fn law_complete_allows_next(q: BuildQueueView)
    ensures
        dequeue_spec(complete_spec(q)).0.is_some() == (q.pending.len() > 0),
        complete_spec(q).pending == q.pending,
{
}

/// The next build to run is the first of `pending_targets`.
pub proof fn law_pending_targets_head(q: BuildQueueView)
    requires
        !q.building,
        q.pending.len() > 0,
    ensures
        drain_order(q.pending).len() > 0,
        drain_order(q.pending)[0] == dequeue_spec(q).0->0.target_name,
{
    lemma_best_index(q.pending);
}

/// Without new changes, successive builds never rise in priority.
pub proof fn law_successive_builds_non_increasing(q: BuildQueueView)
    requires
        !q.building,
        q.pending.len() >= 2,
    ensures
        dequeue_spec(complete_spec(dequeue_spec(q).1)).0->0.priority_score <= dequeue_spec(q).0->0.priority_score,
{
    lemma_best_index(q.pending);
    let b = best_index(q.pending);
    let r = q.pending.remove(b);
    lemma_best_index(r);
    let c = best_index(r);
    if c < b {
        assert(r[c] == q.pending[c]);
    } else {
        assert(r[c] == q.pending[c + 1]);
    }
}

proof fn lemma_remove_distinct(p: Seq<PendingBuildView>, b: int)
    requires
        distinct_targets(p),
        0 <= b < p.len(),
    ensures
        distinct_targets(p.remove(b)),
        forall|i: int| 0 <= i < p.remove(b).len() ==> #[trigger] p.remove(b)[i].target_name != p[b].target_name,
{
    let r = p.remove(b);
    assert forall|i: int, j: int|
        0 <= i < r.len() && 0 <= j < r.len() && i != j implies #[trigger] r[i].target_name
            != #[trigger] r[j].target_name by {
        let oi = if i < b { i } else { i + 1 };
        let oj = if j < b { j } else { j + 1 };
        assert(r[i] == p[oi]);
        assert(r[j] == p[oj]);
    }
    assert forall|i: int| 0 <= i < r.len() implies #[trigger] r[i].target_name != p[b].target_name by {
        let oi = if i < b { i } else { i + 1 };
        assert(r[i] == p[oi]);
    }
}

proof fn lemma_drain_unfold(p: Seq<PendingBuildView>)
    requires
        p.len() > 0,
    ensures
        0 <= best_index(p) < p.len(),
        drain_order(p) == seq![p[best_index(p)].target_name] + drain_order(p.remove(best_index(p))),
{
    lemma_best_index(p);
}

proof fn lemma_drain_len(p: Seq<PendingBuildView>)
    ensures
        drain_order(p).len() == p.len(),
    decreases p.len(),
{
    if p.len() > 0 {
        lemma_drain_unfold(p);
        lemma_drain_len(p.remove(best_index(p)));
    }
}

proof fn lemma_drain_contains(p: Seq<PendingBuildView>)
    ensures
        forall|i: int| 0 <= i < p.len() ==> drain_order(p).contains(#[trigger] p[i].target_name),
    decreases p.len(),
{
    if p.len() > 0 {
        lemma_drain_unfold(p);
        let b = best_index(p);
        let r = p.remove(b);
        let d = drain_order(p);
        let dr = drain_order(r);
        lemma_drain_contains(r);
        assert forall|i: int| 0 <= i < p.len() implies d.contains(#[trigger] p[i].target_name) by {
            if i == b {
                assert(d[0] == p[b].target_name);
            } else {
                let ri = if i < b { i } else { i - 1 };
                assert(r[ri] == p[i]);
                assert(dr.contains(r[ri].target_name));
                let j = choose|j: int| 0 <= j < dr.len() && dr[j] == r[ri].target_name;
                assert(d[j + 1] == dr[j]);
            }
        }
    }
}

proof fn lemma_drain_from(p: Seq<PendingBuildView>)
    ensures
        forall|j: int| 0 <= j < drain_order(p).len() ==> names_target(p, #[trigger] drain_order(p)[j]),
    decreases p.len(),
{
    if p.len() > 0 {
        lemma_drain_unfold(p);
        let b = best_index(p);
        let r = p.remove(b);
        let d = drain_order(p);
        let dr = drain_order(r);
        lemma_drain_from(r);
        assert forall|j: int| 0 <= j < d.len() implies names_target(p, #[trigger] d[j]) by {
            if j == 0 {
                assert(p[b].target_name == d[0]);
            } else {
                assert(d[j] == dr[j - 1]);
                assert(names_target(r, dr[j - 1]));
                let i = choose|i: int| 0 <= i < r.len() && #[trigger] r[i].target_name == dr[j - 1];
                let oi = if i < b { i } else { i + 1 };
                assert(r[i] == p[oi]);
            }
        }
    }
}

proof fn lemma_drain_no_duplicates(p: Seq<PendingBuildView>)
    requires
        distinct_targets(p),
    ensures
        drain_order(p).no_duplicates(),
    decreases p.len(),
{
    if p.len() > 0 {
        lemma_drain_unfold(p);
        let b = best_index(p);
        let r = p.remove(b);
        let d = drain_order(p);
        let dr = drain_order(r);
        lemma_remove_distinct(p, b);
        lemma_drain_no_duplicates(r);
        lemma_drain_from(r);
        assert forall|i: int, j: int| 0 <= i < d.len() && 0 <= j < d.len() && i != j implies d[i] != d[j] by {
            if i > 0 && j > 0 {
                assert(d[i] == dr[i - 1] && d[j] == dr[j - 1]);
            } else {
                let k = if i == 0 { j } else { i };
                assert(d[k] == dr[k - 1]);
                assert(names_target(r, dr[k - 1]));
                let x = choose|x: int| 0 <= x < r.len() && #[trigger] r[x].target_name == dr[k - 1];
                assert(r[x].target_name != p[b].target_name);
            }
        }
    }
}

/// `pending_targets` lists the target of every pending build, each once.
pub proof fn law_pending_targets_is_permutation(p: Seq<PendingBuildView>)
    requires
        distinct_targets(p),
    ensures
        drain_order(p).len() == p.len(),
        forall|i: int| 0 <= i < p.len() ==> drain_order(p).contains(#[trigger] p[i].target_name),
        forall|j: int| 0 <= j < drain_order(p).len() ==> names_target(p, #[trigger] drain_order(p)[j]),
        drain_order(p).no_duplicates(),
{
    lemma_drain_len(p);
    lemma_drain_contains(p);
    lemma_drain_from(p);
    lemma_drain_no_duplicates(p);
}

} // verus!
