//! The shared state records (`daemon.json`, `state.json`) and the rules that
//! read and update them.
//!
//! The state directory is the sole channel between the daemon, `wr`, and
//! `buildwatch status`; reading and writing its files is left to the
//! programs. Times are milliseconds since the Unix epoch.

use vstd::prelude::*;
use vstd::string::*;
use crate::{project_hash, project_hash_spec};
use crate::text::{path_join, str_path_join, contains_sub, str_contains, join, join_strings, clone_strings};

verus! {

/// Maximum heartbeat age before a daemon is considered dead (seconds).
pub const HEARTBEAT_TIMEOUT_SECS: i64 = 15;

// --- State directory layout ---

/// Returns the state directory for a project, given the platform's base
/// state directory and the project's canonical root path: the base joined
/// with the project hash.
pub fn state_dir_for(base_dir: &str, canonical_root: &str) -> (res: String)
    ensures
        res@ == path_join(base_dir@, project_hash_spec(canonical_root)),
{
    let hash = project_hash(canonical_root);
    str_path_join(base_dir, hash.as_str())
}

// --- Data structures ---

/// What `daemon.json` records of a running daemon.
#[derive(Debug)]
pub struct DaemonInfo {
    pub pid: u32,
    pub project_root: String,
    pub project_hash: String,
    pub started_at: i64,
    pub heartbeat: i64,
    pub version: String,
    pub watchman_version: Option<String>,
}

/// What `state.json` records of a project.
#[derive(Debug)]
pub struct ProjectState {
    /// The state of each target, by target name.
    pub targets: Vec<(String, TargetState)>,
    pub queue: QueueState,
    pub updated_at: i64,
}

/// The state of one target.
#[derive(Debug)]
pub struct TargetState {
    /// "ready" | "building" | "failed" | "pending" | "stale"
    pub status: String,
    pub last_build: Option<BuildResult>,
    pub build_count: u64,
    pub failure_count: u64,
    pub consecutive_failures: u64,
}

/// The outcome of one build.
#[derive(Debug)]
pub struct BuildResult {
    pub started_at: i64,
    pub finished_at: i64,
    pub duration_ms: u64,
    pub exit_code: i32,
    pub output_path: Option<String>,
    pub trigger_files: Vec<String>,
    pub error_summary: Option<String>,
}

/// The build queue as reported in `state.json`.
#[derive(Debug)]
pub struct QueueState {
    pub pending: Vec<String>,
    pub current: Option<String>,
}

// --- Views ---

pub struct BuildResultView {
    pub started_at: i64,
    pub finished_at: i64,
    pub duration_ms: u64,
    pub exit_code: i32,
    pub output_path: Option<Seq<char>>,
    pub trigger_files: Seq<Seq<char>>,
    pub error_summary: Option<Seq<char>>,
}

impl View for BuildResult {
    type V = BuildResultView;

    open spec fn view(&self) -> BuildResultView {
        BuildResultView {
            started_at: self.started_at,
            finished_at: self.finished_at,
            duration_ms: self.duration_ms,
            exit_code: self.exit_code,
            output_path: self.output_path.deep_view(),
            trigger_files: self.trigger_files.deep_view(),
            error_summary: self.error_summary.deep_view(),
        }
    }
}

pub struct TargetStateView {
    pub status: Seq<char>,
    pub last_build: Option<BuildResultView>,
    pub build_count: u64,
    pub failure_count: u64,
    pub consecutive_failures: u64,
}

impl View for TargetState {
    type V = TargetStateView;

    open spec fn view(&self) -> TargetStateView {
        TargetStateView {
            status: self.status@,
            last_build: match self.last_build {
                Some(b) => Some(b@),
                None => None,
            },
            build_count: self.build_count,
            failure_count: self.failure_count,
            consecutive_failures: self.consecutive_failures,
        }
    }
}

pub struct QueueStateView {
    pub pending: Seq<Seq<char>>,
    pub current: Option<Seq<char>>,
}

impl View for QueueState {
    type V = QueueStateView;

    open spec fn view(&self) -> QueueStateView {
        QueueStateView { pending: self.pending.deep_view(), current: self.current.deep_view() }
    }
}

pub struct ProjectStateView {
    pub targets: Seq<(Seq<char>, TargetStateView)>,
    pub queue: QueueStateView,
    pub updated_at: i64,
}

/// The views of a list of (name, target state) entries.
pub open spec fn entry_views(v: Seq<(String, TargetState)>) -> Seq<(Seq<char>, TargetStateView)> {
    Seq::new(v.len(), |i: int| (v[i].0@, v[i].1@))
}

impl View for ProjectState {
    type V = ProjectStateView;

    open spec fn view(&self) -> ProjectStateView {
        ProjectStateView {
            targets: entry_views(self.targets@),
            queue: self.queue@,
            updated_at: self.updated_at,
        }
    }
}

impl ProjectStateView {
    /// No two entries are for the same target.
    pub open spec fn wf(self) -> bool {
        forall|i: int, j: int|
            0 <= i < self.targets.len() && 0 <= j < self.targets.len() && i != j
                ==> #[trigger] self.targets[i].0 != #[trigger] self.targets[j].0
    }

    /// The target names, in order.
    pub open spec fn names(self) -> Seq<Seq<char>> {
        Seq::new(self.targets.len(), |i: int| self.targets[i].0)
    }
}

impl BuildResult {
    /// Returns an equal copy.
    pub fn copy(&self) -> (res: BuildResult)
        ensures
            res@ == self@,
    {
        BuildResult {
            started_at: self.started_at,
            finished_at: self.finished_at,
            duration_ms: self.duration_ms,
            exit_code: self.exit_code,
            output_path: match &self.output_path {
                Some(p) => Some(p.clone()),
                None => None,
            },
            trigger_files: clone_strings(&self.trigger_files),
            error_summary: match &self.error_summary {
                Some(e) => Some(e.clone()),
                None => None,
            },
        }
    }
}

// --- Liveness ---

/// A heartbeat at `heartbeat` is fresh at time `now`: it is less than
/// [`HEARTBEAT_TIMEOUT_SECS`] whole seconds old (ages round toward zero, so
/// a heartbeat from the future is fresh).
pub open spec fn heartbeat_fresh(heartbeat: i64, now: i64) -> bool {
    now - heartbeat < HEARTBEAT_TIMEOUT_SECS * 1000
}

/// Returns whether a heartbeat written at `heartbeat` is fresh at `now`.
pub fn heartbeat_is_fresh(heartbeat: i64, now: i64) -> (res: bool)
    ensures
        res == heartbeat_fresh(heartbeat, now),
{
    (now as i128) - (heartbeat as i128) < (HEARTBEAT_TIMEOUT_SECS as i128) * 1000
}

/// Check if a daemon is alive at time `now`, based on its heartbeat.
pub fn is_daemon_alive(info: &DaemonInfo, now: i64) -> (res: bool)
    ensures
        res == heartbeat_fresh(info.heartbeat, now),
{
    heartbeat_is_fresh(info.heartbeat, now)
}

// --- Fuzzy target matching ---

/// The lowercase form of `s`, as computed by `str::to_lowercase`.
pub uninterp spec fn lowercase(s: Seq<char>) -> Seq<char>;

/// Calls `str::to_lowercase`.
///
/// Trusted: the result is std's Unicode lowercase mapping of `s`, named
/// `lowercase`; nothing more of that mapping is stated.
#[verifier::external_body]
fn to_lowercase(s: &str) -> (res: String)
    ensures
        res@ == lowercase(s@),
{
    s.to_lowercase()
}

/// The names among `names`, in order, whose lowercase form contains the
/// lowercase form of `query`.
pub open spec fn fuzzy_matches(names: Seq<Seq<char>>, query: Seq<char>) -> Seq<Seq<char>>
    decreases names.len(),
{
    if names.len() == 0 {
        Seq::empty()
    } else {
        let m = fuzzy_matches(names.drop_last(), query);
        if contains_sub(lowercase(names.last()), lowercase(query)) {
            m.push(names.last())
        } else {
            m
        }
    }
}

/// Why a target name could not be resolved.
#[derive(Debug)]
pub enum MatchError {
    /// No target name contains the query; lists all target names.
    NoMatch { query: String, available: Vec<String> },
    /// Several target names contain the query; lists them.
    Ambiguous { query: String, matches: Vec<String> },
}

/// The text of a [`MatchError`].
pub open spec fn match_error_text(e: MatchError) -> Seq<char> {
    match e {
        MatchError::NoMatch { query, available } => "No target matching '"@ + query@ + "'. Available: "@
            + join(available.deep_view(), ", "@),
        MatchError::Ambiguous { query, matches } => "Ambiguous target '"@ + query@ + "'. Matches: "@
            + join(matches.deep_view(), ", "@),
    }
}

impl MatchError {
    /// The error message.
    pub fn message(&self) -> (res: String)
        ensures
            res@ == match_error_text(*self),
    {
        match self {
            MatchError::NoMatch { query, available } => {
                let mut res = String::from_str("No target matching '");
                res.append(query.as_str());
                res.append("'. Available: ");
                let list = join_strings(available, ", ");
                res.append(list.as_str());
                res
            },
            MatchError::Ambiguous { query, matches } => {
                let mut res = String::from_str("Ambiguous target '");
                res.append(query.as_str());
                res.append("'. Matches: ");
                let list = join_strings(matches, ", ");
                res.append(list.as_str());
                res
            },
        }
    }
}

/// Returns the target names of `state`, in order.
pub fn target_names(state: &ProjectState) -> (res: Vec<String>)
    ensures
        res.deep_view() == state@.names(),
{
    let mut res: Vec<String> = Vec::new();
    let mut i: usize = 0;
    while i < state.targets.len()
        invariant
            i <= state.targets@.len(),
            res.deep_view() == state@.names().take(i as int),
        decreases state.targets.len() - i,
    {
        let n = state.targets[i].0.clone();
        let ghost before = res.deep_view();
        assert(n@ == state@.names()[i as int]);
        res.push(n);
        assert(res.deep_view() =~= before.push(n@));
        assert(res.deep_view() =~= state@.names().take(i + 1));
        i = i + 1;
    }
    assert(state@.names().take(state.targets@.len() as int) =~= state@.names());
    res
}

/// The names among `names`, in order, whose lowercase form, given at the
/// same position in `lowered`, contains `query_lower`.
pub open spec fn substring_matches(names: Seq<Seq<char>>, lowered: Seq<Seq<char>>, query_lower: Seq<char>) -> Seq<Seq<char>>
    decreases names.len(),
{
    if names.len() == 0 {
        Seq::empty()
    } else {
        let i = names.len() - 1;
        let m = substring_matches(names.drop_last(), lowered, query_lower);
        if i < lowered.len() && contains_sub(lowered[i], query_lower) {
            m.push(names.last())
        } else {
            m
        }
    }
}

/// With the lowercase forms computed by `str::to_lowercase`, the substring
/// matches are the fuzzy matches.
proof fn lemma_substring_matches_fuzzy(names: Seq<Seq<char>>, lowered: Seq<Seq<char>>, query: Seq<char>)
    requires
        lowered.len() >= names.len(),
        forall|i: int| 0 <= i < names.len() ==> #[trigger] lowered[i] == lowercase(names[i]),
    ensures
        substring_matches(names, lowered, lowercase(query)) == fuzzy_matches(names, query),
    decreases names.len(),
{
    if names.len() > 0 {
        let init = names.drop_last();
        assert forall|i: int| 0 <= i < init.len() implies #[trigger] lowered[i] == lowercase(init[i]) by {
            assert(init[i] == names[i]);
        }
        lemma_substring_matches_fuzzy(init, lowered, query);
        assert(lowered[names.len() - 1] == lowercase(names[names.len() - 1]));
    }
}

/// What resolving `query` among `names` gives, where `matches` are the
/// names that contain the query ignoring case: the exact name when there
/// is one, else the only match; no match and several matches are errors.
pub open spec fn resolution(query: Seq<char>, names: Seq<Seq<char>>, matches: Seq<Seq<char>>, res: Result<String, MatchError>) -> bool {
    match res {
        Ok(name) => if names.contains(query) {
            name@ == query
        } else {
            matches.len() == 1 && name@ == matches[0]
        },
        Err(MatchError::NoMatch { query: q, available }) => !names.contains(query) && matches.len() == 0
            && q@ == query && available.deep_view() == names,
        Err(MatchError::Ambiguous { query: q, matches: found }) => !names.contains(query) && matches.len()
            >= 2 && q@ == query && found.deep_view() == matches,
    }
}

/// Resolve `query` among `names`, given the lowercase forms of the query
/// and of each name (at the same position in `lowered`): the exact name
/// first, else the one name whose lowercase form contains the lowercase
/// query.
pub fn resolve_target(query: &str, names: Vec<String>, query_lower: &str, lowered: &Vec<String>) -> (res: Result<String, MatchError>)
    ensures
        resolution(query@, names.deep_view(), substring_matches(names.deep_view(), lowered.deep_view(), query_lower@), res),
{
    let ghost nv = names.deep_view();
    let ghost lv = lowered.deep_view();
    let query_string = String::from_str(query);
    // Exact match first
    let mut i: usize = 0;
    while i < names.len()
        invariant
            i <= names.len(),
            nv == names.deep_view(),
            query_string@ == query@,
            forall|k: int| 0 <= k < i ==> nv[k] != query@,
        decreases names.len() - i,
    {
        if names[i] == query_string {
            assert(nv[i as int] == query@);
            assert(nv.contains(query@));
            return Ok(query_string);
        }
        i = i + 1;
    }
    assert(!nv.contains(query@));
    // Substring match, ignoring case
    let mut matches: Vec<String> = Vec::new();
    let mut j: usize = 0;
    while j < names.len()
        invariant
            j <= names.len(),
            nv == names.deep_view(),
            lv == lowered.deep_view(),
            matches.deep_view() == substring_matches(nv.take(j as int), lv, query_lower@),
        decreases names.len() - j,
    {
        proof {
            let t = nv.take(j + 1);
            assert(t.drop_last() =~= nv.take(j as int));
            assert(t.last() == nv[j as int]);
        }
        if j < lowered.len() && str_contains(lowered[j].as_str(), query_lower) {
            let n = names[j].clone();
            let ghost before = matches.deep_view();
            matches.push(n);
            assert(matches.deep_view() =~= before.push(nv[j as int]));
        }
        j = j + 1;
    }
    assert(nv.take(names.len() as int) =~= nv);
    if matches.len() == 0 {
        Err(MatchError::NoMatch { query: query_string, available: names })
    } else if matches.len() == 1 {
        let only = matches[0].clone();
        Ok(only)
    } else {
        Err(MatchError::Ambiguous { query: query_string, matches })
    }
}

/// Resolve a target name with fuzzy/substring matching.
/// Returns the exact target name if found, or the one target whose name
/// contains the query (ignoring case). Errors on no match and on ambiguous
/// matches.
pub fn fuzzy_match_target(query: &str, state: &ProjectState) -> (res: Result<String, MatchError>)
    ensures
        resolution(query@, state@.names(), fuzzy_matches(state@.names(), query@), res),
{
    let names = target_names(state);
    let ghost nv = names.deep_view();
    let q = to_lowercase(query);
    let mut lowered: Vec<String> = Vec::new();
    let mut j: usize = 0;
    while j < names.len()
        invariant
            j <= names.len(),
            nv == names.deep_view(),
            lowered.len() == j,
            forall|k: int| 0 <= k < j ==> #[trigger] lowered.deep_view()[k] == lowercase(nv[k]),
        decreases names.len() - j,
    {
        let lower = to_lowercase(names[j].as_str());
        let ghost before = lowered.deep_view();
        lowered.push(lower);
        assert(lowered.deep_view() =~= before.push(lowercase(nv[j as int])));
        j = j + 1;
    }
    proof {
        lemma_substring_matches_fuzzy(nv, lowered.deep_view(), query@);
    }
    resolve_target(query, names, q.as_str(), &lowered)
}

// --- State updates ---

/// The index of the first entry for `name`, or -1.
pub open spec fn find_target(ts: Seq<(Seq<char>, TargetStateView)>, name: Seq<char>) -> int
    decreases ts.len(),
{
    if ts.len() == 0 {
        -1
    } else {
        let r = find_target(ts.drop_last(), name);
        if r >= 0 {
            r
        } else if ts.last().0 == name {
            ts.len() - 1
        } else {
            -1
        }
    }
}

/// The state of a target that has not been built yet.
pub open spec fn fresh_target_state() -> TargetStateView {
    TargetStateView {
        status: "pending"@,
        last_build: None,
        build_count: 0,
        failure_count: 0,
        consecutive_failures: 0,
    }
}

/// The current entry for `name`, or a fresh one.
pub open spec fn entry_or_fresh(ps: ProjectStateView, name: Seq<char>) -> TargetStateView {
    let k = find_target(ps.targets, name);
    if k >= 0 {
        ps.targets[k].1
    } else {
        fresh_target_state()
    }
}

/// `ps` with the entry for `name` replaced by `t` (appended when missing)
/// and the update time set to `now`.
pub open spec fn put_entry(ps: ProjectStateView, name: Seq<char>, t: TargetStateView, now: i64) -> ProjectStateView {
    let k = find_target(ps.targets, name);
    ProjectStateView {
        targets: if k >= 0 {
            ps.targets.update(k, (name, t))
        } else {
            ps.targets.push((name, t))
        },
        updated_at: now,
        ..ps
    }
}

/// The state after target `name` is marked with `status`.
pub open spec fn set_status_spec(ps: ProjectStateView, name: Seq<char>, status: Seq<char>, now: i64) -> ProjectStateView {
    put_entry(ps, name, TargetStateView { status, ..entry_or_fresh(ps, name) }, now)
}

/// A target's state after a build with `result` ends with `status`: one
/// more build, one more failure and consecutive failure when the build
/// failed, and no consecutive failures when it succeeded.
pub open spec fn after_build(t: TargetStateView, status: Seq<char>, result: BuildResultView) -> TargetStateView {
    TargetStateView {
        status,
        last_build: Some(result),
        build_count: (t.build_count + 1) as u64,
        failure_count: if result.exit_code != 0 {
            (t.failure_count + 1) as u64
        } else {
            t.failure_count
        },
        consecutive_failures: if result.exit_code != 0 {
            (t.consecutive_failures + 1) as u64
        } else {
            0
        },
    }
}

/// The state after a build of target `name` is recorded.
pub open spec fn record_build_spec(
    ps: ProjectStateView,
    name: Seq<char>,
    status: Seq<char>,
    result: BuildResultView,
    now: i64,
) -> ProjectStateView {
    put_entry(ps, name, after_build(entry_or_fresh(ps, name), status, result), now)
}

/// Recording a build of `name` with `result` does not overflow a counter.
pub open spec fn counters_fit(ps: ProjectStateView, name: Seq<char>, result: BuildResultView) -> bool {
    let t = entry_or_fresh(ps, name);
    t.build_count < u64::MAX && (result.exit_code != 0 ==> t.failure_count < u64::MAX
        && t.consecutive_failures < u64::MAX)
}

/// `find_target` finds the first entry for the name, or reports -1.
pub proof fn lemma_find_target(ts: Seq<(Seq<char>, TargetStateView)>, name: Seq<char>)
    ensures
        -1 <= find_target(ts, name) < ts.len(),
        find_target(ts, name) >= 0 ==> ts[find_target(ts, name)].0 == name,
        forall|i: int| 0 <= i < ts.len() && (find_target(ts, name) == -1 || i < find_target(ts, name))
            ==> (#[trigger] ts[i]).0 != name,
    decreases ts.len(),
{
    if ts.len() > 0 {
        lemma_find_target(ts.drop_last(), name);
        assert forall|i: int| 0 <= i < ts.len() - 1 implies ts[i] == ts.drop_last()[i] by {}
    }
}

impl TargetState {
    /// Returns an equal copy.
    pub fn copy(&self) -> (res: TargetState)
        ensures
            res@ == self@,
    {
        TargetState {
            status: self.status.clone(),
            last_build: match &self.last_build {
                Some(b) => Some(b.copy()),
                None => None,
            },
            build_count: self.build_count,
            failure_count: self.failure_count,
            consecutive_failures: self.consecutive_failures,
        }
    }

    /// The state of a target that has not been built yet.
    pub fn fresh() -> (res: TargetState)
        ensures
            res@ == fresh_target_state(),
    {
        TargetState {
            status: String::from_str("pending"),
            last_build: None,
            build_count: 0,
            failure_count: 0,
            consecutive_failures: 0,
        }
    }
}

impl ProjectState {
    /// A state with no targets and an idle queue, as of `now`.
    pub fn empty(now: i64) -> (res: ProjectState)
        ensures
            res@.targets.len() == 0,
            res@.queue.pending.len() == 0,
            res@.queue.current.is_none(),
            res@.updated_at == now,
            res@.wf(),
    {
        let res = ProjectState {
            targets: Vec::new(),
            queue: QueueState { pending: Vec::new(), current: None },
            updated_at: now,
        };
        assert(res@.targets =~= Seq::<(Seq<char>, TargetStateView)>::empty());
        assert(res@.queue.pending =~= Seq::<Seq<char>>::empty());
        res
    }

    /// Returns the index of the entry for `name`, if any.
    pub fn find_entry(&self, name: &String) -> (res: Option<usize>)
        ensures
            match res {
                Some(k) => k as int == find_target(self@.targets, name@),
                None => find_target(self@.targets, name@) == -1,
            },
    {
        let ghost ts = self@.targets;
        proof {
            lemma_find_target(ts, name@);
        }
        let mut i: usize = 0;
        while i < self.targets.len()
            invariant
                i <= self.targets@.len(),
                ts == self@.targets,
                -1 <= find_target(ts, name@) < ts.len(),
                find_target(ts, name@) >= 0 ==> ts[find_target(ts, name@)].0 == name@,
                forall|k: int| 0 <= k < ts.len() && (find_target(ts, name@) == -1 || k < find_target(ts, name@))
                    ==> (#[trigger] ts[k]).0 != name@,
                forall|k: int| 0 <= k < i ==> (#[trigger] ts[k]).0 != name@,
            decreases self.targets.len() - i,
        {
            if self.targets[i].0 == *name {
                assert(ts[i as int].0 == name@);
                return Some(i);
            }
            i = i + 1;
        }
        None
    }

    /// Returns the current entry for `name`, or a fresh one.
    fn take_entry(&mut self, name: &String) -> (res: (Option<usize>, TargetState))
        ensures
            res.1@ == entry_or_fresh(old(self)@, name@),
            match res.0 {
                Some(k) => k as int == find_target(old(self)@.targets, name@) && final(self)@.targets
                    == old(self)@.targets.remove(k as int),
                None => find_target(old(self)@.targets, name@) == -1 && final(self)@ == old(self)@,
            },
            final(self)@.queue == old(self)@.queue,
            final(self)@.updated_at == old(self)@.updated_at,
    {
        proof {
            lemma_find_target(self@.targets, name@);
        }
        match self.find_entry(name) {
            Some(k) => {
                let ghost before = self@.targets;
                let (_, t) = self.targets.remove(k);
                assert(self@.targets =~= before.remove(k as int));
                (Some(k), t)
            },
            None => (None, TargetState::fresh()),
        }
    }

    /// Puts back an entry taken by `take_entry`, or appends a new one.
    fn put_back(&mut self, slot: Option<usize>, name: &String, t: TargetState, now: i64)
        requires
            match slot {
                Some(k) => k <= old(self).targets@.len(),
                None => true,
            },
        ensures
            final(self)@.targets == match slot {
                Some(k) => old(self)@.targets.insert(k as int, (name@, t@)),
                None => old(self)@.targets.push((name@, t@)),
            },
            final(self)@.queue == old(self)@.queue,
            final(self)@.updated_at == now,
    {
        let ghost before = self@.targets;
        let n = name.clone();
        match slot {
            Some(k) => {
                self.targets.insert(k, (n, t));
                assert(self@.targets =~= before.insert(k as int, (name@, t@)));
            },
            None => {
                self.targets.push((n, t));
                assert(self@.targets =~= before.push((name@, t@)));
            },
        }
        self.updated_at = now;
    }

    /// Returns whether recording a build of `target_name` with `result`
    /// keeps every counter within a `u64` (what `record_build` requires).
    pub fn counters_fit_for(&self, target_name: &String, result: &BuildResult) -> (res: bool)
        ensures
            res == counters_fit(self@, target_name@, result@),
    {
        proof {
            lemma_find_target(self@.targets, target_name@);
        }
        match self.find_entry(target_name) {
            Some(k) => {
                let t = &self.targets[k].1;
                t.build_count < u64::MAX && (result.exit_code == 0 || (t.failure_count < u64::MAX
                    && t.consecutive_failures < u64::MAX))
            },
            None => true,
        }
    }

    /// Update a target's status (adding the target, as pending, if it has no
    /// entry yet).
    pub fn set_target_status(&mut self, target_name: &String, status: &str, now: i64)
        ensures
            final(self)@ == set_status_spec(old(self)@, target_name@, status@, now),
    {
        let ghost start = self@;
        let (slot, mut t) = self.take_entry(target_name);
        t.status = String::from_str(status);
        proof {
            lemma_find_target(start.targets, target_name@);
        }
        self.put_back(slot, target_name, t, now);
        proof {
            let k = find_target(start.targets, target_name@);
            if k >= 0 {
                assert(self@.targets =~= set_status_spec(start, target_name@, status@, now).targets);
            }
        }
    }

    /// Record a finished build of a target: its result, its new status and
    /// its build counters (adding the target if it has no entry yet).
    pub fn record_build(&mut self, target_name: &String, status: &str, result: &BuildResult, now: i64)
        requires
            counters_fit(old(self)@, target_name@, result@),
        ensures
            final(self)@ == record_build_spec(old(self)@, target_name@, status@, result@, now),
    {
        let ghost start = self@;
        proof {
            lemma_find_target(start.targets, target_name@);
        }
        let (slot, mut t) = self.take_entry(target_name);
        t.status = String::from_str(status);
        t.last_build = Some(result.copy());
        t.build_count = t.build_count + 1;
        if result.exit_code != 0 {
            t.failure_count = t.failure_count + 1;
            t.consecutive_failures = t.consecutive_failures + 1;
        } else {
            t.consecutive_failures = 0;
        }
        proof {
            lemma_find_target(start.targets, target_name@);
        }
        self.put_back(slot, target_name, t, now);
        proof {
            let k = find_target(start.targets, target_name@);
            if k >= 0 {
                assert(self@.targets =~= record_build_spec(start, target_name@, status@, result@, now).targets);
            }
        }
    }
}

// --- Laws of the state updates ---

proof fn lemma_find_target_at(ts: Seq<(Seq<char>, TargetStateView)>, name: Seq<char>, j: int)
    requires
        0 <= j < ts.len(),
        ts[j].0 == name,
        forall|i: int| 0 <= i < j ==> (#[trigger] ts[i]).0 != name,
    ensures
        find_target(ts, name) == j,
{
    lemma_find_target(ts, name);
}

proof fn lemma_find_target_none(ts: Seq<(Seq<char>, TargetStateView)>, name: Seq<char>)
    requires
        forall|i: int| 0 <= i < ts.len() ==> (#[trigger] ts[i]).0 != name,
    ensures
        find_target(ts, name) == -1,
{
    lemma_find_target(ts, name);
}

/// In a state with one entry per target, the entry for a name is the one
/// that has it.
proof fn lemma_find_in_wf(ps: ProjectStateView, name: Seq<char>, j: int)
    requires
        ps.wf(),
        0 <= j < ps.targets.len(),
        ps.targets[j].0 == name,
    ensures
        find_target(ps.targets, name) == j,
{
    assert forall|i: int| 0 <= i < j implies (#[trigger] ps.targets[i]).0 != name by {
        assert(ps.targets[i].0 != ps.targets[j].0);
    }
    lemma_find_target_at(ps.targets, name, j);
}

/// Putting an entry for `name` keeps one entry per target, makes `t` the
/// entry for `name`, and leaves every other target's entry as it was.
pub proof fn lemma_put_entry(ps: ProjectStateView, name: Seq<char>, t: TargetStateView, now: i64)
    requires
        ps.wf(),
    ensures
        put_entry(ps, name, t, now).wf(),
        entry_or_fresh(put_entry(ps, name, t, now), name) == t,
        find_target(put_entry(ps, name, t, now).targets, name) >= 0,
        forall|n: Seq<char>| n != name ==> #[trigger] entry_or_fresh(put_entry(ps, name, t, now), n) == entry_or_fresh(ps, n),
        put_entry(ps, name, t, now).queue == ps.queue,
        put_entry(ps, name, t, now).updated_at == now,
{
    lemma_find_target(ps.targets, name);
    let k = find_target(ps.targets, name);
    let r = put_entry(ps, name, t, now);
    if k >= 0 {
        assert(r.targets == ps.targets.update(k, (name, t)));
        assert forall|i: int, j: int|
            0 <= i < r.targets.len() && 0 <= j < r.targets.len() && i != j implies #[trigger] r.targets[i].0
                != #[trigger] r.targets[j].0 by {
            assert(ps.targets[i].0 != ps.targets[j].0);
        }
        lemma_find_in_wf(r, name, k);
        assert forall|n: Seq<char>| n != name implies #[trigger] entry_or_fresh(r, n) == entry_or_fresh(ps, n) by {
            lemma_find_target(ps.targets, n);
            let kn = find_target(ps.targets, n);
            if kn >= 0 {
                lemma_find_in_wf(r, n, kn);
            } else {
                assert forall|i: int| 0 <= i < r.targets.len() implies (#[trigger] r.targets[i]).0 != n by {
                    if i != k {
                        assert(r.targets[i] == ps.targets[i]);
                    }
                }
                lemma_find_target_none(r.targets, n);
            }
        }
    } else {
        let last = ps.targets.len() as int;
        assert(r.targets == ps.targets.push((name, t)));
        assert forall|i: int, j: int|
            0 <= i < r.targets.len() && 0 <= j < r.targets.len() && i != j implies #[trigger] r.targets[i].0
                != #[trigger] r.targets[j].0 by {
            if i < last && j < last {
                assert(r.targets[i] == ps.targets[i] && r.targets[j] == ps.targets[j]);
            } else if i < last {
                assert(r.targets[i] == ps.targets[i]);
            } else {
                assert(r.targets[j] == ps.targets[j]);
            }
        }
        lemma_find_in_wf(r, name, last);
        assert forall|n: Seq<char>| n != name implies #[trigger] entry_or_fresh(r, n) == entry_or_fresh(ps, n) by {
            lemma_find_target(ps.targets, n);
            let kn = find_target(ps.targets, n);
            if kn >= 0 {
                assert(r.targets[kn] == ps.targets[kn]);
                lemma_find_in_wf(r, n, kn);
            } else {
                assert forall|i: int| 0 <= i < r.targets.len() implies (#[trigger] r.targets[i]).0 != n by {
                    if i < last {
                        assert(r.targets[i] == ps.targets[i]);
                    }
                }
                lemma_find_target_none(r.targets, n);
            }
        }
    }
}

/// Marking a target's status gives it exactly that status, keeps its build
/// history, touches no other target, and keeps one entry per target.
pub proof fn law_set_status(ps: ProjectStateView, name: Seq<char>, status: Seq<char>, now: i64)
    requires
        ps.wf(),
    ensures
        set_status_spec(ps, name, status, now).wf(),
        entry_or_fresh(set_status_spec(ps, name, status, now), name) == (TargetStateView {
            status,
            ..entry_or_fresh(ps, name)
        }),
        forall|n: Seq<char>| n != name ==> #[trigger] entry_or_fresh(set_status_spec(ps, name, status, now), n)
            == entry_or_fresh(ps, n),
{
    lemma_put_entry(ps, name, TargetStateView { status, ..entry_or_fresh(ps, name) }, now);
}

/// `after` is `before` with one more build of `result`, now in `status`.
pub open spec fn counted(
    before: TargetStateView,
    after: TargetStateView,
    status: Seq<char>,
    result: BuildResultView,
) -> bool {
    &&& after.status == status
    &&& after.last_build == Some(result)
    &&& after.build_count == before.build_count + 1
    &&& (result.exit_code != 0 ==> after.failure_count == before.failure_count + 1
        && after.consecutive_failures == before.consecutive_failures + 1)
    &&& (result.exit_code == 0 ==> after.failure_count == before.failure_count
        && after.consecutive_failures == 0)
}

/// Recording a build counts it, counts it as a failure exactly when its
/// exit code is not 0, resets the consecutive failures on success, keeps
/// the result as the last build, touches no other target, and keeps one
/// entry per target.
pub proof fn law_record_build(
    ps: ProjectStateView,
    name: Seq<char>,
    status: Seq<char>,
    result: BuildResultView,
    now: i64,
)
    requires
        ps.wf(),
        counters_fit(ps, name, result),
    ensures
        record_build_spec(ps, name, status, result, now).wf(),
        counted(
            entry_or_fresh(ps, name),
            entry_or_fresh(record_build_spec(ps, name, status, result, now), name),
            status,
            result,
        ),
        forall|n: Seq<char>| n != name ==> #[trigger] entry_or_fresh(record_build_spec(ps, name, status, result, now), n)
            == entry_or_fresh(ps, n),
{
    lemma_put_entry(ps, name, after_build(entry_or_fresh(ps, name), status, result), now);
}

/// A target's counters are ordered: consecutive failures, then failures,
/// then builds.
pub open spec fn counters_ordered(t: TargetStateView) -> bool {
    t.consecutive_failures <= t.failure_count <= t.build_count
}

/// Every target's counters are ordered (a target without an entry counts
/// nothing).
pub open spec fn all_counters_ordered(ps: ProjectStateView) -> bool {
    forall|n: Seq<char>| #[trigger] counters_ordered(entry_or_fresh(ps, n))
}

/// Recording a build, or marking a status, keeps every target's counters
/// ordered: consecutive failures <= failures <= builds.
pub proof fn law_counters_stay_ordered(
    ps: ProjectStateView,
    name: Seq<char>,
    status: Seq<char>,
    result: BuildResultView,
    now: i64,
)
    requires
        ps.wf(),
        counters_fit(ps, name, result),
        all_counters_ordered(ps),
    ensures
        all_counters_ordered(record_build_spec(ps, name, status, result, now)),
        all_counters_ordered(set_status_spec(ps, name, status, now)),
{
    law_record_build(ps, name, status, result, now);
    law_set_status(ps, name, status, now);
    assert(counters_ordered(entry_or_fresh(ps, name)));
    let r = record_build_spec(ps, name, status, result, now);
    assert forall|n: Seq<char>| #[trigger] counters_ordered(entry_or_fresh(r, n)) by {
        if n != name {
            assert(counters_ordered(entry_or_fresh(ps, n)));
        }
    }
    let s = set_status_spec(ps, name, status, now);
    assert forall|n: Seq<char>| #[trigger] counters_ordered(entry_or_fresh(s, n)) by {
        if n != name {
            assert(counters_ordered(entry_or_fresh(ps, n)));
        }
    }
}

} // verus!
