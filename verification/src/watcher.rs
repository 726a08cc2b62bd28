//! What the library knows of the Watchman subscription: the change events it
//! delivers and the match expressions it is built from.

use vstd::prelude::*;
use vstd::string::*;
use crate::text::{strip_dot, strip_slash, str_strip_dot, str_strip_slash};


verus! {

/// A batch of file changes delivered by the watcher to the build queue.
#[derive(Debug)]
pub struct FileChangeEvent {
    /// Files that changed, relative to the project root.
    pub changed_files: Vec<String>,
    /// When the batch was observed, in milliseconds since the Unix epoch.
    pub timestamp: i64,
}

impl FileChangeEvent {
    /// The changed files as character sequences.
    pub open spec fn files(&self) -> Seq<Seq<char>> {
        self.changed_files.deep_view()
    }
}

/// The batch of changes to hand to the queue for the files that a
/// subscription update reports: none when no file changed.
pub fn change_event(changed_files: Vec<String>, timestamp: i64) -> (res: Option<FileChangeEvent>)
    ensures
        changed_files@.len() == 0 <==> res.is_none(),
        res matches Some(e) ==> e.changed_files == changed_files && e.timestamp == timestamp,
{
    if changed_files.len() == 0 {
        None
    } else {
        Some(FileChangeEvent { changed_files, timestamp })
    }
}

/// The file-name suffixes a subscription matches: each watched extension
/// without its leading '.'.
pub fn watch_suffixes(extensions: &Vec<String>) -> (res: Vec<String>)
    ensures
        res.deep_view() == Seq::new(extensions@.len(), |i: int| strip_dot(extensions@[i]@)),
{
    let mut res: Vec<String> = Vec::new();
    let mut i: usize = 0;
    while i < extensions.len()
        invariant
            i <= extensions.len(),
            res.deep_view() == Seq::new(i as nat, |k: int| strip_dot(extensions@[k]@)),
        decreases extensions.len() - i,
    {
        let s = String::from_str(str_strip_dot(extensions[i].as_str()));
        let ghost before = res.deep_view();
        assert(s@ == strip_dot(extensions@[i as int]@));
        res.push(s);
        assert(res.deep_view() =~= before.push(strip_dot(extensions@[i as int]@)));
        assert(res.deep_view() =~= Seq::new((i + 1) as nat, |k: int| strip_dot(extensions@[k]@)));
        i = i + 1;
    }
    res
}

/// The directory names a subscription excludes: each exclude path without
/// its trailing '/'.
pub fn exclude_dir_names(dirs: &Vec<String>) -> (res: Vec<String>)
    ensures
        res.deep_view() == Seq::new(dirs@.len(), |i: int| strip_slash(dirs@[i]@)),
{
    let mut res: Vec<String> = Vec::new();
    let mut i: usize = 0;
    while i < dirs.len()
        invariant
            i <= dirs.len(),
            res.deep_view() == Seq::new(i as nat, |k: int| strip_slash(dirs@[k]@)),
        decreases dirs.len() - i,
    {
        let s = String::from_str(str_strip_slash(dirs[i].as_str()));
        let ghost before = res.deep_view();
        assert(s@ == strip_slash(dirs@[i as int]@));
        res.push(s);
        assert(res.deep_view() =~= before.push(strip_slash(dirs@[i as int]@)));
        assert(res.deep_view() =~= Seq::new((i + 1) as nat, |k: int| strip_slash(dirs@[k]@)));
        i = i + 1;
    }
    res
}

// --- Reconnecting ---

/// Delay before the first reconnection attempt (ms).
pub const RECONNECT_BASE_MS: u64 = 500;

/// Longest delay between reconnection attempts (ms).
pub const RECONNECT_MAX_MS: u64 = 30_000;

/// The delay before reconnection attempt `attempt` (counted from 0): the
/// base delay, doubled after each failed attempt, capped.
pub open spec fn reconnect_delay(attempt: nat) -> nat
    decreases attempt,
{
    if attempt == 0 {
        RECONNECT_BASE_MS as nat
    } else {
        let p = reconnect_delay((attempt - 1) as nat);
        if 2 * p > RECONNECT_MAX_MS {
            RECONNECT_MAX_MS as nat
        } else {
            2 * p
        }
    }
}

/// Once the delay reaches the cap it stays there.
proof fn lemma_delay_stays_capped(n: nat, m: nat)
    requires
        reconnect_delay(n) == RECONNECT_MAX_MS,
    ensures
        reconnect_delay(n + m) == RECONNECT_MAX_MS,
    decreases m,
{
    if m > 0 {
        lemma_delay_stays_capped(n, (m - 1) as nat);
        assert(reconnect_delay(n + m) == reconnect_delay((n + m - 1) as nat) * 2 || reconnect_delay(n + m)
            == RECONNECT_MAX_MS);
    }
}

/// Reconnection delays stay between the base delay and the cap, and never
/// shrink from one attempt to the next.
pub proof fn law_reconnect_backoff(attempt: nat)
    ensures
        RECONNECT_BASE_MS <= reconnect_delay(attempt) <= RECONNECT_MAX_MS,
        reconnect_delay(attempt) <= reconnect_delay(attempt + 1),
    decreases attempt,
{
    if attempt > 0 {
        law_reconnect_backoff((attempt - 1) as nat);
    }
}

/// Returns the delay before reconnection attempt `attempt` (counted from 0).
pub fn reconnect_delay_ms(attempt: u32) -> (res: u64)
    ensures
        res == reconnect_delay(attempt as nat),
{
    let mut d: u64 = RECONNECT_BASE_MS;
    let mut i: u32 = 0;
    while i < attempt
        invariant
            i <= attempt,
            d == reconnect_delay(i as nat),
            d <= RECONNECT_MAX_MS,
        decreases attempt - i,
    {
        if d == RECONNECT_MAX_MS {
            proof {
                lemma_delay_stays_capped(i as nat, (attempt - i) as nat);
            }
            return d;
        }
        d = if 2 * d > RECONNECT_MAX_MS { RECONNECT_MAX_MS } else { 2 * d };
        i = i + 1;
    }
    d
}

} // verus!
