//! The per-project lock file and the global registry of running daemons.
//!
//! The lock file holds the PID of the daemon that owns a project; a lock
//! whose holder is no longer running is stale and may be reclaimed. The
//! registry (`global.json`) lists the project daemons that are running.

use vstd::prelude::*;
use vstd::string::*;
use crate::text::{decimal, u64_to_decimal};

verus! {

// --- Lock file ---

/// What a daemon that wants a project's lock may do.
#[derive(Debug, Clone, Copy, PartialEq, Eq)]
pub enum LockDecision {
    /// The lock is free (or already ours): take it.
    Acquire,
    /// The lock is held by this PID, which no longer runs: take it over.
    Reclaim(u32),
    /// The lock is held by this running PID: do not start.
    Held(u32),
}

/// Decide whether a daemon with PID `my_pid` may take a project's lock,
/// given the lock's holder (if the lock file names one) and whether that
/// process is still running.
pub fn lock_decision(holder: Option<u32>, holder_alive: bool, my_pid: u32) -> (res: LockDecision)
    ensures
        res == match holder {
            None => LockDecision::Acquire,
            Some(p) => if p == my_pid {
                LockDecision::Acquire
            } else if holder_alive {
                LockDecision::Held(p)
            } else {
                LockDecision::Reclaim(p)
            },
        },
{
    match holder {
        None => LockDecision::Acquire,
        Some(p) => if p == my_pid {
            LockDecision::Acquire
        } else if holder_alive {
            LockDecision::Held(p)
        } else {
            LockDecision::Reclaim(p)
        },
    }
}

/// The value of a string of decimal digits.
pub open spec fn digits_value(s: Seq<char>) -> int
    decreases s.len(),
{
    if s.len() == 0 {
        0
    } else {
        digits_value(s.drop_last()) * 10 + (s.last() as int - '0' as int)
    }
}

/// Every character of `s` is a decimal digit.
pub open spec fn all_digits(s: Seq<char>) -> bool {
    forall|i: int| 0 <= i < s.len() ==> '0' <= #[trigger] s[i] <= '9'
}

/// The text of a lock file without its trailing line end.
pub open spec fn lock_body(s: Seq<char>) -> Seq<char> {
    if s.len() > 0 && s.last() == '\n' {
        s.drop_last()
    } else {
        s
    }
}

/// The PID that a lock file's text names: its digits (with an optional
/// trailing newline), when they fit a `u32`.
pub open spec fn lock_pid(text: Seq<char>) -> Option<u32> {
    let b = lock_body(text);
    if b.len() > 0 && all_digits(b) && digits_value(b) <= u32::MAX {
        Some(digits_value(b) as u32)
    } else {
        None
    }
}

proof fn lemma_digits_value_nonneg(s: Seq<char>)
    requires
        all_digits(s),
    ensures
        digits_value(s) >= 0,
    decreases s.len(),
{
    if s.len() > 0 {
        assert(all_digits(s.drop_last())) by {
            assert forall|i: int| 0 <= i < s.drop_last().len() implies '0' <= #[trigger] s.drop_last()[i] <= '9' by {
                assert(s.drop_last()[i] == s[i]);
            }
        }
        lemma_digits_value_nonneg(s.drop_last());
        assert('0' <= s[s.len() - 1] <= '9');
    }
}

/// Parse the PID that a lock file's text names.
pub fn parse_lock_pid(text: &str) -> (res: Option<u32>)
    ensures
        res == lock_pid(text@),
{
    let n = text.unicode_len();
    let len = if n > 0 && text.get_char(n - 1) == '\n' { n - 1 } else { n };
    let ghost b = lock_body(text@);
    assert(b =~= text@.subrange(0, len as int));
    if len == 0 {
        return None;
    }
    let mut value: u64 = 0;
    let mut i: usize = 0;
    while i < len
        invariant
            i <= len,
            len <= n,
            n == text@.len(),
            b == text@.subrange(0, len as int),
            b == lock_body(text@),
            all_digits(b.take(i as int)),
            value as int == digits_value(b.take(i as int)),
            value <= u32::MAX,
        decreases len - i,
    {
        let c = text.get_char(i);
        proof {
            let t = b.take(i + 1);
            assert(t.drop_last() =~= b.take(i as int));
            assert(t.last() == c);
        }
        if c < '0' || c > '9' {
            assert(!all_digits(b)) by {
                assert(b[i as int] == c);
            }
            return None;
        }
        let d = (c as u32 - '0' as u32) as u64;
        let next = value * 10 + d;
        proof {
            let t = b.take(i + 1);
            assert forall|k: int| 0 <= k < t.len() implies '0' <= #[trigger] t[k] <= '9' by {
                if k < i {
                    assert(t[k] == b.take(i as int)[k]);
                }
            }
        }
        if next > u32::MAX as u64 {
            proof {
                lemma_digits_value_nonneg(b.take(i + 1));
                lemma_digits_prefix_bound(b, i + 1);
            }
            return None;
        }
        value = next;
        i = i + 1;
    }
    assert(b.take(len as int) =~= b);
    Some(value as u32)
}

/// In a string of digits, the value of a prefix never exceeds the value
/// of the whole.
proof fn lemma_digits_prefix_bound(b: Seq<char>, k: int)
    requires
        0 <= k <= b.len(),
        all_digits(b.take(k)),
    ensures
        all_digits(b) ==> digits_value(b.take(k)) <= digits_value(b),
    decreases b.len() - k,
{
    if all_digits(b) && k < b.len() {
        let t = b.take(k + 1);
        assert(t.drop_last() =~= b.take(k));
        assert(all_digits(t)) by {
            assert forall|i: int| 0 <= i < t.len() implies '0' <= #[trigger] t[i] <= '9' by {
                assert(t[i] == b[i]);
            }
        }
        lemma_digits_value_nonneg(b.take(k));
        assert('0' <= b[k] <= '9');
        lemma_digits_prefix_bound(b, k + 1);
    } else if all_digits(b) {
        assert(b.take(k) =~= b);
    }
}

/// The text written to a lock file for PID `pid`.
pub fn lock_text(pid: u32) -> (res: String)
    ensures
        res@ == decimal(pid as nat) + seq!['\n'],
        lock_pid(res@) == Some(pid),
{
    let mut res = u64_to_decimal(pid as u64);
    res.append("\n");
    proof {
        reveal_strlit("\n");
        lemma_decimal_parses(pid as nat);
        assert(lock_body(res@) =~= decimal(pid as nat));
    }
    res
}

proof fn lemma_digit_char(k: int)
    requires
        0 <= k < 10,
    ensures
        crate::text::decimal_digits()[k] as int == '0' as int + k,
        '0' <= crate::text::decimal_digits()[k] <= '9',
{
    let d = crate::text::decimal_digits();
    if k == 0 { assert(d[0] == '0'); }
    else if k == 1 { assert(d[1] == '1'); }
    else if k == 2 { assert(d[2] == '2'); }
    else if k == 3 { assert(d[3] == '3'); }
    else if k == 4 { assert(d[4] == '4'); }
    else if k == 5 { assert(d[5] == '5'); }
    else if k == 6 { assert(d[6] == '6'); }
    else if k == 7 { assert(d[7] == '7'); }
    else if k == 8 { assert(d[8] == '8'); }
    else { assert(d[9] == '9'); }
}

/// Writing a number in decimal and reading it back gives the number.
pub proof fn lemma_decimal_parses(n: nat)
    ensures
        decimal(n).len() > 0,
        all_digits(decimal(n)),
        digits_value(decimal(n)) == n,
    decreases n,
{
    if n < 10 {
        lemma_digit_char(n as int);
        let d = decimal(n);
        assert(d =~= seq![crate::text::decimal_digits()[n as int]]);
        assert(d.drop_last() =~= Seq::<char>::empty());
        assert(digits_value(d.drop_last()) == 0);
        assert(d.last() == crate::text::decimal_digits()[n as int]);
    } else {
        lemma_decimal_parses(n / 10);
        lemma_digit_char((n % 10) as int);
        let d = decimal(n);
        assert(d.drop_last() =~= decimal(n / 10));
        assert(d.last() == crate::text::decimal_digits()[(n % 10) as int]);
        assert(n == (n / 10) * 10 + n % 10);
        assert(digits_value(d) == digits_value(decimal(n / 10)) * 10 + (n % 10));
        assert forall|i: int| 0 <= i < d.len() implies '0' <= #[trigger] d[i] <= '9' by {
            if i < d.len() - 1 {
                assert(d[i] == decimal(n / 10)[i]);
            }
        }
    }
}

// --- Global registry ---

/// One running project daemon.
#[derive(Debug)]
pub struct RegistryEntry {
    pub project_hash: String,
    pub project_root: String,
    pub pid: u32,
}

/// The running project daemons (`global.json`).
#[derive(Debug)]
pub struct Registry {
    pub entries: Vec<RegistryEntry>,
}

/// The mathematical value of a [`RegistryEntry`].
pub struct EntryView {
    pub project_hash: Seq<char>,
    pub project_root: Seq<char>,
    pub pid: u32,
}

impl View for RegistryEntry {
    type V = EntryView;

    open spec fn view(&self) -> EntryView {
        EntryView { project_hash: self.project_hash@, project_root: self.project_root@, pid: self.pid }
    }
}

/// The views of a list of entries.
pub open spec fn entry_views(v: Seq<RegistryEntry>) -> Seq<EntryView> {
    Seq::new(v.len(), |i: int| v[i]@)
}

impl View for Registry {
    type V = Seq<EntryView>;

    open spec fn view(&self) -> Seq<EntryView> {
        entry_views(self.entries@)
    }
}

/// The entries, in order, that are not for project `hash`.
pub open spec fn without(s: Seq<EntryView>, hash: Seq<char>) -> Seq<EntryView>
    decreases s.len(),
{
    if s.len() == 0 {
        Seq::empty()
    } else {
        let k = without(s.drop_last(), hash);
        if s.last().project_hash == hash {
            k
        } else {
            k.push(s.last())
        }
    }
}

/// The registry after `e` registers: any earlier entry of its project is
/// replaced, and it comes last.
pub open spec fn register_spec(s: Seq<EntryView>, e: EntryView) -> Seq<EntryView> {
    without(s, e.project_hash).push(e)
}

/// No two entries are for the same project.
pub open spec fn one_per_project(s: Seq<EntryView>) -> bool {
    forall|i: int, j: int|
        0 <= i < s.len() && 0 <= j < s.len() && i != j ==> #[trigger] s[i].project_hash != #[trigger] s[j].project_hash
}

/// Some entry of `s` is for project `hash`.
pub open spec fn has_project(s: Seq<EntryView>, hash: Seq<char>) -> bool {
    exists|i: int| 0 <= i < s.len() && #[trigger] s[i].project_hash == hash
}

impl RegistryEntry {
    /// Returns an equal copy.
    pub fn copy(&self) -> (res: RegistryEntry)
        ensures
            res@ == self@,
    {
        RegistryEntry {
            project_hash: self.project_hash.clone(),
            project_root: self.project_root.clone(),
            pid: self.pid,
        }
    }
}

impl Registry {
    /// An empty registry.
    pub fn new() -> (res: Registry)
        ensures
            res@.len() == 0,
    {
        let res = Registry { entries: Vec::new() };
        assert(res@ =~= Seq::<EntryView>::empty());
        res
    }

    /// Remove the entries of project `project_hash`.
    pub fn unregister(&mut self, project_hash: &String)
        ensures
            final(self)@ == without(old(self)@, project_hash@),
    {
        let ghost orig = self@;
        let mut rest: Vec<RegistryEntry> = Vec::new();
        std::mem::swap(&mut rest, &mut self.entries);
        let ghost orig_vec = rest@;
        assert(entry_views(orig_vec) == orig);
        let mut kept: Vec<RegistryEntry> = Vec::new();
        let ghost mut done: int = 0;
        while rest.len() > 0
            invariant
                0 <= done <= orig.len(),
                orig.len() == orig_vec.len(),
                entry_views(orig_vec) == orig,
                rest@ == orig_vec.skip(done),
                entry_views(kept@) == without(orig.take(done), project_hash@),
            decreases rest.len(),
        {
            let e = rest.remove(0);
            proof {
                assert(e == orig_vec[done]);
                assert(e@ == orig[done]);
                let tk = orig.take(done + 1);
                assert(tk.drop_last() =~= orig.take(done));
                assert(tk.last() == orig[done]);
                assert(rest@ =~= orig_vec.skip(done + 1));
            }
            if e.project_hash != *project_hash {
                let ghost before = entry_views(kept@);
                let ghost ev = e@;
                kept.push(e);
                assert(entry_views(kept@) =~= before.push(ev));
            }
            proof {
                done = done + 1;
            }
        }
        proof {
            assert(orig.take(done) =~= orig);
        }
        self.entries = kept;
    }

    /// Register a running daemon, replacing any earlier entry of its project.
    pub fn register(&mut self, entry: RegistryEntry)
        ensures
            final(self)@ == register_spec(old(self)@, entry@),
    {
        self.unregister(&entry.project_hash);
        let ghost before = self@;
        let ghost ev = entry@;
        self.entries.push(entry);
        assert(self@ =~= before.push(ev));
    }
}

// --- Laws of the registry ---

proof fn lemma_without(s: Seq<EntryView>, hash: Seq<char>)
    ensures
        !has_project(without(s, hash), hash),
        forall|e: EntryView| #[trigger] without(s, hash).contains(e) ==> s.contains(e),
        forall|i: int| 0 <= i < s.len() && s[i].project_hash != hash ==> without(s, hash).contains(#[trigger] s[i]),
        !has_project(s, hash) ==> without(s, hash) == s,
        one_per_project(s) ==> one_per_project(without(s, hash)),
    decreases s.len(),
{
    if s.len() > 0 {
        let init = s.drop_last();
        lemma_without(init, hash);
        let k = without(init, hash);
        assert forall|i: int| 0 <= i < init.len() implies init[i] == s[i] by {}
        if s.last().project_hash != hash {
            let r = k.push(s.last());
            assert forall|i: int| 0 <= i < r.len() implies #[trigger] r[i].project_hash != hash by {
                if i < k.len() {
                    assert(r[i] == k[i]);
                    if k[i].project_hash == hash {
                        assert(has_project(k, hash));
                    }
                }
            }
            assert forall|e: EntryView| #[trigger] r.contains(e) implies s.contains(e) by {
                let j = choose|j: int| 0 <= j < r.len() && r[j] == e;
                if j < k.len() {
                    assert(k[j] == e);
                    assert(k.contains(e));
                    let m = choose|m: int| 0 <= m < init.len() && init[m] == e;
                    assert(s[m] == e);
                } else {
                    assert(s[s.len() - 1] == e);
                }
            }
            assert forall|i: int| 0 <= i < s.len() && s[i].project_hash != hash implies r.contains(#[trigger] s[i]) by {
                if i < init.len() {
                    assert(init[i] == s[i]);
                    assert(k.contains(init[i]));
                    let j = choose|j: int| 0 <= j < k.len() && k[j] == init[i];
                    assert(r[j] == s[i]);
                } else {
                    assert(r[k.len() as int] == s[i]);
                }
            }
            if !has_project(s, hash) {
                assert(!has_project(init, hash)) by {
                    if has_project(init, hash) {
                        let j = choose|j: int| 0 <= j < init.len() && #[trigger] init[j].project_hash == hash;
                        assert(s[j].project_hash == hash);
                    }
                }
                assert(r =~= s);
            }
            if one_per_project(s) {
                assert(one_per_project(init)) by {
                    assert forall|i: int, j: int|
                        0 <= i < init.len() && 0 <= j < init.len() && i != j implies #[trigger] init[i].project_hash
                            != #[trigger] init[j].project_hash by {
                        assert(s[i].project_hash != s[j].project_hash);
                    }
                }
                assert forall|i: int, j: int|
                    0 <= i < r.len() && 0 <= j < r.len() && i != j implies #[trigger] r[i].project_hash
                        != #[trigger] r[j].project_hash by {
                    if i < k.len() && j < k.len() {
                        assert(r[i] == k[i] && r[j] == k[j]);
                    } else {
                        let x = if i < k.len() { i } else { j };
                        assert(r[x] == k[x]);
                        assert(k.contains(k[x]));
                        let m = choose|m: int| 0 <= m < init.len() && init[m] == k[x];
                        assert(s[m] == k[x]);
                        assert(s[m].project_hash != s[s.len() - 1].project_hash);
                    }
                }
            }
        } else {
            assert(has_project(s, hash)) by {
                assert(s[s.len() - 1].project_hash == hash);
            }
            assert forall|e: EntryView| #[trigger] k.contains(e) implies s.contains(e) by {
                let m = choose|m: int| 0 <= m < init.len() && init[m] == e;
                assert(s[m] == e);
            }
            assert forall|i: int| 0 <= i < s.len() && s[i].project_hash != hash implies k.contains(#[trigger] s[i]) by {
                assert(i < init.len());
                assert(init[i] == s[i]);
            }
            if one_per_project(s) {
                assert(one_per_project(init)) by {
                    assert forall|i: int, j: int|
                        0 <= i < init.len() && 0 <= j < init.len() && i != j implies #[trigger] init[i].project_hash
                            != #[trigger] init[j].project_hash by {
                        assert(s[i].project_hash != s[j].project_hash);
                    }
                }
            }
        }
    }
}

/// After a daemon registers, the registry has exactly one entry for its
/// project, that entry, and it keeps one entry per project.
pub proof fn law_register_one_entry(s: Seq<EntryView>, e: EntryView)
    requires
        one_per_project(s),
    ensures
        one_per_project(register_spec(s, e)),
        register_spec(s, e).last() == e,
        forall|i: int|
            0 <= i < register_spec(s, e).len() - 1 ==> #[trigger] register_spec(s, e)[i].project_hash != e.project_hash,
{
    lemma_without(s, e.project_hash);
    let w = without(s, e.project_hash);
    let r = register_spec(s, e);
    assert forall|i: int| 0 <= i < r.len() - 1 implies #[trigger] r[i].project_hash != e.project_hash by {
        assert(r[i] == w[i]);
        if w[i].project_hash == e.project_hash {
            assert(has_project(w, e.project_hash));
        }
    }
    assert forall|i: int, j: int|
        0 <= i < r.len() && 0 <= j < r.len() && i != j implies #[trigger] r[i].project_hash != #[trigger] r[j].project_hash by {
        if i < w.len() && j < w.len() {
            assert(r[i] == w[i] && r[j] == w[j]);
        } else if i < w.len() {
            assert(r[i] == w[i]);
        } else {
            assert(r[j] == w[j]);
        }
    }
}

/// Registering keeps every other project's entry, and adds nothing else.
pub proof fn law_register_keeps_others(s: Seq<EntryView>, e: EntryView)
    ensures
        forall|i: int| 0 <= i < s.len() && s[i].project_hash != e.project_hash ==> register_spec(s, e).contains(#[trigger] s[i]),
        forall|x: EntryView| #[trigger] register_spec(s, e).contains(x) ==> x == e || s.contains(x),
{
    lemma_without(s, e.project_hash);
    let w = without(s, e.project_hash);
    let r = register_spec(s, e);
    assert forall|i: int| 0 <= i < s.len() && s[i].project_hash != e.project_hash implies r.contains(#[trigger] s[i]) by {
        assert(w.contains(s[i]));
        let j = choose|j: int| 0 <= j < w.len() && w[j] == s[i];
        assert(r[j] == s[i]);
    }
    assert forall|x: EntryView| #[trigger] r.contains(x) implies x == e || s.contains(x) by {
        let j = choose|j: int| 0 <= j < r.len() && r[j] == x;
        if j < w.len() {
            assert(w[j] == x);
            assert(w.contains(x));
        }
    }
}

/// Unregistering a daemon that registered in a registry without its
/// project gives back the registry as it was.
pub proof fn law_unregister_undoes_register(s: Seq<EntryView>, e: EntryView)
    requires
        !has_project(s, e.project_hash),
    ensures
        without(register_spec(s, e), e.project_hash) == s,
{
    lemma_without(s, e.project_hash);
    let w = without(s, e.project_hash);
    let r = register_spec(s, e);
    assert(r.drop_last() =~= w);
    lemma_without(w, e.project_hash);
}

/// After unregistering, no entry is for the project.
pub proof fn law_unregister_removes(s: Seq<EntryView>, hash: Seq<char>)
    ensures
        !has_project(without(s, hash), hash),
{
    lemma_without(s, hash);
}

} // verus!
