//! The build log: the form of its lines, what `buildwatch log` shows of it,
//! and its weekly rotation.

use vstd::prelude::*;
use vstd::string::*;
use chrono::Datelike;
use crate::text::{starts_with, str_starts_with, decimal, signed_decimal, u64_to_decimal, i64_to_decimal};

verus! {

/// Number of log lines shown by `buildwatch log`.
pub const TAIL_LINES: usize = 50;

/// The prefix of the log lines of target `target`: `[target] `.
pub open spec fn target_prefix(target: Seq<char>) -> Seq<char> {
    "["@ + target + "] "@
}

/// Returns the log line for a line of a build's output on `stream`
/// ("stdout" or "stderr"): `[target] stream: line`.
pub fn log_line(target: &str, stream: &str, line: &str) -> (res: String)
    ensures
        res@ == target_prefix(target@) + stream@ + ": "@ + line@,
{
    let mut res = String::from_str("[");
    res.append(target);
    res.append("] ");
    res.append(stream);
    res.append(": ");
    res.append(line);
    proof {
        reveal_strlit("[");
        reveal_strlit("] ");
        assert(res@ =~= target_prefix(target@) + stream@ + ": "@ + line@);
    }
    res
}

/// The lines of `lines`, in order, that belong to `target` (all of them when
/// no target is given).
pub open spec fn lines_of(lines: Seq<Seq<char>>, target: Option<Seq<char>>) -> Seq<Seq<char>>
    decreases lines.len(),
{
    if lines.len() == 0 {
        Seq::empty()
    } else {
        let k = lines_of(lines.drop_last(), target);
        match target {
            Some(t) => if starts_with(lines.last(), target_prefix(t)) {
                k.push(lines.last())
            } else {
                k
            },
            None => k.push(lines.last()),
        }
    }
}

/// The last `n` of `s` (all of `s` when it has fewer).
pub open spec fn last_n(s: Seq<Seq<char>>, n: nat) -> Seq<Seq<char>> {
    if s.len() <= n {
        s
    } else {
        s.skip(s.len() - n)
    }
}

/// Returns the lines that `buildwatch log` shows: the last [`TAIL_LINES`]
/// lines of the log, of the given target when one is given.
pub fn tail_lines(lines: Vec<String>, target: Option<&str>) -> (res: Vec<String>)
    ensures
        res.deep_view() == last_n(
            lines_of(
                lines.deep_view(),
                match target {
                    Some(t) => Some(t@),
                    None => None,
                },
            ),
            TAIL_LINES as nat,
        ),
{
    let ghost tv = match target {
        Some(t) => Some(t@),
        None => None,
    };
    let ghost orig = lines.deep_view();
    let prefix: Option<String> = match target {
        Some(t) => {
            let mut p = String::from_str("[");
            p.append(t);
            p.append("] ");
            proof {
                reveal_strlit("[");
                reveal_strlit("] ");
                assert(p@ =~= target_prefix(t@));
            }
            Some(p)
        },
        None => None,
    };
    let mut kept: Vec<String> = Vec::new();
    let mut i: usize = 0;
    while i < lines.len()
        invariant
            i <= lines.len(),
            orig == lines.deep_view(),
            match tv {
                Some(t) => prefix matches Some(p) && p@ == target_prefix(t),
                None => prefix.is_none(),
            },
            kept.deep_view() == lines_of(orig.take(i as int), tv),
        decreases lines.len() - i,
    {
        proof {
            let tk = orig.take(i + 1);
            assert(tk.drop_last() =~= orig.take(i as int));
            assert(tk.last() == orig[i as int]);
        }
        let keep = match &prefix {
            Some(p) => str_starts_with(lines[i].as_str(), p.as_str()),
            None => true,
        };
        if keep {
            let l = lines[i].clone();
            let ghost before = kept.deep_view();
            kept.push(l);
            assert(kept.deep_view() =~= before.push(orig[i as int]));
        }
        i = i + 1;
    }
    assert(orig.take(lines.len() as int) =~= orig);
    let ghost filtered = kept.deep_view();
    if kept.len() <= TAIL_LINES {
        return kept;
    }
    let start = kept.len() - TAIL_LINES;
    let mut res: Vec<String> = Vec::new();
    let mut j: usize = start;
    while j < kept.len()
        invariant
            start <= j <= kept.len(),
            filtered == kept.deep_view(),
            res.deep_view() == filtered.subrange(start as int, j as int),
        decreases kept.len() - j,
    {
        let l = kept[j].clone();
        let ghost before = res.deep_view();
        assert(l@ == filtered[j as int]);
        res.push(l);
        assert(res.deep_view() =~= before.push(filtered[j as int]));
        assert(res.deep_view() =~= filtered.subrange(start as int, j + 1));
        j = j + 1;
    }
    assert(filtered.subrange(start as int, kept.len() as int) =~= filtered.skip(start as int));
    res
}

// --- Weekly rotation ---

/// The ISO year and week of the time `ms` (ms since the Unix epoch), as
/// chrono computes it; `None` outside chrono's range of dates.
pub uninterp spec fn iso_week_of(ms: i64) -> Option<(i32, u32)>;

/// Calls `chrono::DateTime::from_timestamp_millis` and `Datelike::iso_week`.
///
/// Trusted: the result is chrono's ISO (year, week) of the time, named
/// `iso_week_of`; `None` when the time is outside chrono's range. As
/// chrono's documentation states, the week is between 1 and 53.
#[verifier::external_body]
fn iso_week(ms: i64) -> (res: Option<(i32, u32)>)
    ensures
        res == iso_week_of(ms),
        res matches Some((_, w)) ==> 1 <= w <= 53,
{
    chrono::DateTime::from_timestamp_millis(ms).map(|dt| {
        let w = dt.iso_week();
        (w.year(), w.week())
    })
}

/// The week number with two digits.
pub open spec fn two_digits(w: u32) -> Seq<char> {
    if w < 10 {
        "0"@ + decimal(w as nat)
    } else {
        decimal(w as nat)
    }
}

/// The name a log of ISO week `week` of year `year` is rotated to:
/// `build.log.<year>-W<week>`.
pub open spec fn rotated_name(year: i32, week: u32) -> Seq<char> {
    "build.log."@ + signed_decimal(year as int) + "-W"@ + two_digits(week)
}

/// The name a log is rotated to, given the ISO (year, week) of its last
/// write and of the present: the log's own week, when that week is over;
/// nothing when either time has no week.
pub open spec fn rotation_for(log_week: Option<(i32, u32)>, now_week: Option<(i32, u32)>) -> Option<Seq<char>> {
    match (log_week, now_week) {
        (Some((y, w)), Some(current)) => if (y, w) != current {
            Some(rotated_name(y, w))
        } else {
            None
        },
        _ => None,
    }
}

/// The name the build log, last written at `log_modified`, is rotated to
/// at time `now`.
pub open spec fn rotation_spec(log_modified: i64, now: i64) -> Option<Seq<char>> {
    rotation_for(iso_week_of(log_modified), iso_week_of(now))
}

/// Returns the name a log is rotated to, given the ISO (year, week) of its
/// last write and of the present.
pub fn rotation_name(log_week: Option<(i32, u32)>, now_week: Option<(i32, u32)>) -> (res: Option<String>)
    ensures
        match res {
            Some(name) => rotation_for(log_week, now_week) == Some(name@),
            None => rotation_for(log_week, now_week).is_none(),
        },
{
    match (log_week, now_week) {
        (Some((y, w)), Some((cy, cw))) => {
            if y != cy || w != cw {
                let mut name = String::from_str("build.log.");
                let year = i64_to_decimal(y as i64);
                name.append(year.as_str());
                name.append("-W");
                if w < 10 {
                    name.append("0");
                }
                let week = u64_to_decimal(w as u64);
                name.append(week.as_str());
                proof {
                    assert(name@ =~= rotated_name(y, w));
                }
                Some(name)
            } else {
                None
            }
        },
        _ => None,
    }
}

/// Decide whether the build log, last written at `log_modified`, must be
/// rotated before writing to it at `now`, and to which name.
pub fn log_rotation(log_modified: i64, now: i64) -> (res: Option<String>)
    ensures
        match res {
            Some(name) => rotation_spec(log_modified, now) == Some(name@),
            None => rotation_spec(log_modified, now).is_none(),
        },
{
    let log_week = iso_week(log_modified);
    let now_week = iso_week(now);
    rotation_name(log_week, now_week)
}

} // verus!
