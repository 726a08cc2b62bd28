//! Build notifications: what a notification for a build event says.
//! Dispatching it to the desktop is left to the program.

use vstd::prelude::*;
use vstd::string::*;

verus! {

/// Longest error detail shown in a failure notification (characters).
pub const MAX_ERROR_CHARS: usize = 100;

/// The body of a build notification.
#[derive(Debug)]
pub enum NotificationBody {
    /// "Built in {seconds}s", the duration shown in seconds with one decimal.
    BuiltIn { duration_ms: u64 },
    /// The complete text of a failure notification's body.
    Failed { text: String },
}

/// A build notification ready to be dispatched.
#[derive(Debug)]
pub struct Notification {
    pub title: String,
    pub body: NotificationBody,
    pub sound: bool,
}

/// The first line of `s`: the text before the first `'\n'`, without the
/// `'\r'` of a `"\r\n"` ending; all of `s` when it holds no `'\n'`.
pub open spec fn first_line(s: Seq<char>) -> Seq<char> {
    if exists|i: int| 0 <= i < s.len() && s[i] == '\n' {
        let i = choose|i: int| 0 <= i < s.len() && s[i] == '\n' && forall|j: int| 0 <= j < i ==> s[j] != '\n';
        let line = s.subrange(0, i);
        if line.len() > 0 && line.last() == '\r' {
            line.drop_last()
        } else {
            line
        }
    } else {
        s
    }
}

/// At most the first `n` characters of `s`.
pub open spec fn take_chars(s: Seq<char>, n: nat) -> Seq<char> {
    if s.len() <= n {
        s
    } else {
        s.take(n as int)
    }
}

/// The error detail of a failure notification: the first line of the error
/// summary ("Unknown error" when there is none), cut to 100 characters.
pub open spec fn short_error(error_summary: Option<Seq<char>>) -> Seq<char> {
    let detail = match error_summary {
        Some(e) => e,
        None => "Unknown error"@,
    };
    take_chars(first_line(detail), MAX_ERROR_CHARS as nat)
}

/// Returns the first line of `s`.
fn first_line_of(s: &str) -> (res: &str)
    ensures
        res@ == first_line(s@),
{
    let n = s.unicode_len();
    let mut i: usize = 0;
    while i < n
        invariant
            i <= n,
            n == s@.len(),
            forall|j: int| 0 <= j < i ==> s@[j] != '\n',
        decreases n - i,
    {
        if s.get_char(i) == '\n' {
            let ghost k = choose|k: int| 0 <= k < s@.len() && s@[k] == '\n' && forall|j: int| 0 <= j < k ==> s@[j] != '\n';
            assert(k == i) by {
                if k < i {
                    assert(s@[k] != '\n');
                } else if k > i {
                    assert(s@[i as int] != '\n');
                }
            }
            if i > 0 && s.get_char(i - 1) == '\r' {
                let r = s.substring_char(0, i - 1);
                assert(r@ =~= s@.subrange(0, i as int).drop_last());
                return r;
            } else {
                return s.substring_char(0, i);
            }
        }
        i = i + 1;
    }
    s
}

/// Returns at most the first `n` characters of `s`.
fn take_chars_of(s: &str, n: usize) -> (res: &str)
    ensures
        res@ == take_chars(s@, n as nat),
{
    let len = s.unicode_len();
    if len <= n {
        s
    } else {
        s.substring_char(0, n)
    }
}

/// The title of a build notification: a check mark or a cross, and the
/// target's name.
pub open spec fn notification_title(target_name: Seq<char>, success: bool) -> Seq<char> {
    (if success {
        "✓ "@
    } else {
        "✗ "@
    }) + target_name
}

/// Build the notification for a finished build. A success reports the
/// duration; a failure reports the first line of the error summary, cut to
/// 100 characters.
pub fn notify(target_name: &str, success: bool, duration_ms: u64, error_summary: Option<&str>, sound: bool) -> (res: Notification)
    ensures
        res.title@ == notification_title(target_name@, success),
        res.sound == sound,
        success ==> res.body == (NotificationBody::BuiltIn { duration_ms }),
        !success ==> (res.body matches NotificationBody::Failed { text } && text@ == "Build failed: "@
            + short_error(
            match error_summary {
                Some(e) => Some(e@),
                None => None,
            },
        )),
{
    if success {
        let mut title = String::from_str("✓ ");
        title.append(target_name);
        Notification { title, body: NotificationBody::BuiltIn { duration_ms }, sound }
    } else {
        let detail = match error_summary {
            Some(e) => e,
            None => "Unknown error",
        };
        let short = take_chars_of(first_line_of(detail), MAX_ERROR_CHARS);
        let mut title = String::from_str("✗ ");
        title.append(target_name);
        let mut text = String::from_str("Build failed: ");
        text.append(short);
        Notification { title, body: NotificationBody::Failed { text }, sound }
    }
}

} // verus!
