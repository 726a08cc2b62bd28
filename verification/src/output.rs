//! Terminal formatting and agent detection.
//!
//! Decides whether the caller is a human or an AI agent and formats
//! messages accordingly.

use vstd::prelude::*;
use vstd::string::*;
use crate::text::str_eq;

verus! {

/// The environment variables that mark an AI agent caller.
pub open spec fn agent_env_vars_spec() -> Seq<Seq<char>> {
    seq![
        "CLAUDE_CODE"@,
        "CURSOR_SESSION"@,
        "CODEX_SESSION"@,
        "NAVI_AGENT"@,
        "HELM_SESSION"@,
        "AIDER_SESSION"@,
        "BUILDWATCH_AGENT_MODE"@,
    ]
}

/// Known environment variables that indicate an AI agent caller.
pub fn agent_env_vars() -> (res: Vec<String>)
    ensures
        res.deep_view() == agent_env_vars_spec(),
{
    let res = vec![
        String::from_str("CLAUDE_CODE"),
        String::from_str("CURSOR_SESSION"),
        String::from_str("CODEX_SESSION"),
        String::from_str("NAVI_AGENT"),
        String::from_str("HELM_SESSION"),
        String::from_str("AIDER_SESSION"),
        String::from_str("BUILDWATCH_AGENT_MODE"),
    ];
    assert(res.deep_view() =~= agent_env_vars_spec());
    res
}

/// Decide whether the caller is likely an AI agent: one of the agent
/// environment variables is set, or stdout is not a terminal (piped output,
/// cron, CI, ...).
pub fn is_agent_caller(agent_var_set: bool, stdout_is_tty: bool) -> (res: bool)
    ensures
        res == (agent_var_set || !stdout_is_tty),
{
    agent_var_set || !stdout_is_tty
}

/// The icon of a target status in `buildwatch status`.
pub open spec fn status_icon_spec(status: Seq<char>) -> Seq<char> {
    if status == "ready"@ {
        "✓"@
    } else if status == "building"@ {
        "⟳"@
    } else if status == "failed"@ {
        "✗"@
    } else if status == "stale"@ {
        "?"@
    } else {
        "-"@
    }
}

/// Returns the icon of a target status in `buildwatch status`.
pub fn status_icon(status: &str) -> (res: &'static str)
    ensures
        res@ == status_icon_spec(status@),
{
    if str_eq(status, "ready") {
        "✓"
    } else if str_eq(status, "building") {
        "⟳"
    } else if str_eq(status, "failed") {
        "✗"
    } else if str_eq(status, "stale") {
        "?"
    } else {
        "-"
    }
}

/// The icon of a target status in a human status line: as in
/// `buildwatch status`, and a circle for "pending".
pub open spec fn status_line_icon_spec(status: Seq<char>) -> Seq<char> {
    if status == "pending"@ {
        "○"@
    } else {
        status_icon_spec(status)
    }
}

/// Returns the icon of a target status in a human status line.
pub fn status_line_icon(status: &str) -> (res: &'static str)
    ensures
        res@ == status_line_icon_spec(status@),
{
    if str_eq(status, "pending") {
        "○"
    } else {
        status_icon(status)
    }
}

/// A JSON value written by the library: a string, an unsigned number, or
/// null.
#[derive(Debug)]
pub enum JsonScalar {
    Text(String),
    Number(u64),
    Null,
}

/// The mathematical value of a [`JsonScalar`].
pub enum JsonScalarView {
    Text(Seq<char>),
    Number(u64),
    Null,
}

impl View for JsonScalar {
    type V = JsonScalarView;

    open spec fn view(&self) -> JsonScalarView {
        match self {
            JsonScalar::Text(s) => JsonScalarView::Text(s@),
            JsonScalar::Number(n) => JsonScalarView::Number(*n),
            JsonScalar::Null => JsonScalarView::Null,
        }
    }
}

/// The (key, value) pairs of a list of JSON fields, by their views.
pub open spec fn json_fields(fields: Seq<(String, JsonScalar)>) -> Seq<(Seq<char>, JsonScalarView)> {
    Seq::new(fields.len(), |i: int| (fields[i].0@, fields[i].1@))
}

/// The JSON text of an object with the given fields, as `serde_json`
/// writes it.
pub uninterp spec fn json_object_text(fields: Seq<(Seq<char>, JsonScalarView)>) -> Seq<char>;

/// Calls `serde_json::to_string` on a `serde_json::Value::Object` built from
/// `fields`, each value turned into the `serde_json::Value` of the same
/// kind (`String`, `Number`, `Null`).
///
/// Trusted: the result is serde_json's text of that object, named
/// `json_object_text` of the fields (serde_json's default map keeps keys
/// sorted, and a later field replaces an earlier one of the same key, so
/// the text depends on the fields alone). What that text is character by
/// character is not stated.
#[verifier::external_body]
fn json_object(fields: &Vec<(String, JsonScalar)>) -> (res: String)
    ensures
        res@ == json_object_text(json_fields(fields@)),
{
    let mut map = serde_json::Map::new();
    for (k, v) in fields.iter() {
        let value = match v {
            JsonScalar::Text(s) => serde_json::Value::String(s.clone()),
            JsonScalar::Number(n) => serde_json::Value::from(*n),
            JsonScalar::Null => serde_json::Value::Null,
        };
        map.insert(k.clone(), value);
    }
    serde_json::to_string(&serde_json::Value::Object(map)).unwrap_or_default()
}

/// The fields of an agent's status object: the target, its status, and the
/// duration of its last build in milliseconds (null when there is none).
pub open spec fn status_fields(target: Seq<char>, status: Seq<char>, duration_ms: Option<u64>) -> Seq<(Seq<char>, JsonScalarView)> {
    seq![
        ("target"@, JsonScalarView::Text(target)),
        ("status"@, JsonScalarView::Text(status)),
        ("duration_ms"@, match duration_ms {
            Some(d) => JsonScalarView::Number(d),
            None => JsonScalarView::Null,
        }),
    ]
}

/// Returns the status of a target as an agent reads it: a JSON object with
/// the target, its status and the duration of its last build.
pub fn status_json(target: &str, status: &str, duration_ms: Option<u64>) -> (res: String)
    ensures
        res@ == json_object_text(status_fields(target@, status@, duration_ms)),
{
    let mut fields: Vec<(String, JsonScalar)> = Vec::new();
    fields.push((String::from_str("target"), JsonScalar::Text(String::from_str(target))));
    fields.push((String::from_str("status"), JsonScalar::Text(String::from_str(status))));
    let d = match duration_ms {
        Some(d) => JsonScalar::Number(d),
        None => JsonScalar::Null,
    };
    fields.push((String::from_str("duration_ms"), d));
    assert(json_fields(fields@) =~= status_fields(target@, status@, duration_ms));
    json_object(&fields)
}

/// The human status line of a target: its icon, its name, its status in
/// brackets, and the duration of its last build, in seconds, when there is
/// one: `✓ api [ready] (1.5s)`.
pub open spec fn status_line_spec(target: Seq<char>, status: Seq<char>, seconds: Option<Seq<char>>) -> Seq<char> {
    status_line_icon_spec(status) + " "@ + target + " ["@ + status + "]"@ + match seconds {
        Some(s) => " ("@ + s + "s)"@,
        None => Seq::empty(),
    }
}

/// Returns the human status line of a target, given the duration of its
/// last build already written in seconds.
pub fn status_line(target: &str, status: &str, seconds: Option<&str>) -> (res: String)
    ensures
        res@ == status_line_spec(
            target@,
            status@,
            match seconds {
                Some(s) => Some(s@),
                None => None,
            },
        ),
{
    let mut res = String::from_str(status_line_icon(status));
    res.append(" ");
    res.append(target);
    res.append(" [");
    res.append(status);
    res.append("]");
    match seconds {
        Some(s) => {
            res.append(" (");
            res.append(s);
            res.append("s)");
        },
        None => {},
    }
    proof {
        reveal_strlit(" ");
        reveal_strlit(" [");
        reveal_strlit("]");
        reveal_strlit(" (");
        reveal_strlit("s)");
    }
    res
}

/// The fields of an agent's error object: the error type, the message, and
/// the hint when there is one.
pub open spec fn error_fields(error_type: Seq<char>, message: Seq<char>, hint: Option<Seq<char>>) -> Seq<(Seq<char>, JsonScalarView)> {
    seq![("error"@, JsonScalarView::Text(error_type)), ("message"@, JsonScalarView::Text(message))] + match hint {
        Some(h) => seq![("hint"@, JsonScalarView::Text(h))],
        None => Seq::empty(),
    }
}

/// Format an error message. Agents get a JSON object; humans get the
/// message, followed by the hint on its own indented line.
pub fn format_error(error_type: &str, message: &str, hint: Option<&str>, agent: bool) -> (res: String)
    ensures
        ({
            let h = match hint {
                Some(h) => Some(h@),
                None => None,
            };
            if agent {
                res@ == json_object_text(error_fields(error_type@, message@, h))
            } else {
                res@ == message@ + match h {
                    Some(h) => "\n  Hint: "@ + h,
                    None => Seq::empty(),
                }
            }
        }),
{
    if agent {
        let mut fields: Vec<(String, JsonScalar)> = Vec::new();
        fields.push((String::from_str("error"), JsonScalar::Text(String::from_str(error_type))));
        fields.push((String::from_str("message"), JsonScalar::Text(String::from_str(message))));
        match hint {
            Some(h) => {
                fields.push((String::from_str("hint"), JsonScalar::Text(String::from_str(h))));
            },
            None => {},
        }
        proof {
            let h = match hint {
                Some(h) => Some(h@),
                None => None,
            };
            assert(json_fields(fields@) =~= error_fields(error_type@, message@, h));
        }
        json_object(&fields)
    } else {
        let mut res = String::from_str(message);
        match hint {
            Some(h) => {
                res.append("\n  Hint: ");
                res.append(h);
            },
            None => {},
        }
        res
    }
}

} // verus!
