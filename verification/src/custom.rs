//! Custom command islands: what text an island shows for the output of its
//! command, and how often the command runs.
use vstd::prelude::*;

use crate::text::chars_of;
use crate::text::lines;
use crate::text::lines_of;
use crate::text::string_of;
use crate::text::trim;
use crate::text::trim_chars;
use crate::config::opt_str_view;

verus! {

broadcast use vstd::string::group_string_axioms;

/// The latest text of one custom island.
#[derive(Debug, Clone)]
pub struct CustomSnapshot {
    pub id: String,
    pub text: String,
}

/// The string value under `key` of the JSON document `s`, when `s` parses
/// as JSON and that value exists and is a string.
pub uninterp spec fn json_str_field_of(s: Seq<char>, key: Seq<char>) -> Option<Seq<char>>;

/// `serde_json::from_str::<serde_json::Value>` on `s`, then `Value::get(key)`
/// and `Value::as_str`: the result is claimed to be exactly
/// `json_str_field_of(s, key)`; nothing more of JSON is stated.
#[verifier::external_body]
fn json_str_field(s: &str, key: &str) -> (r: Option<String>)
    ensures
        opt_str_view(r) == json_str_field_of(s@, key@),
{
    match serde_json::from_str::<serde_json::Value>(s) {
        Ok(value) => value.get(key).and_then(|v| v.as_str()).map(|t| t.to_string()),
        Err(_) => None,
    }
}

/// The first line of `s`, or the empty string when it has none.
pub open spec fn first_line(s: Seq<char>) -> Seq<char> {
    if lines(s).len() > 0 {
        lines(s)[0]
    } else {
        Seq::empty()
    }
}

/// What an island shows for its (trimmed) command output: the JSON `text`
/// field when one was found, else the first line.
pub open spec fn island_text(trimmed: Seq<char>, parsed: Option<Seq<char>>) -> Seq<char> {
    match parsed {
        Some(t) => t,
        None => first_line(trimmed),
    }
}

/// The text of an island from its trimmed output and the `text` field that
/// was read from it as JSON (`None` when the island is not JSON, or the output
/// had no such field).
pub fn text_from_output(trimmed: &str, parsed: Option<String>) -> (r: String)
    ensures
        r@ == island_text(trimmed@, opt_str_view(parsed)),
{
    match parsed {
        Some(t) => t,
        None => {
            let cs = chars_of(trimmed);
            let ls = lines_of(&cs);
            if ls.len() > 0 {
                string_of(&ls[0])
            } else {
                String::new()
            }
        },
    }
}

/// The text of an island whose command printed `stdout`; `json` islands read
/// the `text` field of the output parsed as JSON, and fall back to the first
/// line of plain output.
pub fn command_text(stdout: &str, json: bool) -> (r: String)
    ensures
        r@ == island_text(
            trim(stdout@),
            if json {
                json_str_field_of(trim(stdout@), "text"@)
            } else {
                None
            },
        ),
{
    let cs = chars_of(stdout);
    let trimmed = string_of(&trim_chars(&cs));
    let parsed = if json {
        json_str_field(trimmed.as_str(), "text")
    } else {
        None
    };
    text_from_output(trimmed.as_str(), parsed)
}

/// How long an island waits between runs of its command: its interval, but
/// never under half a second.
pub fn run_period_ms(interval_ms: u64) -> (r: u64)
    ensures
        r == if interval_ms < 500 {
            500
        } else {
            interval_ms
        },
{
    if interval_ms < 500 {
        500
    } else {
        interval_ms
    }
}

} // verus!
