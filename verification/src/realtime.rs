//! Supabase Realtime (protocol 1.0.0, JSON messages): what a server message means for the app,
//! and the messages the app sends. The socket, its thread and the timers are the host's work.

use vstd::prelude::*;
use vstd::string::StringExecFns;
use crate::model::{parse_uuid, spec_parse_uuid, Id, Millis};
use crate::text::{decimal, spec_decimal, str_eq};

verus! {

/// The channel the app joins.
pub const TOPIC: &'static str = "realtime:odak";

/// What serde_json finds at a JSON pointer in a message.
pub enum JsonAt {
    /// The message is not JSON.
    NotJson,
    /// Nothing is there.
    Missing,
    /// A value: its JSON text, and the string itself when it is a string.
    Found { json: String, string: Option<String> },
}

pub enum JsonAtV {
    NotJson,
    Missing,
    Found { json: Seq<char>, string: Option<Seq<char>> },
}

pub open spec fn json_at_view(j: JsonAt) -> JsonAtV {
    match j {
        JsonAt::NotJson => JsonAtV::NotJson,
        JsonAt::Missing => JsonAtV::Missing,
        JsonAt::Found { json, string } => JsonAtV::Found {
            json: json@,
            string: match string {
                Some(s) => Some(s@),
                None => None,
            },
        },
    }
}

/// What serde_json finds at `pointer` in the JSON text `text`.
pub uninterp spec fn spec_json_at(text: Seq<char>, pointer: Seq<char>) -> JsonAtV;

/// serde_json's `from_str` into a `Value`, then `Value::pointer`; the value found is given as its
/// JSON text (`Display`) and, for a string, as the string (`as_str`).
#[verifier::external_body]
fn json_at(text: &str, pointer: &str) -> (r: JsonAt)
    ensures
        json_at_view(r) == spec_json_at(text@, pointer@),
{
    match serde_json::from_str::<serde_json::Value>(text) {
        Err(_) => JsonAt::NotJson,
        Ok(v) => match v.pointer(pointer) {
            None => JsonAt::Missing,
            Some(x) => JsonAt::Found { json: x.to_string(), string: x.as_str().map(str::to_owned) },
        },
    }
}

/// The instant chrono reads from a timestamp text (`DateTime<Utc>`'s `FromStr`), in whole
/// milliseconds.
pub uninterp spec fn spec_parse_timestamp(s: Seq<char>) -> Option<Millis>;

/// chrono's `str::parse::<DateTime<Utc>>`, as milliseconds since the epoch.
#[verifier::external_body]
fn parse_timestamp(s: &str) -> (r: Option<Millis>)
    ensures
        r == spec_parse_timestamp(s@),
{
    s.parse::<chrono::DateTime<chrono::Utc>>().ok().map(|t| t.timestamp_millis())
}

/// A comment on a task.
#[derive(Debug, PartialEq, Eq)]
pub struct Comment {
    pub id: Id,
    pub task_id: Id,
    pub user_id: Id,
    pub body: String,
    pub created_at: Millis,
}

pub struct CommentV {
    pub id: Id,
    pub task_id: Id,
    pub user_id: Id,
    pub body: Seq<char>,
    pub created_at: Millis,
}

/// What a server message means for the app.
#[derive(Debug, PartialEq, Eq)]
pub enum Incoming {
    /// A task changed on the server: pull.
    TaskChanged,
    /// A new comment.
    Comment(Comment),
    /// The channel failed or was closed by the server: reconnect and join again.
    Rejoin(String),
    Ignore,
}

pub enum IncomingV {
    TaskChanged,
    Comment(CommentV),
    Rejoin(Seq<char>),
    Ignore,
}

pub open spec fn incoming_view(i: Incoming) -> IncomingV {
    match i {
        Incoming::TaskChanged => IncomingV::TaskChanged,
        Incoming::Comment(c) => IncomingV::Comment(
            CommentV { id: c.id, task_id: c.task_id, user_id: c.user_id, body: c.body@, created_at: c.created_at },
        ),
        Incoming::Rejoin(s) => IncomingV::Rejoin(s@),
        Incoming::Ignore => IncomingV::Ignore,
    }
}

/// The string at `pointer` (when the value there is a string).
pub open spec fn string_at(text: Seq<char>, pointer: Seq<char>) -> Option<Seq<char>> {
    match spec_json_at(text, pointer) {
        JsonAtV::Found { string, .. } => string,
        _ => None,
    }
}

/// The JSON text of the value at `pointer` ("null" where there is none).
pub open spec fn json_text_at(text: Seq<char>, pointer: Seq<char>) -> Seq<char> {
    match spec_json_at(text, pointer) {
        JsonAtV::Found { json, .. } => json,
        _ => "null"@,
    }
}

/// The comment a record holds: every field there, the ids as UUIDs, the time as a timestamp.
pub open spec fn record_comment(text: Seq<char>) -> Option<CommentV> {
    let p = "/payload/data/record/"@;
    match (
        string_at(text, p + "id"@),
        string_at(text, p + "task_id"@),
        string_at(text, p + "user_id"@),
        string_at(text, p + "body"@),
        string_at(text, p + "created_at"@),
    ) {
        (Some(id), Some(task), Some(user), Some(body), Some(at)) => match (
            spec_parse_uuid(id),
            spec_parse_uuid(task),
            spec_parse_uuid(user),
            spec_parse_timestamp(at),
        ) {
            (Some(id), Some(task_id), Some(user_id), Some(created_at)) => Some(
                CommentV { id, task_id, user_id, body, created_at },
            ),
            _ => None,
        },
        _ => None,
    }
}

/// What a server message means: task changes on the app's channel ask for a pull, new comments
/// are read, a rejected join, a channel error or a closed channel ask to rejoin; the rest
/// (heartbeat replies, other channels, anything that is not JSON) is ignored.
pub open spec fn spec_parse(text: Seq<char>) -> IncomingV {
    if string_at(text, "/topic"@) != Some("realtime:odak"@) {
        IncomingV::Ignore
    } else {
        let event = match string_at(text, "/event"@) {
            Some(e) => e,
            None => seq![],
        };
        let status_error = string_at(text, "/payload/status"@) == Some("error"@);
        if event == "postgres_changes"@ {
            if string_at(text, "/payload/data/table"@) == Some("tasks"@) {
                IncomingV::TaskChanged
            } else if string_at(text, "/payload/data/table"@) == Some("task_comments"@) && string_at(
                text,
                "/payload/data/type"@,
            ) == Some("INSERT"@) {
                match record_comment(text) {
                    Some(c) => IncomingV::Comment(c),
                    None => IncomingV::Ignore,
                }
            } else {
                IncomingV::Ignore
            }
        } else if event == "phx_reply"@ && status_error {
            IncomingV::Rejoin("join rejected: "@ + json_text_at(text, "/payload/response"@))
        } else if event == "system"@ && status_error {
            IncomingV::Rejoin("channel error: "@ + json_text_at(text, "/payload/message"@))
        } else if event == "phx_error"@ || event == "phx_close"@ {
            IncomingV::Rejoin("channel "@ + json_text_at(text, "/event"@))
        } else {
            IncomingV::Ignore
        }
    }
}

fn string_at_exec(text: &str, pointer: &str) -> (r: Option<String>)
    ensures
        match r {
            Some(s) => string_at(text@, pointer@) == Some(s@),
            None => string_at(text@, pointer@) is None,
        },
{
    match json_at(text, pointer) {
        JsonAt::Found { string, .. } => string,
        _ => None,
    }
}

fn json_text_exec(text: &str, pointer: &str) -> (r: String)
    ensures
        r@ == json_text_at(text@, pointer@),
{
    match json_at(text, pointer) {
        JsonAt::Found { json, .. } => json,
        _ => "null".to_string(),
    }
}

/// `s` is the string `lit`.
fn holds(s: &Option<String>, lit: &str) -> (r: bool)
    ensures
        r == (match s {
            Some(x) => x@ == lit@,
            None => false,
        }),
{
    match s {
        Some(x) => str_eq(x.as_str(), lit),
        None => false,
    }
}

fn comment_of(text: &str) -> (r: Option<Comment>)
    ensures
        match r {
            Some(c) => record_comment(text@) == Some(
                CommentV { id: c.id, task_id: c.task_id, user_id: c.user_id, body: c.body@, created_at: c.created_at },
            ),
            None => record_comment(text@) is None,
        },
{
    proof {
        reveal_strlit("/payload/data/record/id");
        reveal_strlit("/payload/data/record/task_id");
        reveal_strlit("/payload/data/record/user_id");
        reveal_strlit("/payload/data/record/body");
        reveal_strlit("/payload/data/record/created_at");
        reveal_strlit("/payload/data/record/");
        reveal_strlit("id");
        reveal_strlit("task_id");
        reveal_strlit("user_id");
        reveal_strlit("body");
        reveal_strlit("created_at");
        assert("/payload/data/record/id"@ =~= "/payload/data/record/"@ + "id"@);
        assert("/payload/data/record/task_id"@ =~= "/payload/data/record/"@ + "task_id"@);
        assert("/payload/data/record/user_id"@ =~= "/payload/data/record/"@ + "user_id"@);
        assert("/payload/data/record/body"@ =~= "/payload/data/record/"@ + "body"@);
        assert("/payload/data/record/created_at"@ =~= "/payload/data/record/"@ + "created_at"@);
    }
    let id = string_at_exec(text, "/payload/data/record/id");
    let task = string_at_exec(text, "/payload/data/record/task_id");
    let user = string_at_exec(text, "/payload/data/record/user_id");
    let body = string_at_exec(text, "/payload/data/record/body");
    let at = string_at_exec(text, "/payload/data/record/created_at");
    match (id, task, user, body, at) {
        (Some(id), Some(task), Some(user), Some(body), Some(at)) => {
            match (parse_uuid(id.as_str()), parse_uuid(task.as_str()), parse_uuid(user.as_str()), parse_timestamp(at.as_str())) {
                (Some(id), Some(task_id), Some(user_id), Some(created_at)) => Some(
                    Comment { id, task_id, user_id, body, created_at },
                ),
                _ => None,
            }
        },
        _ => None,
    }
}

/// Reads one server message.
pub fn parse(text: &str) -> (r: Incoming)
    ensures
        incoming_view(r) == spec_parse(text@),
{
    proof {
        reveal_strlit("realtime:odak");
        reveal_strlit("error");
        reveal_strlit("postgres_changes");
        reveal_strlit("tasks");
        reveal_strlit("task_comments");
        reveal_strlit("INSERT");
        reveal_strlit("phx_reply");
        reveal_strlit("system");
        reveal_strlit("phx_error");
        reveal_strlit("phx_close");
    }
    let topic = string_at_exec(text, "/topic");
    if !holds(&topic, TOPIC) {
        return Incoming::Ignore;
    }
    let event = match string_at_exec(text, "/event") {
        Some(e) => e,
        None => String::new(),
    };
    let status = string_at_exec(text, "/payload/status");
    let status_error = holds(&status, "error");
    if str_eq(event.as_str(), "postgres_changes") {
        let table = string_at_exec(text, "/payload/data/table");
        if holds(&table, "tasks") {
            Incoming::TaskChanged
        } else if holds(&table, "task_comments") && holds(&string_at_exec(text, "/payload/data/type"), "INSERT") {
            match comment_of(text) {
                Some(c) => Incoming::Comment(c),
                None => Incoming::Ignore,
            }
        } else {
            Incoming::Ignore
        }
    } else if str_eq(event.as_str(), "phx_reply") && status_error {
        let mut m = "join rejected: ".to_string();
        let response = json_text_exec(text, "/payload/response");
        m.append(response.as_str());
        Incoming::Rejoin(m)
    } else if str_eq(event.as_str(), "system") && status_error {
        let mut m = "channel error: ".to_string();
        let message = json_text_exec(text, "/payload/message");
        m.append(message.as_str());
        Incoming::Rejoin(m)
    } else if str_eq(event.as_str(), "phx_error") || str_eq(event.as_str(), "phx_close") {
        let mut m = "channel ".to_string();
        let e = json_text_exec(text, "/event");
        m.append(e.as_str());
        Incoming::Rejoin(m)
    } else {
        Incoming::Ignore
    }
}

/// A lowercase hexadecimal digit.
pub open spec fn hex_digit(v: int) -> char {
    if v < 10 {
        ((v + 48) as u32) as char
    } else {
        ((v + 87) as u32) as char
    }
}

/// How serde_json writes one character inside a string: `"` and `\` behind a backslash; the
/// control characters backspace, tab, line feed, form feed and carriage return as `\b`, `\t`,
/// `\n`, `\f`, `\r`; the other characters below U+0020 as `\u00` and two lowercase hex
/// digits; every other character as it is.
pub open spec fn json_escaped_char(c: char) -> Seq<char> {
    let v = c as int;
    if c == '"' {
        seq!['\\', '"']
    } else if c == '\\' {
        seq!['\\', '\\']
    } else if v == 8 {
        seq!['\\', 'b']
    } else if v == 9 {
        seq!['\\', 't']
    } else if v == 10 {
        seq!['\\', 'n']
    } else if v == 12 {
        seq!['\\', 'f']
    } else if v == 13 {
        seq!['\\', 'r']
    } else if v < 32 {
        seq!['\\', 'u', '0', '0', hex_digit(v / 16), hex_digit(v % 16)]
    } else {
        seq![c]
    }
}

pub open spec fn json_escaped(s: Seq<char>) -> Seq<char>
    decreases s.len(),
{
    if s.len() == 0 {
        Seq::empty()
    } else {
        json_escaped(s.drop_last()) + json_escaped_char(s.last())
    }
}

/// The JSON text of a string, as serde_json writes it: quoted, each character escaped as
/// `json_escaped_char` says.
pub open spec fn spec_json_string(s: Seq<char>) -> Seq<char> {
    seq!['"'] + json_escaped(s) + seq!['"']
}

/// serde_json's `to_string` of a `&str`: the string quoted, with `"`, `\` and control characters
/// escaped.
#[verifier::external_body]
fn json_string(s: &str) -> (r: String)
    ensures
        r@ == spec_json_string(s@),
{
    serde_json::to_string(s).unwrap_or_default()
}

/// The join message: subscribes to every change of `tasks` and to new rows of `task_comments`,
/// with the user's access token.
pub open spec fn spec_join(token: Seq<char>) -> Seq<char> {
    "{\"topic\":\"realtime:odak\",\"event\":\"phx_join\",\"ref\":\"1\",\"join_ref\":\"1\",\"payload\":{\"config\":{\"broadcast\":{\"ack\":false,\"self\":false},\"presence\":{\"enabled\":false},\"private\":false,\"postgres_changes\":[{\"event\":\"*\",\"schema\":\"public\",\"table\":\"tasks\"},{\"event\":\"INSERT\",\"schema\":\"public\",\"table\":\"task_comments\"}]},\"access_token\":"@
        + spec_json_string(token) + "}}"@
}

/// The join message for the user's access token.
pub fn join(token: &str) -> (r: String)
    ensures
        r@ == spec_join(token@),
{
    let mut m = "{\"topic\":\"realtime:odak\",\"event\":\"phx_join\",\"ref\":\"1\",\"join_ref\":\"1\",\"payload\":{\"config\":{\"broadcast\":{\"ack\":false,\"self\":false},\"presence\":{\"enabled\":false},\"private\":false,\"postgres_changes\":[{\"event\":\"*\",\"schema\":\"public\",\"table\":\"tasks\"},{\"event\":\"INSERT\",\"schema\":\"public\",\"table\":\"task_comments\"}]},\"access_token\":".to_string();
    let quoted = json_string(token);
    m.append(quoted.as_str());
    m.append("}}");
    m
}

/// The message that hands the channel a fresh access token.
pub fn access_token_message(token: &str, reference: u64) -> (r: String)
    ensures
        r@ == "{\"topic\":\"realtime:odak\",\"event\":\"access_token\",\"ref\":\""@ + spec_decimal(reference as nat)
            + "\",\"payload\":{\"access_token\":"@ + spec_json_string(token@) + "}}"@,
{
    let mut m = "{\"topic\":\"realtime:odak\",\"event\":\"access_token\",\"ref\":\"".to_string();
    let r = decimal(reference);
    m.append(r.as_str());
    m.append("\",\"payload\":{\"access_token\":");
    let quoted = json_string(token);
    m.append(quoted.as_str());
    m.append("}}");
    m
}

/// The heartbeat the socket sends every 25 seconds.
pub fn heartbeat(reference: u64) -> (r: String)
    ensures
        r@ == "{\"topic\":\"phoenix\",\"event\":\"heartbeat\",\"ref\":\""@ + spec_decimal(reference as nat)
            + "\",\"payload\":{}}"@,
{
    let mut m = "{\"topic\":\"phoenix\",\"event\":\"heartbeat\",\"ref\":\"".to_string();
    let r = decimal(reference);
    m.append(r.as_str());
    m.append("\",\"payload\":{}}");
    m
}

} // verus!
