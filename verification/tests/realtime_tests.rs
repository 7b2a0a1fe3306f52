use odak::realtime::{access_token_message, heartbeat, join, parse, Incoming, TOPIC};
use serde_json::Value;

fn change(table: &str, kind: &str, record: &str) -> String {
    format!(
        r#"{{"topic":"{TOPIC}","event":"postgres_changes","ref":null,"payload":{{"ids":[1],"data":{{"schema":"public","table":"{table}","type":"{kind}","record":{record},"old_record":{{}},"errors":null}}}}}}"#
    )
}

fn uuid(n: u128) -> String {
    uuid::Uuid::from_u128(n).to_string()
}

#[test]
fn task_changes_ask_for_a_pull() {
    let record = format!(r#"{{"id":"{}"}}"#, uuid(0));
    assert_eq!(parse(&change("tasks", "UPDATE", &record)), Incoming::TaskChanged);
    assert_eq!(parse(&change("tasks", "DELETE", "{}")), Incoming::TaskChanged);
}

#[test]
fn new_comments_are_read() {
    let record = format!(
        r#"{{"id":"{}","task_id":"{}","user_id":"{}","body":"Bakıyorum","created_at":"2026-09-23T10:00:00.123456+00:00"}}"#,
        uuid(1),
        uuid(2),
        uuid(3)
    );
    match parse(&change("task_comments", "INSERT", &record)) {
        Incoming::Comment(c) => assert_eq!((c.task_id, c.body.as_str()), (2, "Bakıyorum")),
        other => panic!("unexpected {other:?}"),
    }
    assert_eq!(parse(&change("task_comments", "INSERT", r#"{"id":5}"#)), Incoming::Ignore, "malformed record");
}

#[test]
fn channel_errors_rejoin_and_the_rest_is_ignored() {
    let reply = |status: &str| {
        format!(r#"{{"topic":"{TOPIC}","event":"phx_reply","ref":"1","payload":{{"status":"{status}","response":{{}}}}}}"#)
    };
    assert!(matches!(parse(&reply("error")), Incoming::Rejoin(_)));
    assert_eq!(parse(&reply("ok")), Incoming::Ignore);
    let system = format!(r#"{{"topic":"{TOPIC}","event":"system","payload":{{"status":"error","message":"token expired"}}}}"#);
    assert!(matches!(parse(&system), Incoming::Rejoin(_)));
    let closed = format!(r#"{{"topic":"{TOPIC}","event":"phx_close","payload":{{}}}}"#);
    assert!(matches!(parse(&closed), Incoming::Rejoin(_)));
    let heartbeat = r#"{"topic":"phoenix","event":"phx_reply","payload":{"status":"ok"}}"#;
    assert_eq!(parse(heartbeat), Incoming::Ignore);
    assert_eq!(parse("not json"), Incoming::Ignore);
}

#[test]
fn join_subscribes_with_the_users_token() {
    let message: Value = serde_json::from_str(&join("jwt")).unwrap();
    assert_eq!(message["event"], "phx_join");
    assert_eq!(message["payload"]["access_token"], "jwt");
    assert_eq!(message["payload"]["config"]["postgres_changes"].as_array().unwrap().len(), 2);
}

#[test]
fn rejoin_reasons_quote_the_server() {
    let closed = format!(r#"{{"topic":"{TOPIC}","event":"phx_close","payload":{{}}}}"#);
    assert_eq!(parse(&closed), Incoming::Rejoin("channel \"phx_close\"".to_string()));
    let system = format!(r#"{{"topic":"{TOPIC}","event":"system","payload":{{"status":"error","message":"token expired"}}}}"#);
    assert_eq!(parse(&system), Incoming::Rejoin("channel error: \"token expired\"".to_string()));
    let reply = format!(r#"{{"topic":"{TOPIC}","event":"phx_reply","payload":{{"status":"error"}}}}"#);
    assert_eq!(parse(&reply), Incoming::Rejoin("join rejected: null".to_string()));
}

#[test]
fn tokens_are_escaped_in_messages() {
    let message: Value = serde_json::from_str(&join("a\"b")).unwrap();
    assert_eq!(message["payload"]["access_token"], "a\"b");
    let refresh: Value = serde_json::from_str(&access_token_message("t2", 7)).unwrap();
    assert_eq!((refresh["event"].as_str(), refresh["ref"].as_str()), (Some("access_token"), Some("7")));
    assert_eq!(refresh["payload"]["access_token"], "t2");
    let beat: Value = serde_json::from_str(&heartbeat(12)).unwrap();
    assert_eq!((beat["topic"].as_str(), beat["event"].as_str(), beat["ref"].as_str()), (Some("phoenix"), Some("heartbeat"), Some("12")));
}

#[test]
fn tokens_are_written_with_json_escapes() {
    let message = access_token_message("a\"b\\c\nd\u{1}é", 3);
    assert!(message.contains(r#""access_token":"a\"b\\c\nd\u0001é""#), "{message}");
}
