use nostr_proxy::connection::{Action, Connection, Input, Phase, ProxyError};
use nostr_proxy::event::SignedEvent;
use nostr_proxy::frame::{CloseFrame, WsFrame};
use nostr_proxy::json::{parse_json_array, JsonItem};

fn hex(b: &[u8]) -> String {
    b.iter().map(|x| format!("{:02x}", x)).collect()
}

fn note(id_byte: u8, kind: u16) -> SignedEvent {
    let mut id = [0u8; 32];
    id[31] = id_byte;
    SignedEvent {
        id,
        pubkey: [7u8; 32],
        created_at: 1000,
        kind,
        tags: vec![],
        content: "hi".to_string(),
        sig: [9u8; 64],
    }
}

fn json_of(e: &SignedEvent) -> String {
    let tags: Vec<String> = e
        .tags
        .iter()
        .map(|t| format!("[{}]", t.iter().map(|s| format!("\"{}\"", s)).collect::<Vec<_>>().join(",")))
        .collect();
    format!(
        r#"{{"id":"{}","pubkey":"{}","created_at":{},"kind":{},"tags":[{}],"content":"{}","sig":"{}"}}"#,
        hex(&e.id),
        hex(&e.pubkey),
        e.created_at,
        e.kind,
        tags.join(","),
        e.content,
        hex(&e.sig)
    )
}

fn client(text: &str) -> Input {
    Input::Client(WsFrame::Text(text.to_string()))
}

fn event_command(e: &SignedEvent) -> String {
    format!(r#"["EVENT",{}]"#, json_of(e))
}

fn ok_text(e: &SignedEvent, status: bool, msg: &str) -> String {
    format!(r#"["OK","{}",{},"{}"]"#, hex(&e.id), status, msg)
}

fn sent_text(a: &Action) -> &str {
    match a {
        Action::Send(WsFrame::Text(t)) => t.as_str(),
        _ => panic!("not a text send"),
    }
}

fn rejected(actions: &[Action], message: &str) -> bool {
    actions.len() == 1
        && matches!(&actions[0], Action::Finish(Err(ProxyError::ValidationError(m))) if m == message)
}

#[test]
fn new_connection_is_ready() {
    let c = Connection::new(vec!["ws://relay".to_string()]);
    assert!(matches!(c.phase, Phase::Ready));
    assert_eq!(c.relay_urls, vec!["ws://relay".to_string()]);
}

#[test]
fn ping_is_answered_with_pong() {
    let mut c = Connection::new(vec![]);
    let a = c.step(Input::Client(WsFrame::Ping(vec![1, 2, 3])));
    assert_eq!(a.len(), 1);
    assert!(matches!(&a[0], Action::Send(WsFrame::Pong(d)) if d == &vec![1, 2, 3]));
    assert!(matches!(c.phase, Phase::Ready));
}

#[test]
fn close_is_echoed_and_ends() {
    let mut c = Connection::new(vec![]);
    let frame = CloseFrame { code: 1000, reason: "bye".to_string() };
    let a = c.step(Input::Client(WsFrame::Close(Some(frame))));
    assert_eq!(a.len(), 2);
    assert!(matches!(&a[0], Action::Send(WsFrame::Close(Some(f))) if f.code == 1000 && f.reason == "bye"));
    assert!(matches!(&a[1], Action::Finish(Ok(()))));
    assert!(matches!(c.phase, Phase::Finished));
    // nothing more happens
    assert!(c.step(client(r#"["CLOSE","s"]"#)).is_empty());
}

#[test]
fn ignored_messages() {
    let mut c = Connection::new(vec![]);
    assert!(c.step(Input::Client(WsFrame::Pong(vec![1]))).is_empty());
    assert!(c.step(Input::Client(WsFrame::Binary(vec![1]))).is_empty());
    assert!(c.step(Input::Client(WsFrame::Frame(vec![1]))).is_empty());
    assert!(c.step(client("not json")).is_empty());
    assert!(c.step(client(r#"{"EVENT":1}"#)).is_empty());
    assert!(c.step(client(r#"["AUTH","x"]"#)).is_empty());
    assert!(c.step(client(r#"["CLOSE","sub"]"#)).is_empty());
    assert!(matches!(c.phase, Phase::Ready));
    // inputs the connection does not wait for change nothing
    assert!(c.step(Input::RelayReply(None)).is_empty());
    assert!(c.step(Input::Sent(None)).is_empty());
    assert!(matches!(c.phase, Phase::Ready));
}

#[test]
fn invalid_commands_end_the_connection() {
    let cases: Vec<(&str, &str)> = vec![
        ("[]", "Invalid command format"),
        ("[1, 2]", "Invalid command format"),
        (r#"["EVENT"]"#, "Invalid EVENT command"),
        (r#"["EVENT", {"id": "00"}]"#, "Invalid event format"),
        (r#"["REQ", "s"]"#, "REQ command requires at least 3 elements"),
        (r#"["REQ", 5, {}]"#, "Subscription ID must be a string"),
        (r#"["REQ", "s", 1, "x"]"#, "No valid filters found in REQ command"),
        (r#"["CLOSE"]"#, "Invalid CLOSE command"),
        (r#"["CLOSE", 3]"#, "Subscription ID must be a string"),
    ];
    for (text, message) in cases {
        let mut c = Connection::new(vec![]);
        let a = c.step(client(text));
        assert!(rejected(&a, message), "{} should be rejected with {}", text, message);
        assert!(matches!(c.phase, Phase::Finished));
    }
}

#[test]
fn new_event_is_cached_and_forwarded() {
    let mut c = Connection::new(vec![]);
    let e = note(1, 1);
    let a = c.step(client(&event_command(&e)));
    assert_eq!(a.len(), 1);
    assert!(matches!(&a[0], Action::ForwardEvent(j) if j == &event_command(&e)));
    assert!(matches!(c.phase, Phase::AwaitingReply(id) if id == e.id));
    assert!(c.cache.get(&e.id).is_some());
    // no relay answered in time
    let a = c.step(Input::RelayReply(None));
    assert_eq!(a.len(), 1);
    assert_eq!(sent_text(&a[0]), ok_text(&e, true, ""));
    assert!(matches!(c.phase, Phase::Ready));
}

#[test]
fn resubmitted_event_is_duplicate() {
    let mut c = Connection::new(vec!["ws://r1".to_string()]);
    let e = note(2, 30023);
    c.step(client(&event_command(&e)));
    c.step(Input::RelayReply(None));
    let a = c.step(client(&event_command(&e)));
    assert_eq!(a.len(), 1);
    assert_eq!(sent_text(&a[0]), ok_text(&e, true, "duplicate: event already known"));
    assert!(matches!(c.phase, Phase::Ready));
    assert_eq!(c.relay_urls, vec!["ws://r1".to_string()]);
}

#[test]
fn uncacheable_event_is_forwarded_again() {
    let mut c = Connection::new(vec![]);
    let e = note(3, 4);
    c.step(client(&event_command(&e)));
    assert!(c.cache.get(&e.id).is_none());
    c.step(Input::RelayReply(None));
    let a = c.step(client(&event_command(&e)));
    assert!(matches!(&a[0], Action::ForwardEvent(_)));
}

#[test]
fn relay_reply_event_is_cached_and_passed_on() {
    let mut c = Connection::new(vec![]);
    let e = note(1, 1);
    let reply = note(5, 0);
    c.step(client(&event_command(&e)));
    let a = c.step(Input::RelayReply(Some(WsFrame::Text(json_of(&reply)))));
    assert_eq!(a.len(), 1);
    assert!(matches!(&a[0], Action::SendReport(WsFrame::Text(t)) if t == &json_of(&reply)));
    assert!(matches!(c.phase, Phase::AwaitingSent(id) if id == e.id));
    assert!(c.cache.get(&reply.id).is_some());
    let a = c.step(Input::Sent(None));
    assert_eq!(sent_text(&a[0]), ok_text(&e, true, ""));
    assert!(matches!(c.phase, Phase::Ready));
}

#[test]
fn failed_pass_on_gives_negative_ok() {
    let mut c = Connection::new(vec![]);
    let e = note(1, 1);
    c.step(client(&event_command(&e)));
    c.step(Input::RelayReply(Some(WsFrame::Binary(json_of(&note(6, 1)).into_bytes()))));
    let a = c.step(Input::Sent(Some("broken pipe".to_string())));
    assert_eq!(sent_text(&a[0]), ok_text(&e, false, "WebSocket error: broken pipe"));
}

#[test]
fn non_event_reply_gives_ok() {
    let mut c = Connection::new(vec![]);
    let e = note(1, 1);
    c.step(client(&event_command(&e)));
    let a = c.step(Input::RelayReply(Some(WsFrame::Text(r#"["NOTICE","x"]"#.to_string()))));
    assert_eq!(sent_text(&a[0]), ok_text(&e, true, ""));
    assert!(matches!(c.phase, Phase::Ready));
}

#[test]
fn req_serves_cache_then_forwards() {
    let mut c = Connection::new(vec![]);
    let e1 = note(1, 1);
    let e2 = note(2, 0);
    c.step(client(&event_command(&e1)));
    c.step(Input::RelayReply(None));
    c.step(client(&event_command(&e2)));
    c.step(Input::RelayReply(None));
    let a = c.step(client(r#"["REQ","sub",{"kinds":[1]},"bad",{"kinds":[0,1],"limit":1}]"#));
    assert_eq!(a.len(), 4);
    assert_eq!(sent_text(&a[0]), format!(r#"["EVENT","sub",{}]"#, json_of(&e1)));
    assert_eq!(sent_text(&a[1]), format!(r#"["EVENT","sub",{}]"#, json_of(&e2)));
    assert!(matches!(&a[2], Action::ForwardReq(t) if t == r#"["REQ","sub",{"kinds":[1]}]"#));
    assert!(matches!(&a[3], Action::ForwardReq(t) if t == r#"["REQ","sub",{"kinds":[0,1],"limit":1}]"#));
    assert!(matches!(c.phase, Phase::Ready));
}

#[test]
fn client_end_and_errors_finish() {
    let mut c = Connection::new(vec![]);
    let a = c.step(Input::ClientEnded);
    assert!(matches!(&a[..], [Action::Finish(Ok(()))]));
    assert!(c.step(Input::ClientEnded).is_empty());

    let mut c = Connection::new(vec![]);
    let a = c.step(Input::ClientError("reset".to_string()));
    assert!(matches!(&a[..], [Action::Finish(Err(ProxyError::WsError(e)))] if e == "reset"));

    let mut c = Connection::new(vec![]);
    let a = c.step(Input::SendFailed("gone".to_string()));
    assert!(matches!(&a[..], [Action::Finish(Err(ProxyError::WsError(e)))] if e == "gone"));
    assert!(matches!(c.phase, Phase::Finished));
}

#[test]
fn error_messages() {
    assert_eq!(ProxyError::WsError("x".to_string()).message(), "WebSocket error: x");
    assert_eq!(
        ProxyError::ValidationError("Invalid EVENT command".to_string()).message(),
        "Event validation failed: Invalid EVENT command"
    );
    assert_eq!(ProxyError::ConnectionClosed.message(), "Connection closed");
}

#[test]
fn relay_duplicate_is_not_passed_on() {
    let mut c = Connection::new(vec![]);
    let known = note(7, 1);
    c.step(client(&event_command(&known)));
    c.step(Input::RelayReply(None));
    let e = note(8, 1);
    c.step(client(&event_command(&e)));
    // the relay answers with an event the cache already holds
    let a = c.step(Input::RelayReply(Some(WsFrame::Text(json_of(&known)))));
    assert_eq!(a.len(), 1);
    assert_eq!(sent_text(&a[0]), ok_text(&e, true, ""));
    assert!(matches!(c.phase, Phase::Ready));
    assert!(c.cache.get(&known.id).is_some());
    assert!(c.cache.get(&e.id).is_some());
}

#[test]
fn forwarded_event_is_an_event_message() {
    let mut c = Connection::new(vec![]);
    let e = note(9, 4);
    let a = c.step(client(&event_command(&e)));
    assert!(matches!(&a[..], [Action::ForwardEvent(j)] if j.starts_with(r#"["EVENT",{"id":""#)));
}

#[test]
fn relay_copy_of_known_event_is_stored() {
    let mut c = Connection::new(vec![]);
    let e = note(5, 1);
    c.step(client(&event_command(&e)));
    // the relay answers with an event of the same id but other content
    let mut copy = note(5, 1);
    copy.content = "relay copy".to_string();
    let a = c.step(Input::RelayReply(Some(WsFrame::Text(json_of(&copy)))));
    assert_eq!(a.len(), 1);
    assert_eq!(sent_text(&a[0]), ok_text(&e, true, ""));
    assert_eq!(c.cache.get(&e.id).unwrap().content, "relay copy");
}

#[test]
fn process_response_directly() {
    let mut c = Connection::new(vec![]);
    let e = note(6, 1);
    let a = c.process_response(e.id, Some(WsFrame::Text(json_of(&e))));
    assert!(matches!(&a[..], [Action::SendReport(WsFrame::Text(t))] if t == &json_of(&e)));
    assert!(matches!(c.phase, Phase::AwaitingSent(id) if id == e.id));
    let a = c.process_response(e.id, None);
    assert_eq!(a.len(), 1);
    assert_eq!(sent_text(&a[0]), ok_text(&e, true, ""));
    assert!(matches!(c.phase, Phase::Ready));
}

#[test]
fn command_handlers_directly() {
    let mut c = Connection::new(vec![]);
    let e = note(3, 1);
    let items = parse_json_array(&event_command(&e)).unwrap();
    let a = c.handle_event_command(&items);
    assert!(matches!(&a[..], [Action::ForwardEvent(_)]));
    c.process_response(e.id, None);
    let a = c.handle_nostr_command(&items);
    assert_eq!(a.len(), 1);
    assert_eq!(sent_text(&a[0]), ok_text(&e, true, "duplicate: event already known"));
    let req = vec![
        JsonItem { text: "\"REQ\"".to_string(), string: Some("REQ".to_string()) },
        JsonItem { text: "\"s\"".to_string(), string: Some("s".to_string()) },
        JsonItem { text: "{}".to_string(), string: None },
    ];
    let a = c.handle_req_command(&req);
    assert_eq!(a.len(), 2);
    assert!(sent_text(&a[0]).starts_with(r#"["EVENT","s",{"#));
    assert!(matches!(&a[1], Action::ForwardReq(t) if t == r#"["REQ","s",{}]"#));
    let close = vec![JsonItem { text: "\"CLOSE\"".to_string(), string: Some("CLOSE".to_string()) }];
    let a = c.handle_close_command(&close);
    assert!(rejected(&a, "Invalid CLOSE command"));
}

#[test]
fn handle_message_ignores_unknown_command() {
    let mut c = Connection::new(vec![]);
    let a = c.handle_message(WsFrame::Text(r#"["AUTH","x"]"#.to_string()));
    assert!(a.is_empty());
    assert!(matches!(c.phase, Phase::Ready));
}
