use nostr_proxy::event::{
    event_message_json, event_submission_json, ok_message_json, req_message_json, EventFilter, SignedEvent,
};
use nostr_proxy::frame::{decode_utf8_bytes, CloseFrame, WsFrame};
use nostr_proxy::json::parse_json_array;

const SAMPLE: &str = r#"{"id":"2be17aa3031bdcb006f0fce80c146dea9c1c0268b0af2398bb673365c6444d45","pubkey":"f86c44a2de95d9149b51c6a29afeabba264c18e2fa7c49de93424a0c56947785","created_at":1640839235,"kind":4,"tags":[["p","13adc511de7e1cfcf1c6b7f6365fb5a03442d7bcacf565ea57fa7770912c023d"]],"content":"uRuvYr585B80L6rSJiHocw==?iv=oh6LVqdsYYol3JfFnXTbPA==","sig":"a5d9290ef9659083c490b303eb7ee41356d8778ff19f2f91776c8dc4443388a64ffcf336e61af4c25c05ac3ae952d1ced889ed655b67790891222aaa15b99fdd"}"#;

fn hex(b: &[u8]) -> String {
    b.iter().map(|x| format!("{:02x}", x)).collect()
}

fn json_of(e: &SignedEvent) -> String {
    let tags: Vec<String> = e
        .tags
        .iter()
        .map(|t| format!("[{}]", t.iter().map(|s| format!("\"{}\"", s)).collect::<Vec<_>>().join(",")))
        .collect();
    format!(
        r#"{{"id":"{}","pubkey":"{}","created_at":{},"kind":{},"tags":[{}],"content":"{}","sig":"{}"}}"#,
        hex(&e.id),
        hex(&e.pubkey),
        e.created_at,
        e.kind,
        tags.join(","),
        e.content,
        hex(&e.sig)
    )
}

fn note(id_byte: u8, kind: u16, created_at: u64) -> SignedEvent {
    let mut id = [0u8; 32];
    id[31] = id_byte;
    SignedEvent {
        id,
        pubkey: [7u8; 32],
        created_at,
        kind,
        tags: vec![vec!["t".to_string(), "nostr".to_string()]],
        content: "hello".to_string(),
        sig: [9u8; 64],
    }
}

#[test]
fn event_from_json_reads_fields() {
    let e = SignedEvent::from_json(SAMPLE).expect("sample parses");
    assert_eq!(hex(&e.id), "2be17aa3031bdcb006f0fce80c146dea9c1c0268b0af2398bb673365c6444d45");
    assert_eq!(hex(&e.pubkey), "f86c44a2de95d9149b51c6a29afeabba264c18e2fa7c49de93424a0c56947785");
    assert_eq!(e.created_at, 1640839235);
    assert_eq!(e.kind, 4);
    assert_eq!(e.tags, vec![vec![
        "p".to_string(),
        "13adc511de7e1cfcf1c6b7f6365fb5a03442d7bcacf565ea57fa7770912c023d".to_string(),
    ]]);
    assert_eq!(e.content, "uRuvYr585B80L6rSJiHocw==?iv=oh6LVqdsYYol3JfFnXTbPA==");
}

#[test]
fn event_submission_is_event_message() {
    let e = SignedEvent::from_json(SAMPLE).unwrap();
    assert_eq!(event_submission_json(&e), format!(r#"["EVENT",{}]"#, SAMPLE));
}

#[test]
fn event_from_json_rejects_bad_input() {
    assert!(SignedEvent::from_json("not json").is_none());
    assert!(SignedEvent::from_json(r#"{"id":"00"}"#).is_none());
    assert!(SignedEvent::from_json(r#""a string""#).is_none());
}

#[test]
fn event_roundtrips_through_json() {
    let e = note(1, 1, 100);
    let back = SignedEvent::from_json(&json_of(&e)).unwrap();
    assert_eq!(back.id, e.id);
    assert_eq!(back.tags, e.tags);
    assert_eq!(back.content, e.content);
    assert_eq!(back.sig, e.sig);
}

#[test]
fn event_clone_keeps_fields() {
    let e = note(3, 30023, 5);
    let c = e.clone();
    assert_eq!(c.id, e.id);
    assert_eq!(c.kind, e.kind);
    assert_eq!(c.tags, e.tags);
    assert_eq!(c.content, e.content);
}

#[test]
fn filter_from_json_reads_fields() {
    let f = EventFilter::from_json(r##"{"kinds":[1,0],"limit":2,"since":10,"#t":["nostr"]}"##).unwrap();
    assert_eq!(f.kinds, Some(vec![0, 1]));
    assert_eq!(f.limit, Some(2));
    assert_eq!(f.since, Some(10));
    assert_eq!(f.until, None);
    assert_eq!(f.generic_tags, vec![('t', vec!["nostr".to_string()])]);
    assert!(EventFilter::from_json("[1]").is_none());
}

#[test]
fn filter_matches_events() {
    let e = note(1, 1, 100);
    let f = EventFilter::from_json(r#"{"kinds":[1]}"#).unwrap();
    assert!(f.match_event(&e));
    let f = EventFilter::from_json(r#"{"kinds":[2]}"#).unwrap();
    assert!(!f.match_event(&e));
    let f = EventFilter::from_json(r#"{"since":101}"#).unwrap();
    assert!(!f.match_event(&e));
    let f = EventFilter::from_json(r##"{"#t":["nostr"]}"##).unwrap();
    assert!(f.match_event(&e));
    let f = EventFilter::from_json(r##"{"#t":["other"]}"##).unwrap();
    assert!(!f.match_event(&e));
}

#[test]
fn ok_message_text() {
    let e = note(1, 1, 100);
    assert_eq!(
        ok_message_json(&e.id, true, "duplicate: event already known"),
        format!(r#"["OK","{}",true,"duplicate: event already known"]"#, hex(&e.id))
    );
    assert_eq!(ok_message_json(&e.id, false, ""), format!(r#"["OK","{}",false,""]"#, hex(&e.id)));
}

#[test]
fn event_message_text() {
    let e = note(1, 1, 100);
    assert_eq!(event_message_json("sub1", &e), format!(r#"["EVENT","sub1",{}]"#, json_of(&e)));
}

#[test]
fn req_message_text() {
    let f = EventFilter::from_json(r#"{"kinds":[1]}"#).unwrap();
    assert_eq!(req_message_json("sub1", &f), r#"["REQ","sub1",{"kinds":[1]}]"#);
}

#[test]
fn json_array_items() {
    let items = parse_json_array(r#"["EVENT", {"a": 1}, "x", 3]"#).unwrap();
    assert_eq!(items.len(), 4);
    assert_eq!(items[0].text, r#""EVENT""#);
    assert_eq!(items[0].string.as_deref(), Some("EVENT"));
    assert_eq!(items[1].text, r#"{"a":1}"#);
    assert_eq!(items[1].string, None);
    assert_eq!(items[2].string.as_deref(), Some("x"));
    assert_eq!(items[3].text, "3");
    assert!(parse_json_array(r#"{"a":1}"#).is_none());
    assert!(parse_json_array("[1,").is_none());
    assert_eq!(parse_json_array("[]").unwrap().len(), 0);
}

#[test]
fn frame_text_of_each_kind() {
    assert_eq!(WsFrame::Text("hi".to_string()).to_text(), Some("hi".to_string()));
    assert_eq!(WsFrame::Binary(b"abc".to_vec()).to_text(), Some("abc".to_string()));
    assert_eq!(WsFrame::Binary(vec![0xff, 0xfe]).to_text(), None);
    assert_eq!(WsFrame::Ping("é".as_bytes().to_vec()).to_text(), Some("é".to_string()));
    assert_eq!(WsFrame::Close(None).to_text(), Some(String::new()));
    let close = WsFrame::Close(Some(CloseFrame { code: 1000, reason: "bye".to_string() }));
    assert_eq!(close.to_text(), Some("bye".to_string()));
    assert_eq!(decode_utf8_bytes(&[0x61, 0x62]), Some("ab".to_string()));
    assert_eq!(decode_utf8_bytes(&[0xc0]), None);
}

#[test]
fn filter_search_and_lists() {
    let e = note(1, 1, 100);
    let f = EventFilter::from_json(r#"{"search":"HEL"}"#).unwrap();
    assert!(f.match_event(&e));
    let f = EventFilter::from_json(r#"{"search":"help"}"#).unwrap();
    assert!(!f.match_event(&e));
    let f = EventFilter::from_json(r#"{"search":""}"#).unwrap();
    assert!(f.match_event(&e));
    let f = EventFilter::from_json(r#"{"ids":[]}"#).unwrap();
    assert!(f.match_event(&e));
    let f = EventFilter::from_json(&format!(r#"{{"ids":["{}"],"until":100}}"#, hex(&e.id))).unwrap();
    assert!(f.match_event(&e));
    let f = EventFilter::from_json(&format!(r#"{{"authors":["{}"]}}"#, hex(&[8u8; 32]))).unwrap();
    assert!(!f.match_event(&e));
}
