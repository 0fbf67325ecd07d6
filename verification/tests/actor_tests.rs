use nostr_proxy::config::{Network, Settings, Sources};
use nostr_proxy::frame::WsFrame;
use nostr_proxy::messages::{new_uuid_v4, ClientMessage, WsMessage};
use nostr_proxy::proxy::Proxy;
use nostr_proxy::proxy_connection::{ClientFrame, CloseReason, ConnAction, ProxyConnection};
use nostr_proxy::relay_client::RelayClient;
use nostr_proxy::server::InputWebsocket;

fn is_v4(u: u128) -> bool {
    u & 0xF000_C000_0000_0000_0000 == 0x4000_8000_0000_0000_0000
}

#[test]
fn uuids_are_version_4() {
    let a = new_uuid_v4();
    let b = new_uuid_v4();
    assert!(is_v4(a) && is_v4(b));
    assert_ne!(a, b);
}

#[test]
fn relay_client_queue() {
    let mut r = RelayClient::new("ws://relay".to_string());
    assert_eq!(r.relay_addr, "ws://relay");
    assert!(is_v4(r.uuid));
    r.schedule_request(ClientMessage { id: 1, msg: "a".to_string() });
    r.schedule_request(ClientMessage { id: 2, msg: "b".to_string() });
    assert_eq!(r.process_msg_queue(), vec!["a".to_string(), "b".to_string()]);
    assert!(r.req_msg_queue.is_empty());
    assert!(r.process_msg_queue().is_empty());
}

#[test]
fn relay_client_answers_ping() {
    let a = RelayClient::connection_next(&WsFrame::Ping(vec![1]));
    assert!(matches!(a, Some(WsFrame::Pong(d)) if d.is_empty()));
    assert!(RelayClient::connection_next(&WsFrame::Text("x".to_string())).is_none());
    assert!(RelayClient::connection_next(&WsFrame::Pong(vec![])).is_none());
}

#[test]
fn proxy_hands_messages_to_every_relay() {
    let settings = Settings {
        network: Network { port: 1, address: "x".to_string() },
        sources: Sources { relays: vec!["ws://a".to_string(), "ws://b".to_string()] },
    };
    let mut p = Proxy::new(&settings);
    assert_eq!(p.relays.len(), 2);
    assert_eq!(p.relays[1].relay_addr, "ws://b");
    assert!(p.relays.iter().all(|r| is_v4(r.uuid)));
    assert!(p.handle_client_message(ClientMessage { id: 9, msg: "hello".to_string() }));
    for r in p.relays.iter_mut() {
        assert_eq!(r.process_msg_queue(), vec!["hello".to_string()]);
    }
}

#[test]
fn proxy_connection_heartbeat() {
    let c = ProxyConnection::new(1_000);
    assert!(is_v4(c.id));
    let a = c.hb(10_000_001_000);
    assert!(matches!(&a[..], [ConnAction::Ping(p)] if p == b"PING"));
    let a = c.hb(10_000_001_001);
    assert!(matches!(&a[..], [ConnAction::Disconnect(d), ConnAction::Stop] if d.id == c.id));
    assert_eq!(c.stopping().id, c.id);
    assert_eq!(c.started().self_id, c.id);
}

#[test]
fn proxy_connection_handles_messages() {
    let mut c = ProxyConnection::new(0);
    let a = c.handle(ClientFrame::Ping(vec![4]), 50);
    assert!(matches!(&a[..], [ConnAction::Pong(p)] if p == &vec![4]));
    assert_eq!(c.hb, 50);
    assert!(c.handle(ClientFrame::Pong(vec![]), 70).is_empty());
    assert_eq!(c.hb, 70);
    let a = c.handle(ClientFrame::Text("hey".to_string()), 80);
    assert!(matches!(&a[..], [ConnAction::ToProxy(m)] if m.id == c.id && m.msg == "hey"));
    assert_eq!(c.hb, 70);
    let a = c.handle(ClientFrame::Binary(vec![1]), 90);
    assert!(matches!(&a[..], [ConnAction::Binary(b)] if b == &vec![1]));
    let a = c.handle(ClientFrame::Close(Some(CloseReason { code: 1000, description: None })), 90);
    assert!(matches!(&a[..], [ConnAction::Close(Some(r)), ConnAction::Stop] if r.code == 1000));
    assert!(matches!(&c.handle(ClientFrame::Continuation, 90)[..], [ConnAction::Stop]));
    assert!(c.handle(ClientFrame::Nop, 90).is_empty());
    assert!(matches!(c.handle_ws_message(WsMessage("out".to_string())), ConnAction::Text(t) if t == "out"));
}

#[test]
fn input_websocket_echoes() {
    let ws = InputWebsocket { relays: None };
    assert!(matches!(ws.handle(ClientFrame::Ping(vec![1])), Some(ConnAction::Pong(d)) if d == vec![1]));
    assert!(matches!(ws.handle(ClientFrame::Text("t".to_string())), Some(ConnAction::Text(t)) if t == "t"));
    assert!(matches!(ws.handle(ClientFrame::Binary(vec![2])), Some(ConnAction::Binary(b)) if b == vec![2]));
    assert!(ws.handle(ClientFrame::Pong(vec![])).is_none());
    assert!(ws.handle(ClientFrame::Nop).is_none());
}
