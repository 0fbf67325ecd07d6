//! A client connection of the actor-based proxy: its heartbeat and how it
//! answers the messages its WebSocket receives.

use vstd::prelude::*;
use crate::messages::{ClientMessage, Disconnect, WsMessage, new_uuid_v4, is_random_uuid};

verus! {

/// How often the connection pings its client, in nanoseconds.
pub const HEARTBEAT_INTERVAL_NS: u64 = 5_000_000_000;
/// How long the client may stay silent before it is dropped, in nanoseconds.
pub const CLIENT_INTERVAL_NS: u64 = 10_000_000_000;

/// The reason given with a WebSocket close.
pub struct CloseReason {
    pub code: u16,
    pub description: Option<String>,
}

/// A message on the client's WebSocket, as the actor receives it.
pub enum ClientFrame {
    Text(String),
    Binary(Vec<u8>),
    Continuation,
    Ping(Vec<u8>),
    Pong(Vec<u8>),
    Close(Option<CloseReason>),
    Nop,
}

/// What the connection does in answer.
pub enum ConnAction {
    /// Send a ping with this payload.
    Ping(Vec<u8>),
    /// Send a pong with this payload.
    Pong(Vec<u8>),
    /// Send this binary payload.
    Binary(Vec<u8>),
    /// Send this text.
    Text(String),
    /// Close the WebSocket with this reason.
    Close(Option<CloseReason>),
    /// Hand this message to the proxy.
    ToProxy(ClientMessage),
    /// Tell the proxy the connection ends.
    Disconnect(Disconnect),
    /// Stop the connection.
    Stop,
}

pub struct ProxyConnection {
    pub id: u128,
    /// When the client was last heard from, in nanoseconds.
    pub hb: u64,
}

/// Whether the client has been silent too long at time `now`.
pub open spec fn heartbeat_expired(hb: u64, now: u64) -> bool {
    now > hb && now - hb > CLIENT_INTERVAL_NS
}

/// A client is dropped exactly when more than ten seconds have passed since it
/// was last heard from, whenever that was (a time of zero included); a time
/// after `now` counts as no time passed.
pub proof fn law_heartbeat_expiry(hb: u64, now: u64)
    ensures
        heartbeat_expired(hb, now) <==> now - hb > 10_000_000_000,
        heartbeat_expired(hb, now) ==> now - hb >= 10_000_000_001,
{
}

impl ProxyConnection {
    /// A new connection with a fresh random id, last heard from at `now`.
    pub fn new(now: u64) -> (r: ProxyConnection)
        ensures
            is_random_uuid(r.id),
            r.hb == now,
    {
        ProxyConnection { id: new_uuid_v4(), hb: now }
    }

    /// The message that tells the proxy the connection has started.
    pub fn started(&self) -> (r: crate::messages::Connect)
        ensures
            r.self_id == self.id,
    {
        crate::messages::Connect { self_id: self.id }
    }

    /// The message that tells the proxy the connection is stopping.
    pub fn stopping(&self) -> (r: Disconnect)
        ensures
            r.id == self.id,
    {
        Disconnect { id: self.id }
    }

    /// The periodic heartbeat at time `now`: a client silent for longer than
    /// the client interval is disconnected; otherwise it is pinged.
    pub fn hb(&self, now: u64) -> (r: Vec<ConnAction>)
        ensures
            heartbeat_expired(self.hb, now) ==> r@.len() == 2 && r@[0] == ConnAction::Disconnect(
                Disconnect { id: self.id },
            ) && r@[1] is Stop,
            !heartbeat_expired(self.hb, now) ==> r@.len() == 1 && (r@[0] matches ConnAction::Ping(p)
                && p@ == seq![80u8, 73u8, 78u8, 71u8]),
            now - self.hb > 10_000_000_000 ==> r@.len() == 2 && r@[0] == ConnAction::Disconnect(
                Disconnect { id: self.id },
            ) && r@[1] is Stop,
            now - self.hb <= 10_000_000_000 ==> r@.len() == 1 && r@[0] is Ping,
    {
        let mut r = Vec::new();
        if now > self.hb && now - self.hb > CLIENT_INTERVAL_NS {
            r.push(ConnAction::Disconnect(Disconnect { id: self.id }));
            r.push(ConnAction::Stop);
        } else {
            let mut ping: Vec<u8> = Vec::new();
            ping.push(80u8);
            ping.push(73u8);
            ping.push(78u8);
            ping.push(71u8);
            r.push(ConnAction::Ping(ping));
        }
        r
    }

    /// A message from the client at time `now`: pings are answered and, like
    /// pongs, refresh the heartbeat; binary data is echoed; a close is echoed
    /// and stops the connection, as does a continuation frame; text goes to the
    /// proxy with the connection's id.
    pub fn handle(&mut self, msg: ClientFrame, now: u64) -> (r: Vec<ConnAction>)
        ensures
            final(self).id == old(self).id,
            (msg is Ping || msg is Pong) ==> final(self).hb == now,
            !(msg is Ping || msg is Pong) ==> final(self).hb == old(self).hb,
            msg matches ClientFrame::Ping(d) ==> r@.len() == 1 && (r@[0] matches ConnAction::Pong(p)
                && p == d),
            msg is Pong ==> r@.len() == 0,
            msg matches ClientFrame::Binary(d) ==> r@.len() == 1 && (r@[0] matches ConnAction::Binary(b)
                && b == d),
            msg matches ClientFrame::Close(c) ==> r@.len() == 2 && (r@[0] matches ConnAction::Close(x)
                && x == c) && r@[1] is Stop,
            msg is Continuation ==> r@.len() == 1 && r@[0] is Stop,
            msg is Nop ==> r@.len() == 0,
            msg matches ClientFrame::Text(s) ==> r@.len() == 1 && r@[0] == ConnAction::ToProxy(
                ClientMessage { id: old(self).id, msg: s },
            ),
    {
        let mut r = Vec::new();
        match msg {
            ClientFrame::Ping(d) => {
                self.hb = now;
                r.push(ConnAction::Pong(d));
            },
            ClientFrame::Pong(_) => {
                self.hb = now;
            },
            ClientFrame::Binary(b) => {
                r.push(ConnAction::Binary(b));
            },
            ClientFrame::Close(reason) => {
                r.push(ConnAction::Close(reason));
                r.push(ConnAction::Stop);
            },
            ClientFrame::Continuation => {
                r.push(ConnAction::Stop);
            },
            ClientFrame::Nop => {},
            ClientFrame::Text(s) => {
                r.push(ConnAction::ToProxy(ClientMessage { id: self.id, msg: s }));
            },
        }
        r
    }

    /// A text for the client from the proxy: sent as is.
    pub fn handle_ws_message(&self, msg: WsMessage) -> (r: ConnAction)
        ensures
            r == ConnAction::Text(msg.0),
    {
        ConnAction::Text(msg.0)
    }
}

} // verus!
