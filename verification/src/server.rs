//! The echoing WebSocket server of the actor-based proxy.

use vstd::prelude::*;
use crate::config::Settings;
use crate::proxy_connection::{ClientFrame, ConnAction};

verus! {

/// The WebSocket handler of one client: it knows the relays, and echoes.
pub struct InputWebsocket {
    pub relays: Option<Vec<String>>,
}

impl InputWebsocket {
    /// A message from the client: a ping is answered with a pong of the same
    /// data, text and binary data are echoed, anything else is only logged.
    pub fn handle(&self, msg: ClientFrame) -> (r: Option<ConnAction>)
        ensures
            msg matches ClientFrame::Ping(d) ==> r == Some(ConnAction::Pong(d)),
            msg matches ClientFrame::Text(s) ==> r == Some(ConnAction::Text(s)),
            msg matches ClientFrame::Binary(b) ==> r == Some(ConnAction::Binary(b)),
            !(msg is Ping || msg is Text || msg is Binary) ==> r is None,
    {
        match msg {
            ClientFrame::Ping(d) => Some(ConnAction::Pong(d)),
            ClientFrame::Text(s) => Some(ConnAction::Text(s)),
            ClientFrame::Binary(b) => Some(ConnAction::Binary(b)),
            _ => None,
        }
    }
}

/// The server, with the settings it runs with.
pub struct Server {
    pub settings: Settings,
}

impl Server {
    /// A server running with a copy of these settings.
    pub fn new(settings: &Settings) -> (r: Server)
        ensures
            r.settings@ == settings@,
    {
        Server { settings: settings.clone() }
    }
}

} // verus!
