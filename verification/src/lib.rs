//! A Nostr relay proxy: configuration, the event cache, the parsing of
//! client commands and the per-connection state machine, all verified.

pub mod text;
pub mod config;
pub mod json;
pub mod frame;
pub mod event;
pub mod cache;
pub mod connection;
pub mod messages;
pub mod relay_client;
pub mod proxy;
pub mod proxy_connection;
pub mod server;
