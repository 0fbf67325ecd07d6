[package]
name = "nostr_proxy"
version = "0.1.0"
edition = "2021"
publish = false

[dependencies]
nostr = "=0.45.6"
lru = { version = "=0.19.0", default-features = false }
serde_json = "=1.0.154"
serde = { version = "=1.0.229", features = ["derive"] }
config = "=0.15.27"
tokio = { version = "=1.54.1", features = ["full"] }
tokio-tungstenite = "=0.30.0"
futures-util = "=0.3.34"
tracing = "=0.1.44"
tracing-subscriber = "=0.3.23"
thiserror = "=2.0.21"
uuid = { version = "=1.29.0", features = ["v4"] }
actix = "=0.13.5"
actix-web = { version = "=4.18.1", default-features = false, features = ["macros", "ws"] }
actix-web-actors = "=4.3.1"
actix-codec = "=0.5.4"
actix-http = { version = "=3.20.0", default-features = false, features = ["ws"] }
awc = { version = "=3.11.0", default-features = false }
