use nostr_proxy::config::{Network, Settings, Sources};
use nostr_proxy::server::Server;
use nostr_proxy::text::push_decimal;

fn sample_settings() -> Settings {
    Settings {
        network: Network { port: 9000, address: "  127.0.0.1 ".to_string() },
        sources: Sources { relays: vec!["ws://a".to_string(), "ws://b".to_string()] },
    }
}

#[test]
fn settings_default_values() {
    let s = Settings::default();
    assert_eq!(s.network.port, 8085);
    assert_eq!(s.network.address, "0.0.0.0");
    assert!(s.sources.relays.is_empty());
}

#[test]
fn settings_new_takes_file_settings() {
    let s = Settings::new(Some(sample_settings()));
    assert_eq!(s.network.port, 9000);
    assert_eq!(s.sources.relays, vec!["ws://a".to_string(), "ws://b".to_string()]);
}

#[test]
fn settings_new_falls_back_to_defaults() {
    let s = Settings::new(None);
    assert_eq!(s.network.port, 8085);
    assert_eq!(s.network.address, "0.0.0.0");
    assert!(s.sources.relays.is_empty());
}

#[test]
fn config_file_name_default_and_given() {
    assert_eq!(Settings::config_file_name(&None), "config.toml");
    assert_eq!(Settings::config_file_name(&Some("other.toml".to_string())), "other.toml");
}

#[test]
fn listen_address_trims_address() {
    assert_eq!(sample_settings().listen_address(), "127.0.0.1:9000");
    assert_eq!(Settings::default().listen_address(), "0.0.0.0:8085");
    let mut s = sample_settings();
    s.network.address = "\u{3000}\t::1\u{2028} ".to_string();
    assert_eq!(s.listen_address(), "::1:9000");
}

#[test]
fn push_decimal_renders_numbers() {
    let mut s = String::from("x");
    push_decimal(&mut s, 0);
    assert_eq!(s, "x0");
    let mut s = String::new();
    push_decimal(&mut s, 65535);
    assert_eq!(s, "65535");
    let mut s = String::new();
    push_decimal(&mut s, u64::MAX);
    assert_eq!(s, u64::MAX.to_string());
}

#[test]
fn settings_clone_is_equal() {
    let s = sample_settings();
    let c = s.clone();
    assert_eq!(c.network.port, s.network.port);
    assert_eq!(c.network.address, s.network.address);
    assert_eq!(c.sources.relays, s.sources.relays);
}

#[test]
fn server_new_copies_settings() {
    let s = sample_settings();
    let server = Server::new(&s);
    assert_eq!(server.settings.network.port, 9000);
    assert_eq!(server.settings.network.address, "  127.0.0.1 ");
    assert_eq!(server.settings.sources.relays.len(), 2);
}
