//! Configuration of the proxy: where it listens and which relays it draws from.

use vstd::prelude::*;
use crate::text::{decimal, trim, trimmed, push_char, push_decimal};
use crate::event::clone_strings;

verus! {

/// Where the proxy listens for Nostr clients.
pub struct Network {
    pub port: u16,
    pub address: String,
}

/// The external Nostr relays the proxy draws from.
pub struct Sources {
    pub relays: Vec<String>,
}

/// The whole configuration.
pub struct Settings {
    pub network: Network,
    pub sources: Sources,
}

/// The mathematical value of [`Settings`].
pub struct SettingsView {
    pub port: u16,
    pub address: Seq<char>,
    pub relays: Seq<Seq<char>>,
}

impl View for Settings {
    type V = SettingsView;

    open spec fn view(&self) -> SettingsView {
        SettingsView {
            port: self.network.port,
            address: self.network.address@,
            relays: self.sources.relays@.map_values(|s: String| s@),
        }
    }
}

impl Clone for Settings {
    fn clone(&self) -> (r: Settings)
        ensures
            r@ == self@,
    {
        let relays = clone_strings(&self.sources.relays);
        let r = Settings {
            network: Network { port: self.network.port, address: self.network.address.clone() },
            sources: Sources { relays },
        };
        assert(r@.relays =~= self@.relays);
        r
    }
}

/// The port used when none is configured.
pub const DEFAULT_PORT: u16 = 8085;

/// The configuration file read when no name is given.
pub open spec fn default_config_file() -> Seq<char> {
    "config.toml"@
}

impl Settings {
    /// The built-in defaults: port 8085 on every interface, no relays.
    pub open spec fn is_default(&self) -> bool {
        &&& self.network.port == DEFAULT_PORT
        &&& self.network.address@ == "0.0.0.0"@
        &&& self.sources.relays@.len() == 0
    }

    /// The settings the proxy runs with: those read from the configuration
    /// file when it could be read, the defaults otherwise.
    pub fn new(from_file: Option<Settings>) -> (r: Settings)
        ensures
            from_file matches Some(s) ==> r == s,
            from_file is None ==> r.is_default(),
    {
        match from_file {
            Some(s) => s,
            None => Settings::default(),
        }
    }

    /// The name of the configuration file to read: the one given, else `config.toml`.
    pub fn config_file_name(config_file_name: &Option<String>) -> (r: String)
        ensures
            config_file_name matches Some(n) ==> r@ == n@,
            config_file_name is None ==> r@ == default_config_file(),
    {
        match config_file_name {
            Some(value) => value.clone(),
            None => "config.toml".to_owned(),
        }
    }

    /// The socket address to listen on: the trimmed address, a colon, and the port.
    pub fn listen_address(&self) -> (r: String)
        ensures
            r@ == trimmed(self.network.address@) + seq![':'] + decimal(self.network.port as nat),
    {
        let mut out = trim(self.network.address.as_str()).to_owned();
        push_char(&mut out, ':');
        push_decimal(&mut out, self.network.port as u64);
        out
    }
}

impl Default for Settings {
    fn default() -> (r: Settings)
        ensures
            r.is_default(),
    {
        let address = "0.0.0.0".to_owned();
        proof {
            reveal_strlit("0.0.0.0");
        }
        Settings {
            network: Network { port: DEFAULT_PORT, address },
            sources: Sources { relays: Vec::new() },
        }
    }
}

} // verus!
