# nostr_proxy

A Nostr relay proxy: clients connect over WebSocket, the proxy forwards their
events and subscriptions to a set of relays, and keeps a cache of recent events
so that an event it already knows is not sent again.

- `src/` is the library, verified with Verus:
  - `config` — the settings (listen address and port, relays) and their defaults;
  - `event`, `json`, `frame` — Nostr events and filters, client JSON commands and
    WebSocket messages as plain values, with the calls into `nostr`, `serde_json`
    and std that parse and serialise them;
  - `cache` — the LRU event cache over the `lru` crate, with its laws;
  - `connection` — a client connection as a state machine (`Connection::step`),
    specified by `step_spec`, with its laws (duplicates are caught, from clients
    and from relays alike, every event
    gets one `OK`, a rejected command ends the connection, ...);
  - `messages`, `relay_client`, `proxy`, `proxy_connection`, `server` — the
    decisions of the actor-based variant of the proxy.
- `app/` runs the program: configuration file, sockets, relay connections and
  actors, feeding the library's state machines.
- `tests/` exercises the library on concrete values.
