# node-access

Tools for private network access through a relay: access nodes and serving nodes
meet in a relay's room, and carry SOCKS5 sessions and named TCP services over one
encrypted, multiplexed web socket.

- `src/` is the library, `node_access_common`, verified with Verus.
  - `mapping`: `-provider` and `-visitor` mappings, and service-level auth.
  - `legacy_cli`: long flags with a single dash.
  - `relay_ws`: the URLs of the relay's web sockets.
  - `crypto`: AES-256-GCM under a key that a shared secret stands for.
  - `frame`: frames and encrypted envelopes on the wire.
  - `mux`, `mux_laws`: streams over one connection.
  - `serve`, `serve_laws`: the serving side: who is served, which providers are
    registered, and where visitors are sent.
  - `access`: the access side: what a node offers and asks for.
  - `socks`, `socks_laws`: SOCKS5 negotiations.
  - `text`, `text_map`, `number`: what the others are made of.
- `app/` is the program around it: arguments, sockets, tasks and JSON.
- `tests/` runs the library on concrete values.

What the library believes of other crates is stated where it calls them: in
`crypto` (`aes-gcm`, `sha2`), `frame` (`bytes`), `relay_ws` (`urlencoding`) and
`socks` (`String::from_utf8`).
