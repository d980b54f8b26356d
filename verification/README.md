# knot

A proxy for Minetest: it listens for client datagrams on UDP, opens a session
for each client address, and forwards their traffic to a lobby server,
looking into the packets to learn player names and chat lines.

Layout:

- `src/` — the library, verified with Verus:
  - `packet.rs`: packet types and the parser of client datagrams, each
    production with its wire format as a contract;
  - `serializer.rs`: the binary encoding of packets and primitive values;
  - `roundtrip.rs`: proofs that parsing and encoding undo each other;
  - `text.rs`: UTF-16 as a specification, and the standard decoders;
  - `config.rs`: the configuration, its defaults and its checks;
  - `proxy.rs`: what the proxy does with each datagram.
- `tests/` — tests of the library.
- `app/` — the program: command line, `config.toml` on disk, the UDP event
  loop, and a `serde::Serializer` built on the library's encoding.
