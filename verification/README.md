# shadevpn-native

The native transport layer of ShadeVPN: a VLESS + REALITY client core whose
protocol logic is verified with Verus.

- `src/` is the verified library.
  - `bytes`, `text`: integers and text on the wire
  - `crypto`: the cryptographic crates, behind one small function each
  - `tls`: the TLS 1.3 ClientHello, built and parsed
  - `reality`, `handshake`: the REALITY session, from hello to record keys
  - `schedule`, `x509`, `tls13`: the TLS 1.3 client core
  - `vision`, `vless`: the inner protocol and its padding
  - `transport`, `pump`, `session`: frames, the packet pump, the session rules
- `tests/` runs the library against published vectors and simulated peers.
- `app/` is the JNI surface: sockets, threads, the TUN and JSON.

What the proofs rest on is in `src/crypto.rs` and `src/text.rs`: each function
there says which outside function it calls and what is taken from it. Ephemeral
secrets are held as `x25519_dalek::StaticSecret`, which wipes them when dropped.
