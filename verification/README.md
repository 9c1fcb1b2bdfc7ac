# shin

A TLS 1.3 library without I/O, written in Rust and verified with Verus. It owns
the protocol's state machine, its wire formats, its key schedule and its
certificate checks; the embedder owns sockets, record transport, buffers, timers
and policy.

- `src/codec.rs`, `src/extension.rs`, `src/handshake/`, `src/proto.rs`,
  `src/psk.rs`: the wire formats, each a function on byte sequences with a round
  trip.
- `src/record.rs`: record protection.
- `src/crypto/`: hashes and transcripts, key derivation, authenticated
  encryption, the key schedule, key exchange, signatures, session tickets.
- `src/identity/`: DER, names, certificates, extensions, and the search for a
  path to a trust anchor.
- `src/server/`: the server. `machine.rs` says what each step does, as a
  function of the state, the message and what comes from outside; `laws.rs` says
  what holds over all steps; the other files carry the steps out.
- `app/`: text forms for logs.

Cryptographic primitives and Unicode tables come from outside crates. Each call
into one stands behind a small function whose doc comment says what is believed
of it without proof.
