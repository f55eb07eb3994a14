# velum

A verified library for Velum, an experimental encrypted tunnelling relay, and
the relay node's command-line program built around it.

- `src/` is the library, written in Verus. It holds the wire formats
  (frames, datagrams, open records, the helper protocol's framing), the
  admission and quota rules of the relay, the client's profile, enrollment and
  routing rules, the TUN packet classification and rewriting, the fake DNS
  table, the proxy and CONNECT request parsers, the lifecycle state machines,
  and the operator's configuration, option and console rules. Every function
  states its behaviour in `requires`/`ensures`, and cross-function laws (round
  trips, idempotence, monotonicity, replay protection) are proof functions.
- `tests/` exercises the library on concrete values.
- `app/` is the relay node program: file and socket I/O, the QUIC listener,
  systemd deployment, ACME activation and the terminal console, plus the
  desktop traffic host's file journal. It calls the library for every
  decision.

Calls into `ring`, `subtle` and `smoltcp` stand behind small trusted wrappers
whose contracts are stated from those crates' documented behaviour.

The traits that the platform implements (the traffic host's journal and
backend, the profile-update verifier) state what each call records or
answers in spec functions of the trait; the host's contract is written over
those records, so it says which calls it made, in what order and with what.
