# crisclip

Clipboard sync between two computers on the same LAN, text and images,
over a Noise_NNpsk0 channel keyed by a shared 32-byte key.

Layout:

- `src/` — the library, verified with Verus:
  - `clip.rs` — payloads, their fingerprint (BLAKE3) and wire encoding
    (kind byte, then UTF-8 text or PNG), with the round-trip laws;
  - `proto.rs` — stream framing, the plaintext frames of a transfer, the
    receiver's reassembly state machine, and the Noise handshake and channel;
  - `daemon.rs` — which clipboard changes are sent, echo suppression after
    a receive, the payload limit, peer admission;
  - `key.rs` — hex notation of the key and reading a configured key;
  - `config.rs` — configuration defaults, the example file, the command line;
  - `text.rs`, `wire.rs` — decimal and ASCII strings, big-endian integers.
- `app/` — the daemon: TCP, the X11 clipboard and selection events,
  configuration files, and the loops around the library.
- `tests/` — tests of the library.
