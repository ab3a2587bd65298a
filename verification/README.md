# shph

Verified core logic of SHPH, a VPN-first secure transport, written in Verus.

Every function under `src/` carries a `requires`/`ensures` contract. Verus
proves it for every function except the small trusted wrappers around the
outside crates (hashing, signatures, key agreement, AEAD, randomness, base64,
QUIC configuration), whose contracts are believed. The laws the library
promises (round trips of its wire formats, bounds of its replay and
rate-limit state, continuity of identity records, independence of record
verification, canonical payload and record hash from the order of a record's
lists, …) are public proof functions.

## Layout

- `src/` — the verified library.
  - `wire`, `tun`, `transport`, `standards`: byte formats, frame limits,
    packet validation and transport parameters.
  - `obfuscation`, `shroud2`: padding envelopes, size classes, batching and
    the morphology engine.
  - `crypto`, `digest`: session keys, AEAD framing and replay windows over
    trusted calls into the cryptography crates.
  - `identity`: signed identity records — validation, canonical encoding,
    signing, verification, peer pins and discovery resolution.
  - `ja4`, `rate_limit`, `accept`, `spool`, `mule_quota`: fingerprint
    observation, per-peer connection limits, handshake-loop decisions and
    the file-spool adapters' rules.
  - `firewall`, `wintun`, `tui`: host firewall plans, Wintun parameters and
    dashboard state.
- `app/` — ordinary Rust around the library: file and network I/O, QUIC
  endpoints, the TUN device, JSON serialisation and floating-point traffic
  histograms.
- `tests/` — tests of the library through its public interface.
