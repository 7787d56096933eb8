# causa_core

Content-addressed, Merkle-verified recordings ("tapes") of agent runs, as a
Verus-verified library, with the `causa` command line around it.

- `src/` — the verified library: labels, events and their content hashes,
  tapes with Merkle roots and Ed25519 signatures, integrity checks, fork,
  replay override, diff, bisect, guard policies, the proxy's routing and
  replies, and the demo and record tapes. `src/laws.rs` states the
  properties that relate several operations.
- `tests/` — tests of the library, run against the real BLAKE3, hex,
  Ed25519 and serde_json crates.
- `app/` — the command line: arguments, files, processes, the clock and the
  local proxy server, and the serde form of a `.causa` file.
