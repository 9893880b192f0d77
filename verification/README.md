# frogma

Presence snapshots for a small friends-only overlay: each peer broadcasts a
42-byte UDP snapshot of its avatar state on a tick, and every peer keeps a
short ring buffer of the latest snapshots of the others.

- `src/` is the verified library:
  - `wire` — the little-endian snapshot layout, `encode`/`decode`, and the
    round-trip laws between them;
  - `ring` — the per-peer ring buffer;
  - `table` — the peer registry: wrap-aware sequence check, latest-wins
    ingestion, receipt of datagrams, pruning of silent peers;
  - `sender` — what each tick of the broadcast loop sends;
  - `clock` — clock readings and the values derived from them.
- `app/` is the unverified shell: sockets, threads, locking, the REFramework
  plugin entry points, and a loopback harness (`main`).
- `tests/` runs the library on concrete values.

Positions and facing angles are single-precision floats in the game; the
library carries their bit patterns, which is exactly what travels on the wire.
