# multi_threaded_ledger

A payment ledger: named accounts keyed by Ed25519 public keys, signed
transfers with per-sender sequence numbers, a bounded queue for transfers
that arrive ahead of their turn, and a write-ahead log through which every
change to the accounts passes.

## Layout

- `src/` — the library, verified with Verus.
  - `ledger.rs` — the ledger as a state machine. Each request (`add`,
    `profile`) returns a `Step`: a message for a client and either a log
    entry to write or the request's result. The caller writes the entry and
    reports the outcome with `complete_write`. The rules are stated as spec
    functions (`spec_add`, `spec_profile`, `spec_complete`, `spec_replay`).
  - `laws.rs` — properties across operations, above all that replaying the
    log reproduces the accounts.
  - `validator.rs` — the signed transfer message and signature checking.
  - `wal.rs` — when the log writer flushes its buffer.
  - `protocol.rs` — client/server messages and their length framing.
  - `crypto.rs` — wallet key files.
  - `signing.rs`, `display.rs` — the calls into `ed25519_dalek`, `rand_core`
    and `hex`, with the contracts they are trusted to meet.
  - `table.rs` — a map kept as a list of entries with distinct keys.
- `app/` — the programs: the console (default), `server` and `client`; the
  threads, channels, sockets and files; serde forms of the library's types.
- `tests/` — tests of the library.
