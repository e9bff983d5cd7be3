# shardlite

The logic of a sharded SQLite server, verified with Verus.

A database is split over many SQLite files, the shards, each with one writer. Several nodes share
the shards between them. A client talks to any node: a write goes to the node that owns its shard,
and a read over all shards is planned, fanned out and merged.

- `src/` is the library, every function of it proved against its contract.
  - `query/` plans a query across shards, merges what they answer, and routes statements by their
    shard keys.
  - `replication/` numbers what is committed, keeps the newest of it, counts who holds it, and copies
    and follows shards.
  - `net/` holds the protocols, who may do what, the server's decisions, clients and gateways.
  - `s3/` archives shards to object storage and recovers them.
  - `storage/`, `shard/`, `calls.rs`, `vfs.rs`, `error.rs`, `text.rs`, `lines.rs` and `keyword.rs` hold
    what the others share.
- `tests/` runs the library on concrete values.
- `app/` performs what the library decides: sockets, files, threads, TLS, HTTP, object storage and
  the entry points that SQLite calls. The databases themselves come in through the traits of
  `app/engine.rs`.

Laws, which relate several functions, are proof functions named `law_`, beside the functions that
they are about.

What is not proved is what other crates do. The wrappers round them are marked
`#[verifier::external_body]`, and each says what it claims: `sqlparser` reads SQL, `serde_json` reads
and prints JSON, `blake3`, `sha2` and `hmac` hash. Arithmetic on doubles is left to the caller, who
hands in functions for it; the library holds doubles as their bits.
