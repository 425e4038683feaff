# ltmrs

A local memory service for coding agents: it keeps facts, lessons, guides and
attempts, and recalls them by name or by meaning.

- `src/` is the library. It is written in Verus, and every function in it is
  proved against its contract, but for the few that only call another crate or
  the standard library: what those do is stated and believed.
  - `domain/`: the records, the commands on them, and a store in memory.
    `domain/state.rs` says what each command makes of a store, `domain/laws.rs`
    what holds of every store.
  - `canonical/`: the store that the daemon works on, its receipts, and what it
    promises (`canonical/guarantees.rs`).
  - `daemon/`: frames, envelopes, quotas, sessions, retry namespaces, the
    connection's protocol and the dispatcher. `daemon/isolation.rs` and
    `daemon/request_laws.rs` say what holds of every request.
  - `daemon/tools/`: the tools that agents call.
  - `compatibility/lemma/`: the arguments of the tools, redaction, and the
    analyses of the memory.
  - `text.rs`, `double.rs`, `signed.rs`, `dates.rs`, `rank.rs`, `order.rs`,
    `overlap.rs`, `lists.rs`, `figures.rs`, `digest.rs`, `natural.rs`,
    `shortest.rs`: what the rest is built from. `double.rs` computes in binary
    fractions of 53 bits, to the bit, and `shortest.rs` writes them with as few
    digits as tell them apart.
- `app/` is the daemon around the library: the store on disk, the sockets, the
  workers, and JSON.
- `tests/` runs the library.

Confidences and other scores are binary fractions of 53 bits, held by the bits
that they have in the usual double format (`Score`).
Identifiers are the 128 bits of a UUID.
