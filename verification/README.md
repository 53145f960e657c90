# raft

The leader election of the Raft consensus algorithm, with its rules stated as
contracts and proved by Verus.

- `src/` is the verified library.
  - `messages`, `state`, `config`: what nodes exchange, know and are told.
  - `storage`, `memory`, `log`: the persistent storage of a node, one that keeps its
    log in memory, and the model of the log.
  - `timer`: the randomised election timer.
  - `election`, `node`: the rules of an election and the node that follows them.
  - `network`, `transport`, `mock`: a simulated network with delays, losses and
    one-way partitions.
  - `laws`: what the rules guarantee, up to at most one leader per term.
- `tests/` runs the library.
- `app/` adds what needs an asynchronous runtime: channels, sleeping, concurrent
  vote requests and logging.

A few functions call the `rand` and `tokio` crates. What the proofs take for granted
about these calls is written at the functions marked `external_body` in
`src/timer.rs` and `src/network.rs`.
