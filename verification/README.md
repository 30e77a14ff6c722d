# raft_engine

A Raft protocol engine, written in Rust and verified with Verus.

The engine runs the complete Raft algorithm, but performs no I/O: every event updates the state in
memory and queues commands, which a runtime executes to save votes, append logs, replicate entries
and so on.

## Layout

- `src/engine/engine_impl.rs`: the `Engine` and its methods. Each is proved to follow a transition of
  the model.
- `src/engine/model.rs`: the transitions, as functions on the mathematical view of the engine. What a
  transition needs is a predicate whose name starts with `can_`.
- `src/engine/event.rs`, `effect.rs`, `validity.rs`, `laws.rs`: the events, and what is proved of them.
- `src/log_id_list.rs`, `progress.rs`, `quorum.rs`, `membership.rs`, ...: the parts of the state, each
  with its own view and contracts.
- `tests/`: scenarios with concrete values, and a small runtime that executes the queued commands and
  has to agree with the engine.

## What is proved

- No method panics or overflows where its `requires` holds.
- The vote, the committed log and the snapshot never go back, and no command is withdrawn.
- A runtime that executes the commands has the same vote, logs, committed log, membership and role as
  the engine.
- An engine that satisfies the invariant can handle every event that the protocol allows, and
  satisfies it afterwards: log ids are in total order, committed logs are kept, only committed logs are
  purged.
- Leaders are made by quorums, any two quorums meet, a leader commits only its own logs, accepted
  entries are in the log, and a repeated request only queues another election timer.
