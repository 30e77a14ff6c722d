//! A Raft protocol engine, verified with Verus.
//!
//! The engine runs the complete Raft algorithm without performing any I/O: every input event
//! (a vote request, a batch of log entries, a snapshot, ...) updates the in-memory state and
//! queues the commands that a runtime has to execute to make the change real.
//!
//! Every type has a mathematical view. The transitions of the engine are spec functions on that
//! view (`engine::model`), and the executable methods are proved to follow them
//! (`engine::engine_impl`). The properties that the protocol relies on are proved of the transitions:
//!
//! - `engine::event`: the events that an engine handles, and runs of them.
//! - `engine::effect`: nothing goes back, and the queued commands tell every change.
//! - `engine::validity`: the invariant, and that no event that the protocol allows breaks it.
//! - `engine::meaning`, `engine::log_meaning`: what each operation is for, of the fields of the engine,
//!   the entries by position and the queued commands.
//! - `engine::laws`: what single transitions guarantee.

pub mod node;
pub mod node_set;
pub mod vote;
pub mod log_id;
pub mod quorum;
pub mod membership;
pub mod entry;
pub mod log_id_list;
pub mod progress;
pub mod leader;
pub mod message;
pub mod snapshot;
pub mod metrics;
pub mod raft_state;
pub mod command;
pub mod engine;
