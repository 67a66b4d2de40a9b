//! Core transport engine of an AMQP-style client connection: frame buffers
//! with checkpoint/rollback, an outbound frame queue paired with a
//! pending-write ledger that resolves completion promises in submission
//! order, the shared connection state machine, the internal command
//! processor, the task-executor scheduling model, and the decision logic of
//! the I/O loop. Socket I/O, threads and async plumbing live outside; the
//! engine is driven through plain values and events.

pub mod buffer;
pub mod codec;
pub mod commands;
pub mod executor;
pub mod io_loop;
pub mod outbound;
pub mod status;
