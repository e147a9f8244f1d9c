//! The core of a Raft consensus replica: the per-server state machine that
//! drives leader election, log replication and commit advancement. The
//! replica performs no I/O; every entry point returns the messages the
//! hosting runtime must deliver.

pub mod errors;
pub mod laws;
pub mod log;
pub mod rpc;
pub mod server;
