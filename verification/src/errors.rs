use vstd::prelude::*;

use crate::server::ServerId;

verus! {

/// A protocol-level inconsistency that indicates a bug or corrupted state.
/// It must abort the replica; it is never silently ignored.
#[derive(Clone, Copy, PartialEq, Eq, Debug)]
pub enum FatalError {
    /// An AppendResponse named a follower that is not one of our peers.
    UnknownFollower,
    /// A follower refused an append although the whole log was already being
    /// resent from its start.
    ReplicationInconsistency,
    /// An accepted append would have discarded an already committed entry.
    CommittedConflict,
    /// A follower acknowledged more entries than this leader holds.
    AckOutOfRange,
}

/// Why a client submission was refused. The caller is responsible for
/// retrying with another replica.
#[derive(Clone, Copy, PartialEq, Eq, Debug)]
pub enum ClientError {
    /// This replica is not the leader; the payload is the last known leader,
    /// if any.
    NotLeader(Option<ServerId>),
}

} // verus!
