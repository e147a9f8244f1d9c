use vstd::prelude::*;

use crate::log::{LogEntry, LogIndex};
use crate::server::{ServerId, Term};

verus! {

/// A request for a vote, broadcast by a candidate when it starts an election.
#[derive(Clone, Copy, PartialEq, Eq, Structural, Debug)]
pub struct VoteRequest {
    pub candidate_term: Term,
    pub candidate_id: ServerId,
    /// Length of the candidate's log.
    pub last_log_idx: LogIndex,
    /// Term of the candidate's last entry, or 0 for an empty log.
    pub last_log_term: Term,
}

/// A reply to a VoteRequest.
#[derive(Clone, Copy, PartialEq, Eq, Structural, Debug)]
pub struct VoteResponse {
    pub voter_id: ServerId,
    pub term: Term,
    pub granted: bool,
}

/// A leader's replication message; with an empty batch it doubles as a
/// heartbeat.
#[derive(Clone, PartialEq, Eq, Debug)]
pub struct AppendRequest {
    pub leader_term: Term,
    pub leader_id: ServerId,
    /// Length of the prefix the leader believes the follower already holds.
    pub prev_len: LogIndex,
    /// Term of the last entry of that prefix, or 0 for the empty prefix.
    pub prev_term: Term,
    /// The entries that follow the prefix.
    pub entries: Vec<LogEntry>,
    pub leader_commit: LogIndex,
}

/// A reply to an AppendRequest.
#[derive(Clone, Copy, PartialEq, Eq, Structural, Debug)]
pub struct AppendResponse {
    pub follower_id: ServerId,
    pub term: Term,
    pub ok: bool,
    /// Length of the follower's log after any splice.
    pub ack_len: LogIndex,
}

/// The four message variants a replica exchanges with its peers.
#[derive(Clone, PartialEq, Eq, Debug)]
pub enum RPC {
    VoteRequest(VoteRequest),
    VoteResponse(VoteResponse),
    AppendRequest(AppendRequest),
    AppendResponse(AppendResponse),
}

/// Where an outbound message is addressed: one peer, or every peer (never
/// self).
#[derive(Clone, Copy, PartialEq, Eq, Structural, Debug)]
pub enum Target {
    Single(ServerId),
    Broadcast,
}

/// An outbound message paired with its destination. The replica never performs
/// I/O itself; the surrounding runtime delivers these.
pub type SendableMessage = (Target, RPC);

} // verus!
