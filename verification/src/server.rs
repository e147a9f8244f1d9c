use vstd::prelude::*;

use rand::Rng;
use rand_chacha::ChaCha8Rng;
use rand_core::SeedableRng;

use crate::errors::{ClientError, FatalError};
use crate::log::{
    append_post, last_term_of, lemma_mismatch_point, lemma_splice_preserves_prefix,
    prefix_matches, splice, Command, Log, LogEntry, LogIndex,
};
use crate::rpc::{
    AppendRequest, AppendResponse, SendableMessage, Target, VoteRequest, VoteResponse, RPC,
};

verus! {

/// Raft leadership term: a logical election epoch, non-decreasing on every
/// replica.
pub type Term = u64;

/// Identifier of a server; unique within a cluster.
pub type ServerId = usize;

/// A unit of logical time. All timers count ticks; there are no wall-clock
/// deadlines in the core.
pub type Ticks = u32;

/// The seedable pseudo-random generator each replica owns; opaque to the
/// verifier, reached only through the trusted items below.
#[verifier::external_type_specification]
#[verifier::external_body]
pub struct ExChaCha8Rng(ChaCha8Rng);

/// Relies on rand_chacha's ChaCha8Rng::seed_from_u64 to build a generator
/// from a caller-supplied seed; nothing about the stream is assumed.
#[verifier::external_body]
fn rng_from_seed(seed: u64) -> ChaCha8Rng {
    ChaCha8Rng::seed_from_u64(seed)
}

/// Relies on rand_core's SeedableRng::from_entropy to build a generator from
/// system entropy; nothing about the stream is assumed.
#[verifier::external_body]
fn rng_from_entropy() -> ChaCha8Rng {
    ChaCha8Rng::from_entropy()
}

/// Relies on rand's Rng::gen_range over an inclusive u32 range: the sample
/// lies in `[expected - jitter, expected + jitter]`; it panics only on an
/// empty range, which the precondition rules out.
#[verifier::external_body]
fn rng_jitter(rng: &mut ChaCha8Rng, expected: u32, jitter: u32) -> (r: u32)
    requires
        jitter <= expected,
        expected + jitter <= u32::MAX,
    ensures
        expected - jitter <= r <= expected + jitter,
{
    rng.gen_range((expected - jitter)..=(expected + jitter))
}

/// Configuration options for a Raft server, all in ticks.
#[derive(Clone, Copy, PartialEq, Eq, Structural, Debug)]
pub struct RaftConfig {
    /// How long a server waits for a message from the current leader before
    /// giving up and starting an election.
    pub election_timeout: Ticks,
    /// Symmetric random jitter added to the election timeout.
    pub election_timeout_jitter: Ticks,
    /// How often a leader sends (possibly empty) heartbeat appends; an order
    /// of magnitude smaller than the election timeout.
    pub heartbeat_interval: Ticks,
}

impl RaftConfig {
    /// The constraints of a usable configuration: the jitter window stays
    /// positive and within u32, and heartbeats outpace every election timer.
    pub open spec fn wf(self) -> bool {
        &&& self.election_timeout_jitter < self.election_timeout
        &&& self.election_timeout + self.election_timeout_jitter <= u32::MAX
        &&& self.heartbeat_interval < self.election_timeout - self.election_timeout_jitter
    }
}

/// Issues no requests but responds to leaders and candidates. All replicas
/// start as followers.
#[derive(Clone, Copy, PartialEq, Eq, Structural, Debug)]
pub struct FollowerState {
    /// Ticks left until an election starts, unless reset by a leader.
    pub election_time: Ticks,
    /// The acknowledged leader of the current term, if known.
    pub leader: Option<ServerId>,
}

/// Campaigning to become leader of the current term.
#[derive(Clone, PartialEq, Eq, Debug)]
pub struct CandidateState {
    /// Ticks left until this candidacy is abandoned for a fresh election.
    pub election_time: Ticks,
    /// Every server that granted us its vote, without duplicates; contains
    /// self.
    pub votes_received: Vec<ServerId>,
}

/// What a leader knows about one follower's log.
#[derive(Clone, Copy, PartialEq, Eq, Structural, Debug)]
pub struct NodeReplicationState {
    /// Length of the prefix we believe the follower holds; the next append
    /// starts there.
    pub sent_up_to: LogIndex,
    /// Length of the prefix the follower has acknowledged.
    pub acked_up_to: LogIndex,
}

/// Handles all client requests and drives replication.
#[derive(Clone, PartialEq, Eq, Debug)]
pub struct LeaderState {
    /// Replication state for each peer, aligned index by index with the
    /// replica's peer list.
    pub followers: Vec<NodeReplicationState>,
    /// Ticks left until the next heartbeat broadcast.
    pub heartbeat_timeout: Ticks,
}

/// The three leadership states a replica can be in.
#[derive(Clone, PartialEq, Eq, Debug)]
pub enum RaftLeadershipState {
    Follower(FollowerState),
    Candidate(CandidateState),
    Leader(LeaderState),
}

/// A Raft replica: the per-server state machine driving leader election, log
/// replication and commit advancement. It performs no I/O; every entry point
/// returns the messages to deliver.
pub struct RaftServer {
    /// ID of this node.
    pub id: ServerId,
    /// All other servers of the cluster, without duplicates, not including
    /// self.
    pub peers: Vec<ServerId>,
    /// Configuration of this node.
    pub config: RaftConfig,
    /// Current term of this node; conceptually persisted.
    pub current_term: Term,
    /// Candidate this node voted for in the current term; conceptually
    /// persisted.
    pub voted_for: Option<ServerId>,
    /// The replicated log; conceptually persisted.
    pub log: Log,
    /// Leadership state with its timers and counters.
    pub leadership_state: RaftLeadershipState,
    /// Seeded random generator for election-timer jitter.
    pub rng: ChaCha8Rng,
}

/// The smallest majority of a cluster of `n_peers + 1` servers.
pub open spec fn quorum_spec(n_peers: int) -> int {
    (n_peers + 1) / 2 + 1
}

/// The term after observing a message of term `mt`: terms never decrease.
pub open spec fn term_after(ct: Term, mt: Term) -> Term {
    if mt > ct {
        mt
    } else {
        ct
    }
}

/// The vote after observing a message of term `mt`: entering a higher term
/// clears it, otherwise it is kept.
pub open spec fn vf_after_step(ct: Term, vf: Option<ServerId>, mt: Term) -> Option<ServerId> {
    if mt > ct {
        None
    } else {
        vf
    }
}

/// A freshly sampled election timer lies in the configured jitter window.
pub open spec fn in_election_window(c: RaftConfig, t: Ticks) -> bool {
    c.election_timeout - c.election_timeout_jitter <= t
        <= c.election_timeout + c.election_timeout_jitter
}

/// The fields that no transition ever changes.
pub open spec fn unchanged_static(pre: RaftServer, post: RaftServer) -> bool {
    &&& post.id == pre.id
    &&& post.peers == pre.peers
    &&& post.config == pre.config
}

/// Nothing observable changed (the generator may have advanced).
pub open spec fn state_unchanged(pre: RaftServer, post: RaftServer) -> bool {
    &&& unchanged_static(pre, post)
    &&& post.current_term == pre.current_term
    &&& post.voted_for == pre.voted_for
    &&& post.log == pre.log
    &&& post.leadership_state == pre.leadership_state
}

/// The step-down transition: adopt `new_term`, clear the vote and the known
/// leader, and restart the election timer.
pub open spec fn stepped_down(pre: RaftServer, post: RaftServer, new_term: Term) -> bool {
    &&& unchanged_static(pre, post)
    &&& post.current_term == new_term
    &&& post.voted_for is None
    &&& post.log == pre.log
    &&& post.leadership_state matches RaftLeadershipState::Follower(f) && f.leader is None
        && in_election_window(pre.config, f.election_time)
}

/// The safety backbone every transition preserves: the term never decreases,
/// a vote cast in a term is never changed within it, the committed prefix
/// only grows and its entries never change, a leader that stays leader only
/// extends its log, and delivered commands are never retracted.
pub open spec fn protocol_frame(pre: RaftServer, post: RaftServer) -> bool {
    &&& post.current_term >= pre.current_term
    &&& (post.current_term == pre.current_term && pre.voted_for is Some ==> post.voted_for
        == pre.voted_for)
    &&& post.log.committed_len >= pre.log.committed_len
    &&& post.log.entries@.len() >= pre.log.committed_len
    &&& (forall|i: int|
        0 <= i < pre.log.committed_len ==> #[trigger] post.log.entries@[i]
            == pre.log.entries@[i])
    &&& (pre.leadership_state is Leader && post.leadership_state is Leader
        ==> pre.log.entries@.is_prefix_of(post.log.entries@))
    &&& post.log.delivered@.len() >= pre.log.delivered@.len()
    &&& (forall|i: int|
        0 <= i < pre.log.delivered@.len() ==> #[trigger] post.log.delivered@[i]
            == pre.log.delivered@[i])
}

/// The vote decision, over the observer's durable state and its log's
/// last term and length.
pub open spec fn log_up_to_date(llt: Term, lli: int, req: VoteRequest) -> bool {
    ||| req.last_log_term > llt
    ||| (req.last_log_term == llt && req.last_log_idx >= lli)
}

/// Whether the vote is granted: the candidate's log is at least as up to
/// date, its term is current after any step-down, and the vote is still free
/// or already theirs.
pub open spec fn vote_granted_spec(
    ct: Term,
    vf: Option<ServerId>,
    llt: Term,
    lli: int,
    req: VoteRequest,
) -> bool {
    let vf1 = vf_after_step(ct, vf, req.candidate_term);
    &&& log_up_to_date(llt, lli, req)
    &&& req.candidate_term == term_after(ct, req.candidate_term)
    &&& (vf1 is None || vf1 == Some(req.candidate_id))
}

/// The vote recorded after handling the request.
pub open spec fn voted_for_after(
    ct: Term,
    vf: Option<ServerId>,
    llt: Term,
    lli: int,
    req: VoteRequest,
) -> Option<ServerId> {
    if vote_granted_spec(ct, vf, llt, lli, req) {
        Some(req.candidate_id)
    } else {
        vf_after_step(ct, vf, req.candidate_term)
    }
}

/// The exact reply a replica with the given durable state sends to a vote
/// request.
pub open spec fn vote_response_spec(
    id: ServerId,
    ct: Term,
    vf: Option<ServerId>,
    llt: Term,
    lli: int,
    req: VoteRequest,
) -> VoteResponse {
    VoteResponse {
        voter_id: id,
        term: term_after(ct, req.candidate_term),
        granted: vote_granted_spec(ct, vf, llt, lli, req),
    }
}

/// What handling a VoteRequest does: step down if the candidate's term is
/// newer, decide the vote, record it if granted, and reply to the candidate.
pub open spec fn vote_request_post(
    pre: RaftServer,
    post: RaftServer,
    req: VoteRequest,
    out: Seq<SendableMessage>,
) -> bool {
    let llt = last_term_of(pre.log.entries@);
    let lli = pre.log.entries@.len() as int;
    &&& unchanged_static(pre, post)
    &&& post.current_term == term_after(pre.current_term, req.candidate_term)
    &&& post.voted_for == voted_for_after(pre.current_term, pre.voted_for, llt, lli, req)
    &&& post.log == pre.log
    &&& (if req.candidate_term > pre.current_term {
        post.leadership_state matches RaftLeadershipState::Follower(f) && f.leader is None
            && in_election_window(pre.config, f.election_time)
    } else {
        post.leadership_state == pre.leadership_state
    })
    &&& out.len() == 1
    &&& out[0] == (
        Target::Single(req.candidate_id),
        RPC::VoteResponse(vote_response_spec(pre.id, pre.current_term, pre.voted_for, llt, lli, req)),
    )
}

/// One outbound AppendRequest to `to`, built from the sender's log, for a follower believed to hold a prefix of length `sent`.
pub open spec fn append_request_msg(
    m: SendableMessage,
    to: ServerId,
    ct: Term,
    id: ServerId,
    e: Seq<LogEntry>,
    commit: int,
    sent: int,
) -> bool {
    &&& m.0 == Target::Single(to)
    &&& m.1 matches RPC::AppendRequest(a)
        && a.leader_term == ct
        && a.leader_id == id
        && a.prev_len as int == sent
        && a.prev_term == (if sent == 0 { 0 as Term } else { e[sent - 1].term })
        && a.entries@ == e.subrange(sent, e.len() as int)
        && a.leader_commit as int == commit
}

/// One AppendRequest per peer, in peer order, each cut at what that follower
/// is believed to hold.
pub open spec fn broadcast_appends(
    out: Seq<SendableMessage>,
    peers: Seq<ServerId>,
    fs: Seq<NodeReplicationState>,
    ct: Term,
    id: ServerId,
    e: Seq<LogEntry>,
    commit: int,
) -> bool {
    &&& out.len() == peers.len()
    &&& forall|i: int|
        0 <= i < peers.len() ==> #[trigger] append_request_msg(
            out[i],
            peers[i],
            ct,
            id,
            e,
            commit,
            fs[i].sent_up_to as int,
        )
}

/// Number of followers whose acknowledged prefix is longer than `c`.
pub open spec fn count_acked(fs: Seq<NodeReplicationState>, c: int) -> int
    decreases fs.len(),
{
    if fs.len() == 0 {
        0
    } else {
        count_acked(fs.drop_last(), c) + if fs.last().acked_up_to > c {
            1 as int
        } else {
            0 as int
        }
    }
}

/// How far the commit cursor advances: while the next entry is acknowledged
/// by a quorum (self included) and carries the leader's own term, it commits.
/// Entries of earlier terms commit only transitively.
pub open spec fn commit_target(
    e: Seq<LogEntry>,
    fs: Seq<NodeReplicationState>,
    q: int,
    ct: Term,
    c: int,
) -> int
    decreases e.len() - c,
{
    if c < e.len() && 1 + count_acked(fs, c) >= q && e[c].term == ct {
        commit_target(e, fs, q, ct, c + 1)
    } else {
        c
    }
}

/// The index of a known peer (unique, as the peer list has no duplicates).
pub open spec fn peer_index(peers: Seq<ServerId>, id: ServerId) -> int {
    choose|i: int| 0 <= i < peers.len() && peers[i] == id
}

/// What handling a VoteResponse does: step down on a newer term; as a
/// candidate of the response's term, record a granted vote and become leader
/// on reaching quorum, initialising every follower to the full log and
/// broadcasting appends.
pub open spec fn vote_response_post(
    pre: RaftServer,
    post: RaftServer,
    res: VoteResponse,
    out: Seq<SendableMessage>,
) -> bool {
    if res.term > pre.current_term {
        &&& stepped_down(pre, post, res.term)
        &&& out.len() == 0
    } else if pre.leadership_state is Candidate && res.term == pre.current_term && res.granted {
        let c = pre.leadership_state->Candidate_0;
        let votes1 = if c.votes_received@.contains(res.voter_id) {
            c.votes_received@
        } else {
            c.votes_received@.push(res.voter_id)
        };
        &&& unchanged_static(pre, post)
        &&& post.current_term == pre.current_term
        &&& post.voted_for == pre.voted_for
        &&& post.log == pre.log
        &&& (if votes1.len() >= quorum_spec(pre.peers@.len() as int) {
            &&& post.leadership_state matches RaftLeadershipState::Leader(ls)
                && ls.heartbeat_timeout == pre.config.heartbeat_interval
                && ls.followers@.len() == pre.peers@.len()
                && (forall|i: int|
                    0 <= i < ls.followers@.len() ==> #[trigger] ls.followers@[i]
                        == (NodeReplicationState {
                            sent_up_to: pre.log.entries@.len() as usize,
                            acked_up_to: 0,
                        }))
                && broadcast_appends(
                    out,
                    pre.peers@,
                    ls.followers@,
                    pre.current_term,
                    pre.id,
                    pre.log.entries@,
                    pre.log.committed_len as int,
                )
        } else {
            &&& post.leadership_state matches RaftLeadershipState::Candidate(c1)
                && c1.votes_received@ == votes1 && c1.election_time == c.election_time
            &&& out.len() == 0
        })
    } else {
        &&& state_unchanged(pre, post)
        &&& out.len() == 0
    }
}

/// What handling an AppendRequest does: step down on a newer term, or
/// on an equal term while candidate or leader (keeping the vote); then, as a
/// follower of the sender's term, record the leader, reset the timer, run the
/// consistency check and splice; stale requests are refused with our term.
pub open spec fn append_request_post(
    pre: RaftServer,
    post: RaftServer,
    req: AppendRequest,
    r: Result<Vec<SendableMessage>, FatalError>,
) -> bool {
    let t1 = term_after(pre.current_term, req.leader_term);
    let vf1 = vf_after_step(pre.current_term, pre.voted_for, req.leader_term);
    if req.leader_term < pre.current_term && !(pre.leadership_state is Follower) {
        // Candidates and leaders ignore a stale leader entirely.
        &&& state_unchanged(pre, post)
        &&& r matches Ok(out) && out@.len() == 0
    } else if req.leader_term < pre.current_term {
        // A follower refuses a stale leader, telling it our term.
        &&& state_unchanged(pre, post)
        &&& r matches Ok(out) && out@.len() == 1 && out@[0] == (
            Target::Single(req.leader_id),
            RPC::AppendResponse(AppendResponse {
                follower_id: pre.id,
                term: pre.current_term,
                ok: false,
                ack_len: pre.log.entries@.len() as usize,
            }),
        )
    } else {
        // The sender leads term t1; we follow it.
        let p = req.prev_len as int;
        let accepted = prefix_matches(pre.log.entries@, p, req.prev_term);
        &&& unchanged_static(pre, post)
        &&& post.current_term == t1
        &&& post.voted_for == vf1
        &&& post.leadership_state matches RaftLeadershipState::Follower(f) && f.leader == Some(
            req.leader_id,
        ) && in_election_window(pre.config, f.election_time)
        &&& (if accepted {
            &&& append_post(
                pre.log,
                post.log,
                p,
                req.leader_commit as int,
                req.entries@,
                if r is Ok {
                    Ok(())
                } else {
                    Err(FatalError::CommittedConflict)
                },
            )
            &&& (r matches Ok(out) ==> out@.len() == 1 && out@[0] == (
                Target::Single(req.leader_id),
                RPC::AppendResponse(AppendResponse {
                    follower_id: pre.id,
                    term: t1,
                    ok: true,
                    ack_len: post.log.entries@.len() as usize,
                }),
            ))
            &&& (r matches Err(f2) ==> f2 is CommittedConflict)
        } else {
            &&& post.log == pre.log
            &&& r matches Ok(out) && out@.len() == 1 && out@[0] == (
                Target::Single(req.leader_id),
                RPC::AppendResponse(AppendResponse {
                    follower_id: pre.id,
                    term: t1,
                    ok: false,
                    ack_len: pre.log.entries@.len() as usize,
                }),
            )
        })
    }
}

/// What handling an AppendResponse does: step down on a newer term;
/// as the leader of the response's term, record a fresh acknowledgement and
/// advance the commit cursor, or back the probe up by one entry and resend;
/// inconsistent responses are fatal, stale ones are ignored.
pub open spec fn append_response_post(
    pre: RaftServer,
    post: RaftServer,
    res: AppendResponse,
    r: Result<Vec<SendableMessage>, FatalError>,
) -> bool {
    if res.term > pre.current_term {
        &&& stepped_down(pre, post, res.term)
        &&& r matches Ok(out) && out@.len() == 0
    } else if pre.leadership_state is Leader && res.term == pre.current_term {
        let l = pre.leadership_state->Leader_0;
        if !pre.peers@.contains(res.follower_id) {
            &&& state_unchanged(pre, post)
            &&& r matches Err(f) && f is UnknownFollower
        } else {
            let i = peer_index(pre.peers@, res.follower_id);
            let fs = l.followers@[i];
            if res.ok && res.ack_len >= fs.acked_up_to {
                if res.ack_len > pre.log.entries@.len() {
                    &&& state_unchanged(pre, post)
                    &&& r matches Err(f) && f is AckOutOfRange
                } else {
                    let f1 = l.followers@.update(
                        i,
                        NodeReplicationState { sent_up_to: res.ack_len, acked_up_to: res.ack_len },
                    );
                    let c1 = commit_target(
                        pre.log.entries@,
                        f1,
                        quorum_spec(pre.peers@.len() as int),
                        pre.current_term,
                        pre.log.committed_len as int,
                    );
                    &&& unchanged_static(pre, post)
                    &&& post.current_term == pre.current_term
                    &&& post.voted_for == pre.voted_for
                    &&& post.log.entries@ == pre.log.entries@
                    &&& post.log.committed_len == c1
                    &&& post.log.applied_len == c1
                    &&& post.log.delivered@ == pre.log.delivered@ + pre.log.entries@.subrange(
                        pre.log.committed_len as int,
                        c1,
                    ).map_values(|le: LogEntry| le.command)
                    &&& post.leadership_state matches RaftLeadershipState::Leader(ls)
                        && ls.followers@ == f1 && ls.heartbeat_timeout == l.heartbeat_timeout
                    &&& r matches Ok(out) && out@.len() == 0
                }
            } else if !res.ok && fs.sent_up_to > 0 {
                let f1 = l.followers@.update(
                    i,
                    NodeReplicationState {
                        sent_up_to: (fs.sent_up_to - 1) as usize,
                        acked_up_to: fs.acked_up_to,
                    },
                );
                &&& unchanged_static(pre, post)
                &&& post.current_term == pre.current_term
                &&& post.voted_for == pre.voted_for
                &&& post.log == pre.log
                &&& post.leadership_state matches RaftLeadershipState::Leader(ls)
                    && ls.followers@ == f1 && ls.heartbeat_timeout == l.heartbeat_timeout
                &&& r matches Ok(out) && out@.len() == 1 && append_request_msg(
                    out@[0],
                    res.follower_id,
                    pre.current_term,
                    pre.id,
                    pre.log.entries@,
                    pre.log.committed_len as int,
                    fs.sent_up_to - 1,
                )
            } else if !res.ok {
                &&& state_unchanged(pre, post)
                &&& r matches Err(f) && f is ReplicationInconsistency
            } else {
                &&& state_unchanged(pre, post)
                &&& r matches Ok(out) && out@.len() == 0
            }
        }
    } else {
        &&& state_unchanged(pre, post)
        &&& r matches Ok(out) && out@.len() == 0
    }
}

/// The election transition: bump the term, vote for self, become a
/// candidate with a fresh timer, and broadcast a VoteRequest — or, in a
/// single-node cluster, become leader on the spot.
pub open spec fn election_started(
    pre: RaftServer,
    post: RaftServer,
    out: Seq<SendableMessage>,
) -> bool {
    &&& unchanged_static(pre, post)
    &&& post.current_term == pre.current_term + 1
    &&& post.voted_for == Some(pre.id)
    &&& post.log == pre.log
    &&& (if 1 >= quorum_spec(pre.peers@.len() as int) {
        post.leadership_state matches RaftLeadershipState::Leader(ls) && ls.heartbeat_timeout
            == pre.config.heartbeat_interval && ls.followers@.len() == pre.peers@.len()
    } else {
        post.leadership_state matches RaftLeadershipState::Candidate(c) && c.votes_received@
            =~= seq![pre.id] && in_election_window(pre.config, c.election_time)
    })
    &&& out.len() == 1
    &&& out[0] == (
        Target::Broadcast,
        RPC::VoteRequest(VoteRequest {
            candidate_term: (pre.current_term + 1) as u64,
            candidate_id: pre.id,
            last_log_idx: pre.log.entries@.len() as usize,
            last_log_term: last_term_of(pre.log.entries@),
        }),
    )
}

/// What one tick does: followers and candidates count their election
/// timer down and start an election at zero; a leader counts its heartbeat
/// timer down and broadcasts appends at zero, resetting it.
pub open spec fn tick_post(pre: RaftServer, post: RaftServer, out: Seq<SendableMessage>) -> bool {
    match pre.leadership_state {
        RaftLeadershipState::Follower(f) => {
            if f.election_time <= 1 {
                election_started(pre, post, out)
            } else {
                &&& state_unchanged_but_role(pre, post)
                &&& post.leadership_state == RaftLeadershipState::Follower(FollowerState {
                    election_time: (f.election_time - 1) as u32,
                    leader: f.leader,
                })
                &&& out.len() == 0
            }
        }
        RaftLeadershipState::Candidate(c) => {
            if c.election_time <= 1 {
                election_started(pre, post, out)
            } else {
                &&& state_unchanged_but_role(pre, post)
                &&& post.leadership_state matches RaftLeadershipState::Candidate(c1)
                    && c1.votes_received@ == c.votes_received@ && c1.election_time
                    == c.election_time - 1
                &&& out.len() == 0
            }
        }
        RaftLeadershipState::Leader(l) => {
            if l.heartbeat_timeout <= 1 {
                &&& state_unchanged_but_role(pre, post)
                &&& post.leadership_state matches RaftLeadershipState::Leader(ls)
                    && ls.followers@ == l.followers@ && ls.heartbeat_timeout
                    == pre.config.heartbeat_interval
                &&& broadcast_appends(
                    out,
                    pre.peers@,
                    l.followers@,
                    pre.current_term,
                    pre.id,
                    pre.log.entries@,
                    pre.log.committed_len as int,
                )
            } else {
                &&& state_unchanged_but_role(pre, post)
                &&& post.leadership_state matches RaftLeadershipState::Leader(ls)
                    && ls.followers@ == l.followers@ && ls.heartbeat_timeout
                    == l.heartbeat_timeout - 1
                &&& out.len() == 0
            }
        }
    }
}

/// Everything but the leadership state is unchanged.
pub open spec fn state_unchanged_but_role(pre: RaftServer, post: RaftServer) -> bool {
    &&& unchanged_static(pre, post)
    &&& post.current_term == pre.current_term
    &&& post.voted_for == pre.voted_for
    &&& post.log == pre.log
}

/// What a client submission does: a leader appends the command under
/// its own term, advances the commit cursor where a quorum already allows it,
/// and broadcasts appends; any other replica refuses with the last known
/// leader.
pub open spec fn client_request_post(
    pre: RaftServer,
    post: RaftServer,
    cmd: Command,
    r: Result<Vec<SendableMessage>, ClientError>,
) -> bool {
    match pre.leadership_state {
        RaftLeadershipState::Leader(l) => {
            let e1 = pre.log.entries@.push(LogEntry { term: pre.current_term, command: cmd });
            let c1 = commit_target(
                e1,
                l.followers@,
                quorum_spec(pre.peers@.len() as int),
                pre.current_term,
                pre.log.committed_len as int,
            );
            &&& unchanged_static(pre, post)
            &&& post.current_term == pre.current_term
            &&& post.voted_for == pre.voted_for
            &&& post.log.entries@ == e1
            &&& post.log.committed_len == c1
            &&& post.log.applied_len == c1
            &&& post.log.delivered@ == pre.log.delivered@ + e1.subrange(
                pre.log.committed_len as int,
                c1,
            ).map_values(|le: LogEntry| le.command)
            &&& post.leadership_state matches RaftLeadershipState::Leader(ls) && ls.followers@
                == l.followers@ && ls.heartbeat_timeout == l.heartbeat_timeout
            &&& r matches Ok(out) && broadcast_appends(
                out@,
                pre.peers@,
                l.followers@,
                pre.current_term,
                pre.id,
                e1,
                c1,
            )
        }
        RaftLeadershipState::Follower(f) => {
            &&& state_unchanged(pre, post)
            &&& r matches Err(e) && e == ClientError::NotLeader(f.leader)
        }
        RaftLeadershipState::Candidate(_) => {
            &&& state_unchanged(pre, post)
            &&& r matches Err(e) && e == ClientError::NotLeader(None::<ServerId>)
        }
    }
}

/// Saturating decrement of a tick counter.
fn saturating_dec(t: Ticks) -> (r: Ticks)
    ensures
        r == if t == 0 { 0 as u32 } else { (t - 1) as u32 },
{
    if t == 0 {
        0
    } else {
        t - 1
    }
}

/// An element-for-element copy of a vector of plain values.
#[verifier::loop_isolation(false)]
fn copy_vec<T: Copy>(v: &Vec<T>) -> (r: Vec<T>)
    ensures
        r@ == v@,
{
    let mut r: Vec<T> = Vec::new();
    let mut i: usize = 0;
    while i < v.len()
        invariant
            i <= v.len(),
            r@ == v@.subrange(0, i as int),
        decreases v.len() - i,
    {
        r.push(v[i]);
        proof {
            assert(v@.subrange(0, i as int + 1) =~= v@.subrange(0, i as int).push(v@[i as int]));
        }
        i = i + 1;
    }
    proof {
        assert(v@.subrange(0, v@.len() as int) =~= v@);
    }
    r
}

/// A copy of the log's suffix starting at position `from`.
#[verifier::loop_isolation(false)]
fn copy_suffix(v: &Vec<LogEntry>, from: usize) -> (r: Vec<LogEntry>)
    requires
        from <= v@.len(),
    ensures
        r@ == v@.subrange(from as int, v@.len() as int),
{
    let mut r: Vec<LogEntry> = Vec::new();
    let mut i: usize = from;
    while i < v.len()
        invariant
            from <= i <= v.len(),
            r@ == v@.subrange(from as int, i as int),
        decreases v.len() - i,
    {
        r.push(v[i]);
        proof {
            assert(v@.subrange(from as int, i as int + 1) =~= v@.subrange(
                from as int,
                i as int,
            ).push(v@[i as int]));
        }
        i = i + 1;
    }
    r
}

/// First position of `id` in the peer list, if it is a peer.
#[verifier::loop_isolation(false)]
fn find_peer(peers: &Vec<ServerId>, id: ServerId) -> (r: Option<usize>)
    ensures
        match r {
            Some(i) => i < peers@.len() && peers@[i as int] == id,
            None => !peers@.contains(id),
        },
{
    let mut i: usize = 0;
    while i < peers.len()
        invariant
            i <= peers.len(),
            forall|k: int| 0 <= k < i ==> peers@[k] != id,
        decreases peers.len() - i,
    {
        if peers[i] == id {
            return Some(i);
        }
        i = i + 1;
    }
    None
}

/// Whether `x` occurs in the vector.
fn vec_contains(v: &Vec<ServerId>, x: ServerId) -> (r: bool)
    ensures
        r == v@.contains(x),
{
    match find_peer(v, x) {
        Some(i) => {
            proof {
                assert(v@[i as int] == x);
            }
            true
        },
        None => false,
    }
}

/// Number of followers whose acknowledged prefix is longer than `c`.
#[verifier::loop_isolation(false)]
fn count_acks(fs: &Vec<NodeReplicationState>, c: usize) -> (r: usize)
    ensures
        r as int == count_acked(fs@, c as int),
        r <= fs@.len(),
{
    let mut r: usize = 0;
    let mut i: usize = 0;
    while i < fs.len()
        invariant
            i <= fs.len(),
            r <= i,
            r as int == count_acked(fs@.subrange(0, i as int), c as int),
        decreases fs.len() - i,
    {
        proof {
            assert(fs@.subrange(0, i as int + 1).drop_last() =~= fs@.subrange(0, i as int));
            assert(fs@.subrange(0, i as int + 1).last() == fs@[i as int]);
        }
        if fs[i].acked_up_to > c {
            r = r + 1;
        }
        i = i + 1;
    }
    proof {
        assert(fs@.subrange(0, fs@.len() as int) =~= fs@);
    }
    r
}

/// Commit every entry already acknowledged by a quorum (self included) whose
/// term is the leader's own, delivering the newly committed commands in
/// order. Entries of earlier terms commit only transitively.
fn commit_log_entries(
    log: &mut Log,
    followers: &Vec<NodeReplicationState>,
    quorum: usize,
    current_term: Term,
)
    requires
        old(log).wf(),
        followers@.len() < usize::MAX,
    ensures
        final(log).wf(),
        final(log).entries@ == old(log).entries@,
        final(log).committed_len as int == commit_target(
            old(log).entries@,
            followers@,
            quorum as int,
            current_term,
            old(log).committed_len as int,
        ),
        final(log).applied_len == final(log).committed_len,
        final(log).delivered@ == old(log).delivered@ + old(log).entries@.subrange(
            old(log).committed_len as int,
            final(log).committed_len as int,
        ).map_values(|le: LogEntry| le.command),
{
    let ghost e0 = log.entries@;
    let ghost c0 = log.committed_len as int;
    let ghost d0 = log.delivered@;
    loop
        invariant
            log.wf(),
            log.entries@ == e0,
            c0 <= log.committed_len as int,
            commit_target(e0, followers@, quorum as int, current_term, c0) == commit_target(
                e0,
                followers@,
                quorum as int,
                current_term,
                log.committed_len as int,
            ),
            d0.len() == c0,
            forall|k: int| 0 <= k < c0 ==> #[trigger] log.delivered@[k] == d0[k],
            followers@.len() < usize::MAX,
        ensures
            log.wf(),
            log.entries@ == e0,
            c0 <= log.committed_len as int,
            forall|k: int| 0 <= k < c0 ==> #[trigger] log.delivered@[k] == d0[k],
            commit_target(e0, followers@, quorum as int, current_term, c0)
                == log.committed_len as int,
        decreases log.entries@.len() - log.committed_len,
    {
        if log.committed_len >= log.entries.len() {
            break;
        }
        let acks = count_acks(followers, log.committed_len);
        let term_here = log.entries[log.committed_len].term;
        if !(acks + 1 >= quorum && term_here == current_term) {
            break;
        }
        let ghost dpre = log.delivered@;
        let cmd = log.entries[log.committed_len].command;
        log.delivered.push(cmd);
        log.committed_len = log.committed_len + 1;
        log.applied_len = log.committed_len;
        proof {
            assert forall|k: int| 0 <= k < c0 implies #[trigger] log.delivered@[k] == d0[k] by {
                assert(log.delivered@[k] == dpre[k]);
            }
        }
    }
    proof {
        let c1 = log.committed_len as int;
        let rhs = d0 + e0.subrange(c0, c1).map_values(|le: LogEntry| le.command);
        assert(log.delivered@.len() == rhs.len());
        assert forall|k: int| 0 <= k < rhs.len() implies log.delivered@[k] == rhs[k] by {
            assert(log.delivered@[k] == e0[k].command);
            if k < c0 {
                assert(log.delivered@[k] == d0[k]);
            } else {
                assert(rhs[k] == e0.subrange(c0, c1).map_values(|le: LogEntry| le.command)[k
                    - c0]);
                assert(e0.subrange(c0, c1)[k - c0] == e0[k]);
            }
        }
        assert(log.delivered@ =~= rhs);
    }
}

/// What replication towards `target` emits: as a leader, one append
/// request per addressed follower, cut at what it is believed to hold;
/// otherwise nothing.
pub open spec fn replicate_post(s: RaftServer, target: Target, out: Seq<SendableMessage>) -> bool {
    match s.leadership_state {
        RaftLeadershipState::Leader(l) => match target {
            Target::Broadcast => broadcast_appends(
                out,
                s.peers@,
                l.followers@,
                s.current_term,
                s.id,
                s.log.entries@,
                s.log.committed_len as int,
            ),
            Target::Single(sid) => {
                if s.peers@.contains(sid) {
                    out.len() == 1 && append_request_msg(
                        out[0],
                        sid,
                        s.current_term,
                        s.id,
                        s.log.entries@,
                        s.log.committed_len as int,
                        l.followers@[peer_index(s.peers@, sid)].sent_up_to as int,
                    )
                } else {
                    out.len() == 0
                }
            },
        },
        _ => out.len() == 0,
    }
}

impl RaftServer {
    /// Well-formedness: a usable configuration, a duplicate-free peer list
    /// not containing self, a well-formed log, and the invariants of the
    /// current leadership state (unique votes containing self; one follower
    /// record per peer, none claiming more than the log holds).
    pub open spec fn wf(self) -> bool {
        &&& self.config.wf()
        &&& self.peers@.no_duplicates()
        &&& !self.peers@.contains(self.id)
        &&& self.peers@.len() < usize::MAX
        &&& self.log.wf()
        &&& match self.leadership_state {
            RaftLeadershipState::Follower(_) => true,
            RaftLeadershipState::Candidate(c) => c.votes_received@.no_duplicates()
                && c.votes_received@.contains(self.id),
            RaftLeadershipState::Leader(l) => l.followers@.len() == self.peers@.len() && forall|
                i: int,
            |
                0 <= i < l.followers@.len() ==> #[trigger] l.followers@[i].sent_up_to
                    <= self.log.entries@.len(),
        }
    }

    /// Build a replica: Follower at term 0 with an empty log, no vote cast,
    /// and a freshly randomized election timer. With a seed the generator is
    /// deterministic; without one it is seeded from system entropy.
    pub fn new(id: ServerId, peers: Vec<ServerId>, config: RaftConfig, seed: Option<u64>) -> (s:
        RaftServer)
        requires
            peers@.no_duplicates(),
            !peers@.contains(id),
            peers@.len() < usize::MAX,
            config.wf(),
        ensures
            s.wf(),
            s.id == id,
            s.peers == peers,
            s.config == config,
            s.current_term == 0,
            s.voted_for is None,
            s.log.entries@.len() == 0,
            s.log.committed_len == 0,
            s.log.applied_len == 0,
            s.log.delivered@.len() == 0,
            s.leadership_state matches RaftLeadershipState::Follower(f) && f.leader is None
                && in_election_window(config, f.election_time),
    {
        let mut rng = match seed {
            Some(n) => rng_from_seed(n),
            None => rng_from_entropy(),
        };
        let election_time = rng_jitter(
            &mut rng,
            config.election_timeout,
            config.election_timeout_jitter,
        );
        RaftServer {
            id,
            peers,
            config,
            current_term: 0,
            voted_for: None,
            log: Log::new(),
            leadership_state: RaftLeadershipState::Follower(FollowerState {
                election_time,
                leader: None,
            }),
            rng,
        }
    }

    /// The smallest majority of the full cluster (peers plus self).
    pub fn quorum_size(&self) -> (r: usize)
        requires
            self.peers@.len() < usize::MAX,
        ensures
            r as int == quorum_spec(self.peers@.len() as int),
    {
        (self.peers.len() + 1) / 2 + 1
    }

    /// Step down to Follower at `new_term`: clear the vote and the known
    /// leader, restart the election timer.
    fn reset_to_follower(&mut self, new_term: Term)
        requires
            old(self).wf(),
        ensures
            final(self).wf(),
            stepped_down(*old(self), *final(self), new_term),
    {
        self.current_term = new_term;
        self.voted_for = None;
        let timeout = self.config.election_timeout;
        let jitter = self.config.election_timeout_jitter;
        let et = rng_jitter(&mut self.rng, timeout, jitter);
        self.leadership_state = RaftLeadershipState::Follower(FollowerState {
            election_time: et,
            leader: None,
        });
    }

    /// One outbound AppendRequest to `to` for a follower believed to hold a
    /// prefix of length `sent`.
    fn make_append_request(&self, to: ServerId, sent: usize) -> (m: SendableMessage)
        requires
            sent <= self.log.entries@.len(),
        ensures
            append_request_msg(
                m,
                to,
                self.current_term,
                self.id,
                self.log.entries@,
                self.log.committed_len as int,
                sent as int,
            ),
    {
        let prev_term: Term = if sent == 0 {
            0
        } else {
            self.log.entries[sent - 1].term
        };
        let entries = copy_suffix(&self.log.entries, sent);
        (
            Target::Single(to),
            RPC::AppendRequest(AppendRequest {
                leader_term: self.current_term,
                leader_id: self.id,
                prev_len: sent,
                prev_term,
                entries,
                leader_commit: self.log.committed_len,
            }),
        )
    }

    /// Replicate our log towards `target`: an AppendRequest per addressed
    /// follower, starting where we believe its log ends. Does nothing unless
    /// we are a leader.
    #[verifier::loop_isolation(false)]
    fn replicate_log(&self, target: Target) -> (out: Vec<SendableMessage>)
        requires
            self.wf(),
        ensures
            replicate_post(*self, target, out@),
    {
        match &self.leadership_state {
            RaftLeadershipState::Leader(l) => {
                match target {
                    Target::Broadcast => {
                        let mut out: Vec<SendableMessage> = Vec::new();
                        let mut i: usize = 0;
                        while i < self.peers.len()
                            invariant
                                i <= self.peers@.len(),
                                out@.len() == i,
                                forall|k: int|
                                    0 <= k < i ==> #[trigger] append_request_msg(
                                        out@[k],
                                        self.peers@[k],
                                        self.current_term,
                                        self.id,
                                        self.log.entries@,
                                        self.log.committed_len as int,
                                        l.followers@[k].sent_up_to as int,
                                    ),
                            decreases self.peers@.len() - i,
                        {
                            let sent = l.followers[i].sent_up_to;
                            let m = self.make_append_request(self.peers[i], sent);
                            out.push(m);
                            i = i + 1;
                        }
                        out
                    },
                    Target::Single(sid) => {
                        match find_peer(&self.peers, sid) {
                            Some(i) => {
                                proof {
                                    assert(self.peers@[i as int] == sid);
                                    assert(self.peers@.contains(sid));
                                    let pi = peer_index(self.peers@, sid);
                                    assert(0 <= pi < self.peers@.len() && self.peers@[pi]
                                        == sid);
                                    assert(pi == i as int) by {
                                        assert(self.peers@[pi] == self.peers@[i as int]);
                                    }
                                }
                                let sent = l.followers[i].sent_up_to;
                                let m = self.make_append_request(sid, sent);
                                let mut out: Vec<SendableMessage> = Vec::new();
                                out.push(m);
                                out
                            },
                            None => Vec::new(),
                        }
                    },
                }
            },
            _ => Vec::new(),
        }
    }

    /// Start an election: enter the next term, vote for self, become a
    /// candidate with a fresh timer, and broadcast a VoteRequest. In a
    /// single-node cluster the lone vote is already a majority, so the
    /// replica becomes leader on the spot.
    fn start_election(&mut self) -> (out: Vec<SendableMessage>)
        requires
            old(self).wf(),
            old(self).current_term < u64::MAX,
        ensures
            final(self).wf(),
            protocol_frame(*old(self), *final(self)),
            election_started(*old(self), *final(self), out@),
    {
        self.current_term = self.current_term + 1;
        self.voted_for = Some(self.id);
        let timeout = self.config.election_timeout;
        let jitter = self.config.election_timeout_jitter;
        let et = rng_jitter(&mut self.rng, timeout, jitter);
        let q = self.quorum_size();
        let llt = self.log.last_term();
        let lli = self.log.last_idx();
        let mut out: Vec<SendableMessage> = Vec::new();
        out.push(
            (
                Target::Broadcast,
                RPC::VoteRequest(VoteRequest {
                    candidate_term: self.current_term,
                    candidate_id: self.id,
                    last_log_idx: lli,
                    last_log_term: llt,
                }),
            ),
        );
        if 1 >= q {
            // A lone vote is a majority only in a cluster of one.
            proof {
                assert(self.peers@.len() == 0);
            }
            let followers: Vec<NodeReplicationState> = Vec::new();
            self.leadership_state = RaftLeadershipState::Leader(LeaderState {
                followers,
                heartbeat_timeout: self.config.heartbeat_interval,
            });
        } else {
            let mut votes: Vec<ServerId> = Vec::new();
            votes.push(self.id);
            proof {
                assert(votes@ =~= seq![self.id]);
                assert(votes@[0] == self.id);
                assert(votes@.contains(self.id));
                assert(votes@.no_duplicates());
            }
            self.leadership_state = RaftLeadershipState::Candidate(CandidateState {
                election_time: et,
                votes_received: votes,
            });
        }
        out
    }

    /// Advance logical time by one tick and return what must be sent.
    pub fn tick(&mut self) -> (out: Vec<SendableMessage>)
        requires
            old(self).wf(),
            old(self).current_term < u64::MAX,
        ensures
            final(self).wf(),
            protocol_frame(*old(self), *final(self)),
            tick_post(*old(self), *final(self), out@),
    {
        match &self.leadership_state {
            RaftLeadershipState::Follower(f) => {
                let et1 = saturating_dec(f.election_time);
                let leader = f.leader;
                if et1 == 0 {
                    self.start_election()
                } else {
                    self.leadership_state = RaftLeadershipState::Follower(FollowerState {
                        election_time: et1,
                        leader,
                    });
                    Vec::new()
                }
            },
            RaftLeadershipState::Candidate(c) => {
                let et1 = saturating_dec(c.election_time);
                if et1 == 0 {
                    self.start_election()
                } else {
                    let votes = copy_vec(&c.votes_received);
                    self.leadership_state = RaftLeadershipState::Candidate(CandidateState {
                        election_time: et1,
                        votes_received: votes,
                    });
                    Vec::new()
                }
            },
            RaftLeadershipState::Leader(l) => {
                let hb1 = saturating_dec(l.heartbeat_timeout);
                let followers = copy_vec(&l.followers);
                if hb1 == 0 {
                    self.leadership_state = RaftLeadershipState::Leader(LeaderState {
                        followers,
                        heartbeat_timeout: self.config.heartbeat_interval,
                    });
                    self.replicate_log(Target::Broadcast)
                } else {
                    self.leadership_state = RaftLeadershipState::Leader(LeaderState {
                        followers,
                        heartbeat_timeout: hb1,
                    });
                    Vec::new()
                }
            },
        }
    }

    /// Handle a VoteRequest: step down if the candidate's term is
    /// newer, grant the vote iff the candidate's log is up to date, its term
    /// current, and our vote free or already theirs; reply either way.
    pub fn rpc_vote_request(&mut self, req: &VoteRequest) -> (out: Vec<SendableMessage>)
        requires
            old(self).wf(),
        ensures
            final(self).wf(),
            protocol_frame(*old(self), *final(self)),
            vote_request_post(*old(self), *final(self), *req, out@),
    {
        if req.candidate_term > self.current_term {
            self.reset_to_follower(req.candidate_term);
        }
        let llt = self.log.last_term();
        let lli = self.log.last_idx();
        let log_ok = req.last_log_term > llt || (req.last_log_term == llt && req.last_log_idx
            >= lli);
        let term_ok = req.candidate_term == self.current_term;
        let vote_free = match self.voted_for {
            Some(v) => v == req.candidate_id,
            None => true,
        };
        let granted = log_ok && term_ok && vote_free;
        if granted {
            self.voted_for = Some(req.candidate_id);
        }
        let resp = VoteResponse { voter_id: self.id, term: self.current_term, granted };
        let mut out: Vec<SendableMessage> = Vec::new();
        out.push((Target::Single(req.candidate_id), RPC::VoteResponse(resp)));
        out
    }

    /// Handle a VoteResponse: step down on a newer term; as a candidate
    /// of the response's term, record a granted vote, and on reaching quorum
    /// become leader, initialise every follower to the full log, and
    /// broadcast appends.
    #[verifier::loop_isolation(false)]
    pub fn rpc_vote_response(&mut self, res: &VoteResponse) -> (out: Vec<SendableMessage>)
        requires
            old(self).wf(),
        ensures
            final(self).wf(),
            protocol_frame(*old(self), *final(self)),
            vote_response_post(*old(self), *final(self), *res, out@),
    {
        if res.term > self.current_term {
            self.reset_to_follower(res.term);
            return Vec::new();
        }
        let (votes0, et) = match &self.leadership_state {
            RaftLeadershipState::Candidate(c) => {
                if res.term == self.current_term && res.granted {
                    (copy_vec(&c.votes_received), c.election_time)
                } else {
                    return Vec::new();
                }
            },
            _ => {
                return Vec::new();
            },
        };
        let mut votes = votes0;
        if !vec_contains(&votes, res.voter_id) {
            proof {
                let v0 = votes@;
                let v1 = v0.push(res.voter_id);
                assert forall|i: int, j: int|
                    (0 <= i < v1.len() && 0 <= j < v1.len() && i != j) implies v1[i]
                    != v1[j] by {
                    if i < v0.len() && j < v0.len() {
                        assert(v0[i] == v1[i] && v0[j] == v1[j]);
                    } else if i == v0.len() && j < v0.len() {
                        assert(v1[j] == v0[j]);
                        if v1[i] == v1[j] {
                            assert(v0.contains(res.voter_id));
                        }
                    } else if j == v0.len() && i < v0.len() {
                        assert(v1[i] == v0[i]);
                        if v1[i] == v1[j] {
                            assert(v0.contains(res.voter_id));
                        }
                    }
                }
                assert(v1.no_duplicates());
                let kw = choose|kw: int| 0 <= kw < v0.len() && v0[kw] == old(self).id;
                assert(v1[kw] == old(self).id);
                assert(v1.contains(old(self).id));
            }
            votes.push(res.voter_id);
        }
        let q = self.quorum_size();
        if votes.len() >= q {
            // We won the election: lead this term, believing every follower
            // already holds our whole log until it says otherwise.
            let n = self.peers.len();
            let len = self.log.entries.len();
            let mut followers: Vec<NodeReplicationState> = Vec::new();
            let mut i: usize = 0;
            while i < n
                invariant
                    i <= n,
                    followers@.len() == i,
                    forall|k: int|
                        0 <= k < i ==> #[trigger] followers@[k] == (NodeReplicationState {
                            sent_up_to: len,
                            acked_up_to: 0,
                        }),
                decreases n - i,
            {
                followers.push(NodeReplicationState { sent_up_to: len, acked_up_to: 0 });
                i = i + 1;
            }
            proof {
                assert forall|k: int|
                    0 <= k < followers@.len() implies #[trigger] followers@[k].sent_up_to
                    <= self.log.entries@.len() by {
                    assert(followers@[k] == (NodeReplicationState {
                        sent_up_to: len,
                        acked_up_to: 0,
                    }));
                }
            }
            self.leadership_state = RaftLeadershipState::Leader(LeaderState {
                followers,
                heartbeat_timeout: self.config.heartbeat_interval,
            });
            self.replicate_log(Target::Broadcast)
        } else {
            self.leadership_state = RaftLeadershipState::Candidate(CandidateState {
                election_time: et,
                votes_received: votes,
            });
            Vec::new()
        }
    }

    /// Handle an AppendRequest: step down on a newer term, or on an
    /// equal term while candidate or leader (keeping the vote); as a follower
    /// of the sender's term, record the leader, reset the election timer, run
    /// the consistency check and splice; refuse stale leaders with our term.
    pub fn rpc_append_request(&mut self, req: &AppendRequest) -> (r: Result<
        Vec<SendableMessage>,
        FatalError,
    >)
        requires
            old(self).wf(),
        ensures
            final(self).wf(),
            protocol_frame(*old(self), *final(self)),
            append_request_post(*old(self), *final(self), *req, r),
    {
        if req.leader_term > self.current_term {
            self.reset_to_follower(req.leader_term);
        }
        if !self.is_follower() {
            if req.leader_term == self.current_term {
                // Another replica legitimately leads this term: rejoin it as
                // a follower, keeping our vote.
                let timeout = self.config.election_timeout;
                let jitter = self.config.election_timeout_jitter;
                let et = rng_jitter(&mut self.rng, timeout, jitter);
                self.leadership_state = RaftLeadershipState::Follower(FollowerState {
                    election_time: et,
                    leader: None,
                });
            } else {
                // Candidates and leaders ignore a stale leader entirely.
                return Ok(Vec::new());
            }
        }
        if req.leader_term == self.current_term {
            // Accept the sender as the leader of this term and reset the
            // election timer.
            let timeout = self.config.election_timeout;
            let jitter = self.config.election_timeout_jitter;
            let et = rng_jitter(&mut self.rng, timeout, jitter);
            self.leadership_state = RaftLeadershipState::Follower(FollowerState {
                election_time: et,
                leader: Some(req.leader_id),
            });
            let prefix_len = req.prev_len;
            let prefix_ok = self.log.entries.len() >= prefix_len && (prefix_len == 0
                || self.log.entries[prefix_len - 1].term == req.prev_term);
            let ghost pre_log = self.log;
            if prefix_ok {
                match self.log.append_entries(prefix_len, req.leader_commit, &req.entries) {
                    Ok(()) => {},
                    Err(f2) => {
                        return Err(f2);
                    },
                }
                proof {
                    let e = pre_log.entries@;
                    let b = req.entries@;
                    let p = prefix_len as int;
                    let c = pre_log.committed_len as int;
                    lemma_mismatch_point(e, p, b);
                    lemma_splice_preserves_prefix(e, p, b, c);
                    assert forall|i: int| 0 <= i < c implies #[trigger] self.log.entries@[i]
                        == e[i] by {
                        assert(splice(e, p, b)[i] == e[i]);
                    }
                }
                let ack = self.log.entries.len();
                let resp = AppendResponse {
                    follower_id: self.id,
                    term: self.current_term,
                    ok: true,
                    ack_len: ack,
                };
                let mut out: Vec<SendableMessage> = Vec::new();
                out.push((Target::Single(req.leader_id), RPC::AppendResponse(resp)));
                Ok(out)
            } else {
                let resp = AppendResponse {
                    follower_id: self.id,
                    term: self.current_term,
                    ok: false,
                    ack_len: self.log.entries.len(),
                };
                let mut out: Vec<SendableMessage> = Vec::new();
                out.push((Target::Single(req.leader_id), RPC::AppendResponse(resp)));
                Ok(out)
            }
        } else {
            // A follower refuses a stale leader, telling it our term.
            let resp = AppendResponse {
                follower_id: self.id,
                term: self.current_term,
                ok: false,
                ack_len: self.log.entries.len(),
            };
            let mut out: Vec<SendableMessage> = Vec::new();
            out.push((Target::Single(req.leader_id), RPC::AppendResponse(resp)));
            Ok(out)
        }
    }

    /// Handle an AppendResponse: step down on a newer term; as the
    /// leader of the response's term, record a fresh acknowledgement and
    /// advance the commit cursor, or back the probe up by one entry and
    /// resend to that follower; inconsistent responses are fatal, stale ones
    /// are ignored.
    pub fn rpc_append_response(&mut self, res: &AppendResponse) -> (r: Result<
        Vec<SendableMessage>,
        FatalError,
    >)
        requires
            old(self).wf(),
        ensures
            final(self).wf(),
            protocol_frame(*old(self), *final(self)),
            append_response_post(*old(self), *final(self), *res, r),
    {
        if res.term > self.current_term {
            self.reset_to_follower(res.term);
            return Ok(Vec::new());
        }
        let (followers0, hb) = match &self.leadership_state {
            RaftLeadershipState::Leader(l) => {
                if res.term == self.current_term {
                    (copy_vec(&l.followers), l.heartbeat_timeout)
                } else {
                    return Ok(Vec::new());
                }
            },
            _ => {
                return Ok(Vec::new());
            },
        };
        let idx = match find_peer(&self.peers, res.follower_id) {
            Some(i) => i,
            None => {
                return Err(FatalError::UnknownFollower);
            },
        };
        proof {
            assert(self.peers@[idx as int] == res.follower_id);
            assert(self.peers@.contains(res.follower_id));
            let pi = peer_index(self.peers@, res.follower_id);
            assert(0 <= pi < self.peers@.len() && self.peers@[pi] == res.follower_id);
            assert(pi == idx as int) by {
                assert(self.peers@[pi] == self.peers@[idx as int]);
            }
        }
        let fs = followers0[idx];
        if res.ok && res.ack_len >= fs.acked_up_to {
            if res.ack_len > self.log.entries.len() {
                return Err(FatalError::AckOutOfRange);
            }
            let mut followers = followers0;
            followers.set(
                idx,
                NodeReplicationState { sent_up_to: res.ack_len, acked_up_to: res.ack_len },
            );
            let q = self.quorum_size();
            commit_log_entries(&mut self.log, &followers, q, self.current_term);
            proof {
                assert forall|i: int|
                    0 <= i < followers@.len() implies #[trigger] followers@[i].sent_up_to
                    <= self.log.entries@.len() by {
                    if i != idx as int {
                        assert(followers@[i] == followers0@[i]);
                    }
                }
            }
            self.leadership_state = RaftLeadershipState::Leader(LeaderState {
                followers,
                heartbeat_timeout: hb,
            });
            Ok(Vec::new())
        } else if !res.ok && fs.sent_up_to > 0 {
            let mut followers = followers0;
            followers.set(
                idx,
                NodeReplicationState {
                    sent_up_to: fs.sent_up_to - 1,
                    acked_up_to: fs.acked_up_to,
                },
            );
            proof {
                assert forall|i: int|
                    0 <= i < followers@.len() implies #[trigger] followers@[i].sent_up_to
                    <= self.log.entries@.len() by {
                    if i != idx as int {
                        assert(followers@[i] == followers0@[i]);
                    } else {
                        assert(followers0@[idx as int].sent_up_to <= self.log.entries@.len());
                    }
                }
            }
            self.leadership_state = RaftLeadershipState::Leader(LeaderState {
                followers,
                heartbeat_timeout: hb,
            });
            Ok(self.replicate_log(Target::Single(res.follower_id)))
        } else if !res.ok {
            // The whole log was already being resent and the follower still
            // refused: a protocol-level inconsistency.
            Err(FatalError::ReplicationInconsistency)
        } else {
            // A stale acknowledgement; nothing to learn from it.
            Ok(Vec::new())
        }
    }

    /// Dispatch an incoming message to its handler.
    pub fn receive_rpc(&mut self, rpc: &RPC) -> (r: Result<Vec<SendableMessage>, FatalError>)
        requires
            old(self).wf(),
        ensures
            final(self).wf(),
            protocol_frame(*old(self), *final(self)),
            (*rpc matches RPC::VoteRequest(req) ==> r matches Ok(out) && vote_request_post(
                *old(self),
                *final(self),
                req,
                out@,
            )),
            (*rpc matches RPC::VoteResponse(res) ==> r matches Ok(out) && vote_response_post(
                *old(self),
                *final(self),
                res,
                out@,
            )),
            (*rpc matches RPC::AppendRequest(req) ==> append_request_post(
                *old(self),
                *final(self),
                req,
                r,
            )),
            (*rpc matches RPC::AppendResponse(res) ==> append_response_post(
                *old(self),
                *final(self),
                res,
                r,
            )),
    {
        match rpc {
            RPC::VoteRequest(req) => Ok(self.rpc_vote_request(req)),
            RPC::VoteResponse(res) => Ok(self.rpc_vote_response(res)),
            RPC::AppendRequest(req) => self.rpc_append_request(req),
            RPC::AppendResponse(res) => self.rpc_append_response(res),
        }
    }

    /// Submit a command: a leader appends it under its own term,
    /// advances the commit cursor where a quorum already allows it, and
    /// broadcasts appends; any other replica refuses with the last known
    /// leader.
    pub fn client_request(&mut self, msg: Command) -> (r: Result<Vec<SendableMessage>, ClientError>)
        requires
            old(self).wf(),
        ensures
            final(self).wf(),
            protocol_frame(*old(self), *final(self)),
            client_request_post(*old(self), *final(self), msg, r),
    {
        let (followers, hb) = match &self.leadership_state {
            RaftLeadershipState::Leader(l) => (copy_vec(&l.followers), l.heartbeat_timeout),
            RaftLeadershipState::Follower(f) => {
                return Err(ClientError::NotLeader(f.leader));
            },
            RaftLeadershipState::Candidate(_) => {
                return Err(ClientError::NotLeader(None));
            },
        };
        let entry = LogEntry { term: self.current_term, command: msg };
        self.log.entries.push(entry);
        let q = self.quorum_size();
        commit_log_entries(&mut self.log, &followers, q, self.current_term);
        proof {
            let ls = self.leadership_state->Leader_0;
            assert forall|i: int|
                0 <= i < ls.followers@.len() implies #[trigger] ls.followers@[i].sent_up_to
                <= self.log.entries@.len() by {
                assert(ls.followers@[i].sent_up_to <= old(self).log.entries@.len());
            }
        }
        Ok(self.replicate_log(Target::Broadcast))
    }

    /// Whether this replica currently leads.
    pub fn is_leader(&self) -> (r: bool)
        ensures
            r == (self.leadership_state is Leader),
    {
        match self.leadership_state {
            RaftLeadershipState::Leader(_) => true,
            _ => false,
        }
    }

    /// Whether this replica is campaigning.
    pub fn is_candidate(&self) -> (r: bool)
        ensures
            r == (self.leadership_state is Candidate),
    {
        match self.leadership_state {
            RaftLeadershipState::Candidate(_) => true,
            _ => false,
        }
    }

    /// Whether this replica is following.
    pub fn is_follower(&self) -> (r: bool)
        ensures
            r == (self.leadership_state is Follower),
    {
        match self.leadership_state {
            RaftLeadershipState::Follower(_) => true,
            _ => false,
        }
    }
}

} // verus!
