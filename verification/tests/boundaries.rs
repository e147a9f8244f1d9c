use raft_core::errors::{ClientError, FatalError};
use raft_core::log::LogEntry;
use raft_core::rpc::{AppendRequest, Target, VoteRequest, RPC};
use raft_core::server::{
    LeaderState, NodeReplicationState, RaftConfig, RaftLeadershipState, RaftServer,
};

fn test_config() -> RaftConfig {
    RaftConfig { election_timeout: 10, election_timeout_jitter: 0, heartbeat_interval: 2 }
}

fn node(id: usize, peers: Vec<usize>) -> RaftServer {
    RaftServer::new(id, peers, test_config(), Some(0))
}

#[test]
fn empty_log_bounds() {
    let s = node(0, vec![1]);
    assert_eq!(s.log.last_idx(), 0);
    assert_eq!(s.log.last_term(), 0);

    // An append whose claimed prefix is empty always passes the consistency
    // check, even against a non-empty log.
    let mut f = node(1, vec![0]);
    f.log.entries = vec![LogEntry { term: 0, command: 5 }, LogEntry { term: 0, command: 6 }];
    let req = AppendRequest {
        leader_term: 0,
        leader_id: 0,
        prev_len: 0,
        prev_term: 0,
        entries: vec![],
        leader_commit: 0,
    };
    let replies = f.receive_rpc(&RPC::AppendRequest(req)).unwrap();
    match &replies[0].1 {
        RPC::AppendResponse(r) => {
            assert!(r.ok);
            assert_eq!(r.ack_len, 2);
        }
        _ => panic!(),
    }
    assert_eq!(f.log.entries.len(), 2);
}

#[test]
fn single_node_cluster() {
    let mut s = node(0, vec![]);
    assert_eq!(s.quorum_size(), 1);

    // The node elects itself on the first election timeout.
    let mut out = Vec::new();
    for _ in 0..10 {
        out = s.tick();
    }
    assert!(s.is_leader());
    assert_eq!(s.current_term, 1);
    assert_eq!(out.len(), 1);
    assert!(matches!(out[0], (Target::Broadcast, RPC::VoteRequest(_))));

    // Every submitted entry commits immediately.
    let msgs = s.client_request(7).unwrap();
    assert!(msgs.is_empty());
    assert_eq!(s.log.committed_len, 1);
    assert_eq!(s.log.delivered, vec![7]);
    s.client_request(8).unwrap();
    assert_eq!(s.log.committed_len, 2);
    assert_eq!(s.log.delivered, vec![7, 8]);
}

#[test]
fn jitter_samples_within_window() {
    let cfg = RaftConfig { election_timeout: 10, election_timeout_jitter: 3, heartbeat_interval: 2 };
    for seed in 0..200u64 {
        let s = RaftServer::new(0, vec![1, 2], cfg, Some(seed));
        match &s.leadership_state {
            RaftLeadershipState::Follower(f) => {
                assert!(7 <= f.election_time && f.election_time <= 13);
            }
            _ => panic!(),
        }
    }
}

#[test]
fn vote_request_idempotent() {
    let mut f = node(1, vec![0, 2]);
    let req = VoteRequest { candidate_term: 3, candidate_id: 0, last_log_idx: 0, last_log_term: 0 };
    let first = f.receive_rpc(&RPC::VoteRequest(req.clone())).unwrap();
    let second = f.receive_rpc(&RPC::VoteRequest(req)).unwrap();
    assert_eq!(first, second);
    match &first[0].1 {
        RPC::VoteResponse(v) => {
            assert!(v.granted);
            assert_eq!(v.term, 3);
        }
        _ => panic!(),
    }
    assert_eq!(f.voted_for, Some(0));
}

#[test]
fn append_request_idempotent() {
    let mut f = node(1, vec![0]);
    let req = AppendRequest {
        leader_term: 1,
        leader_id: 0,
        prev_len: 0,
        prev_term: 0,
        entries: vec![LogEntry { term: 1, command: 1 }, LogEntry { term: 1, command: 2 }],
        leader_commit: 1,
    };
    let first = f.receive_rpc(&RPC::AppendRequest(req.clone())).unwrap();
    let log_after_first = f.log.entries.clone();
    let delivered_after_first = f.log.delivered.clone();
    let second = f.receive_rpc(&RPC::AppendRequest(req)).unwrap();
    assert_eq!(first, second);
    assert_eq!(f.log.entries, log_after_first);
    assert_eq!(f.log.delivered, delivered_after_first);
    assert_eq!(f.log.committed_len, 1);
    assert_eq!(f.log.delivered, vec![1]);
}

#[test]
fn client_request_refused_off_leader() {
    let mut f = node(1, vec![0]);
    assert_eq!(f.client_request(9), Err(ClientError::NotLeader(None)));

    // Once a leader is known, the refusal names it.
    let req = AppendRequest {
        leader_term: 1,
        leader_id: 0,
        prev_len: 0,
        prev_term: 0,
        entries: vec![],
        leader_commit: 0,
    };
    f.receive_rpc(&RPC::AppendRequest(req)).unwrap();
    assert_eq!(f.client_request(9), Err(ClientError::NotLeader(Some(0))));

    // A candidate has no known leader.
    let mut c = node(2, vec![0, 1]);
    for _ in 0..10 {
        c.tick();
    }
    assert!(c.is_candidate());
    assert_eq!(c.client_request(9), Err(ClientError::NotLeader(None)));
}

#[test]
fn committed_conflict_is_fatal() {
    // Two committed entries; a new leader's batch contradicts the second.
    let mut f = node(1, vec![0, 2]);
    let setup = AppendRequest {
        leader_term: 1,
        leader_id: 0,
        prev_len: 0,
        prev_term: 0,
        entries: vec![LogEntry { term: 1, command: 1 }, LogEntry { term: 1, command: 2 }],
        leader_commit: 2,
    };
    f.receive_rpc(&RPC::AppendRequest(setup)).unwrap();
    assert_eq!(f.log.committed_len, 2);

    let conflicting = AppendRequest {
        leader_term: 2,
        leader_id: 2,
        prev_len: 1,
        prev_term: 1,
        entries: vec![LogEntry { term: 2, command: 3 }],
        leader_commit: 0,
    };
    assert_eq!(
        f.receive_rpc(&RPC::AppendRequest(conflicting)),
        Err(FatalError::CommittedConflict)
    );
    // The log itself was left untouched.
    assert_eq!(f.log.entries.len(), 2);
    assert_eq!(f.log.committed_len, 2);
}

#[test]
fn replication_inconsistency_is_fatal() {
    let mut leader = node(0, vec![1]);
    leader.current_term = 1;
    leader.leadership_state = RaftLeadershipState::Leader(LeaderState {
        followers: vec![NodeReplicationState { sent_up_to: 0, acked_up_to: 0 }],
        heartbeat_timeout: 2,
    });
    let refuse = raft_core::rpc::AppendResponse { follower_id: 1, term: 1, ok: false, ack_len: 0 };
    assert_eq!(
        leader.receive_rpc(&RPC::AppendResponse(refuse)),
        Err(FatalError::ReplicationInconsistency)
    );
}

#[test]
fn ack_beyond_log_is_fatal() {
    let mut leader = node(0, vec![1]);
    leader.current_term = 1;
    leader.leadership_state = RaftLeadershipState::Leader(LeaderState {
        followers: vec![NodeReplicationState { sent_up_to: 0, acked_up_to: 0 }],
        heartbeat_timeout: 2,
    });
    let bogus = raft_core::rpc::AppendResponse { follower_id: 1, term: 1, ok: true, ack_len: 5 };
    assert_eq!(
        leader.receive_rpc(&RPC::AppendResponse(bogus)),
        Err(FatalError::AckOutOfRange)
    );
}

#[test]
fn quorum_sizes() {
    assert_eq!(node(0, vec![]).quorum_size(), 1);
    assert_eq!(node(0, vec![1]).quorum_size(), 2);
    assert_eq!(node(0, vec![1, 2]).quorum_size(), 2);
    assert_eq!(node(0, vec![1, 2, 3]).quorum_size(), 3);
    assert_eq!(node(0, vec![1, 2, 3, 4]).quorum_size(), 3);
}
