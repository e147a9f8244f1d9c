use std::collections::HashMap;

use raft_core::rpc::{Target, RPC};
use raft_core::server::{RaftConfig, RaftServer};

fn test_config() -> RaftConfig {
    RaftConfig { election_timeout: 10, election_timeout_jitter: 2, heartbeat_interval: 2 }
}

/// A small deterministic generator driving the delivery schedule.
struct Lcg(u64);

impl Lcg {
    fn next(&mut self) -> u64 {
        self.0 = self.0.wrapping_mul(6364136223846793005).wrapping_add(1442695040888963407);
        self.0 >> 33
    }
}

struct Cluster {
    nodes: Vec<RaftServer>,
    /// A replica that surfaced a fatal protocol inconsistency has aborted,
    /// as the design demands, and takes no further part in the run.
    alive: Vec<bool>,
    /// Undelivered messages, each addressed to one node.
    wire: Vec<(usize, RPC)>,
    /// Leader observed for each term.
    leaders: HashMap<u64, usize>,
    /// Vote observed for each (node, term).
    votes: HashMap<(usize, u64), usize>,
    /// Entries frozen at the greatest committed length observed per node.
    committed: Vec<Vec<raft_core::log::LogEntry>>,
    terms: Vec<u64>,
}

impl Cluster {
    fn new(n: usize) -> Cluster {
        let mut nodes = Vec::new();
        for id in 0..n {
            let peers: Vec<usize> = (0..n).filter(|p| *p != id).collect();
            nodes.push(RaftServer::new(id, peers, test_config(), Some(id as u64)));
        }
        Cluster {
            nodes,
            alive: vec![true; n],
            wire: Vec::new(),
            leaders: HashMap::new(),
            votes: HashMap::new(),
            committed: vec![Vec::new(); n],
            terms: vec![0; n],
        }
    }

    fn post(&mut self, from: usize, msgs: Vec<(Target, RPC)>) {
        let peers: Vec<usize> = (0..self.nodes.len()).filter(|p| *p != from).collect();
        for (target, rpc) in msgs {
            match target {
                Target::Single(to) => self.wire.push((to, rpc)),
                Target::Broadcast => {
                    for p in &peers {
                        self.wire.push((*p, rpc.clone()));
                    }
                }
            }
        }
    }

    fn check_invariants(&mut self) {
        // Terms only grow on every replica.
        for (i, s) in self.nodes.iter().enumerate() {
            assert!(s.current_term >= self.terms[i], "term decreased on {}", i);
            self.terms[i] = s.current_term;
        }
        // At most one leader per term.
        for (i, s) in self.nodes.iter().enumerate() {
            if s.is_leader() {
                let prev = self.leaders.entry(s.current_term).or_insert(i);
                assert_eq!(*prev, i, "two leaders in term {}", s.current_term);
            }
        }
        // A vote, once cast in a term, never moves to another candidate.
        for (i, s) in self.nodes.iter().enumerate() {
            if let Some(v) = s.voted_for {
                let prev = self.votes.entry((i, s.current_term)).or_insert(v);
                assert_eq!(*prev, v, "vote changed within a term on {}", i);
            }
        }
        // Log matching: equal terms at an index mean equal prefixes.
        for a in &self.nodes {
            for b in &self.nodes {
                let n = a.log.entries.len().min(b.log.entries.len());
                for i in 0..n {
                    if a.log.entries[i].term == b.log.entries[i].term {
                        assert_eq!(
                            a.log.entries[..=i],
                            b.log.entries[..=i],
                            "log matching violated"
                        );
                    }
                }
            }
        }
        // Commit durability: a committed prefix never changes afterwards.
        for (i, s) in self.nodes.iter().enumerate() {
            let c = s.log.committed_len;
            assert!(c >= self.committed[i].len(), "commit cursor went backwards");
            assert_eq!(
                &s.log.entries[..self.committed[i].len()],
                &self.committed[i][..],
                "a committed entry changed on {}",
                i
            );
            self.committed[i] = s.log.entries[..c].to_vec();
        }
        // Nor may two replicas disagree on a mutually committed prefix.
        for a in &self.nodes {
            for b in &self.nodes {
                let c = a.log.committed_len.min(b.log.committed_len);
                assert_eq!(&a.log.entries[..c], &b.log.entries[..c]);
            }
        }
        // Delivery order: exactly the committed prefix, in order.
        for s in &self.nodes {
            assert_eq!(s.log.applied_len, s.log.committed_len);
            let expect: Vec<u64> =
                s.log.entries[..s.log.applied_len].iter().map(|e| e.command).collect();
            assert_eq!(s.log.delivered, expect);
        }
    }
}

#[test]
fn invariants_hold_over_random_runs() {
    let mut elections = 0;
    for seed in 0..8u64 {
        let mut cluster = Cluster::new(3);
        let mut rng = Lcg(seed);
        let mut submitted: u64 = 0;
        for _step in 0..600 {
            let roll = rng.next() % 10;
            if roll < 4 && !cluster.wire.is_empty() {
                // Deliver one pending message, in pseudo-random order.
                let k = (rng.next() as usize) % cluster.wire.len();
                let (to, rpc) = cluster.wire.swap_remove(k);
                if cluster.alive[to] {
                    match cluster.nodes[to].receive_rpc(&rpc) {
                        Ok(out) => cluster.post(to, out),
                        Err(_) => {
                            // A fatal inconsistency aborts the replica.
                            cluster.alive[to] = false;
                        }
                    }
                }
            } else if roll < 5 {
                // Drop a message: the protocol must tolerate loss.
                if !cluster.wire.is_empty() {
                    let k = (rng.next() as usize) % cluster.wire.len();
                    cluster.wire.swap_remove(k);
                }
            } else if roll < 6 {
                // A client tries some replica.
                let who = (rng.next() as usize) % cluster.nodes.len();
                if cluster.alive[who] {
                    submitted += 1;
                    if let Ok(msgs) = cluster.nodes[who].client_request(1000 * seed + submitted) {
                        cluster.post(who, msgs);
                    }
                }
            } else {
                // Time passes everywhere.
                for i in 0..cluster.nodes.len() {
                    if cluster.alive[i] {
                        let out = cluster.nodes[i].tick();
                        cluster.post(i, out);
                    }
                }
            }
            cluster.check_invariants();
        }
        elections += cluster.leaders.len();
    }
    // The runs should have made progress: leaders were elected.
    assert!(elections > 0, "no leader was ever elected");
}
