use vstd::prelude::*;

use crate::log::{
    advance_commit, last_term_of, lemma_mismatch_point, lemma_mismatch_point_is, matches_at,
    mismatch_point, prefix_matches, splice, splice_conflicts_committed, LogEntry,
};
use crate::rpc::VoteRequest;
use crate::server::{
    commit_target, count_acked, quorum_spec, term_after, vote_response_spec, voted_for_after,
    NodeReplicationState, ServerId, Term,
};

verus! {

/// Receiving the same VoteRequest twice from the same candidate in the same
/// term yields the same VoteResponse, and the second call leaves the durable
/// state exactly where the first one put it. (A vote request never changes
/// the log, so the second decision sees the same last term and length.)
pub proof fn lemma_vote_request_idempotent(
    id: ServerId,
    ct: Term,
    vf: Option<ServerId>,
    llt: Term,
    lli: int,
    req: VoteRequest,
)
    ensures
        vote_response_spec(
            id,
            term_after(ct, req.candidate_term),
            voted_for_after(ct, vf, llt, lli, req),
            llt,
            lli,
            req,
        ) == vote_response_spec(id, ct, vf, llt, lli, req),
        voted_for_after(
            term_after(ct, req.candidate_term),
            voted_for_after(ct, vf, llt, lli, req),
            llt,
            lli,
            req,
        ) == voted_for_after(ct, vf, llt, lli, req),
        term_after(term_after(ct, req.candidate_term), req.candidate_term) == term_after(
            ct,
            req.candidate_term,
        ),
{
}

/// A follower that accepts an AppendRequest accepts the identical request
/// again, and the second splice is a no-op: the log, the commit cursor, and
/// therefore the deliveries do not change.
pub proof fn lemma_append_request_idempotent(
    e: Seq<LogEntry>,
    c: int,
    p: int,
    pt: Term,
    b: Seq<LogEntry>,
    lc: int,
)
    requires
        0 <= p,
        0 <= c <= e.len(),
        prefix_matches(e, p, pt),
        !splice_conflicts_committed(e, p, b, c),
    ensures
        ({
            let e1 = splice(e, p, b);
            let c1 = advance_commit(c, lc, e1.len() as int);
            &&& prefix_matches(e1, p, pt)
            &&& !splice_conflicts_committed(e1, p, b, c1)
            &&& splice(e1, p, b) == e1
            &&& advance_commit(c1, lc, splice(e1, p, b).len() as int) == c1
        }),
{
    lemma_mismatch_point(e, p, b);
    let mp = mismatch_point(e, p, b);
    let e1 = splice(e, p, b);
    if mp < b.len() {
        if mp > 0 {
            assert(matches_at(e, p, b, mp - 1));
        }
        assert(p + mp <= e.len());
        assert(e1.len() == p + b.len());
        assert forall|k: int| 0 <= k < b.len() implies matches_at(e1, p, b, k) by {
            if k < mp {
                assert(matches_at(e, p, b, k));
                assert(e1[p + k] == e.take(p + mp)[p + k]);
            } else {
                assert(e1[p + k] == b.skip(mp)[p + k - (p + mp)]);
                assert(b.skip(mp)[k - mp] == b[k]);
            }
        }
        lemma_mismatch_point_is(e1, p, b, b.len() as int);
        if p > 0 {
            assert(e1[p - 1] == e.take(p + mp)[p - 1]);
        }
    }
}

/// An empty log reports last term 0 and last index 0, and an append whose
/// claimed prefix is empty passes the consistency check against any log.
pub proof fn lemma_empty_log(e: Seq<LogEntry>, pt: Term)
    ensures
        last_term_of(Seq::<LogEntry>::empty()) == 0,
        Seq::<LogEntry>::empty().len() == 0,
        prefix_matches(e, 0, pt),
{
}

/// A quorum is a strict majority of the full cluster of `n_peers + 1`
/// servers, so two quorums always share a member.
pub proof fn lemma_quorum_majority(n_peers: int)
    requires
        0 <= n_peers,
    ensures
        2 * quorum_spec(n_peers) > n_peers + 1,
{
}

/// A cluster of one has quorum 1, so the lone replica's own acknowledgement
/// commits every entry of its own term at once.
pub proof fn lemma_single_node_commits(e: Seq<LogEntry>, ct: Term, c: int)
    requires
        0 <= c <= e.len(),
        forall|i: int| c <= i < e.len() ==> #[trigger] e[i].term == ct,
    ensures
        quorum_spec(0) == 1,
        commit_target(e, Seq::<NodeReplicationState>::empty(), 1, ct, c) == e.len(),
    decreases e.len() - c,
{
    if c < e.len() {
        assert(count_acked(Seq::<NodeReplicationState>::empty(), c) == 0);
        assert(e[c].term == ct);
        lemma_single_node_commits(e, ct, c + 1);
    }
}

} // verus!

