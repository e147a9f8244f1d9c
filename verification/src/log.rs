use vstd::prelude::*;

use crate::errors::FatalError;
use crate::server::Term;

verus! {

/// Semantic position in the log: the length of a prefix. 0 names the empty
/// prefix; the entry "at" index `i` is the last entry of the prefix of length `i`.
pub type LogIndex = usize;

/// An application command carried by a log entry, modelled as a plain 64-bit
/// value. The replica never inspects a command; it only orders and delivers it.
pub type Command = u64;

/// A single replicated entry: a command together with the term of the leader
/// that first created it.
#[derive(Clone, Copy, PartialEq, Eq, Structural, Debug)]
pub struct LogEntry {
    pub term: Term,
    pub command: Command,
}

/// The replicated log with its cursors, plus the record of every command that
/// has been handed to the application, in delivery order.
pub struct Log {
    /// The entries themselves, oldest first.
    pub entries: Vec<LogEntry>,
    /// Number of leading entries known to be committed.
    pub committed_len: LogIndex,
    /// Number of leading entries delivered to the application.
    pub applied_len: LogIndex,
    /// The commands delivered to the application so far, in order. The hosting
    /// runtime forwards new elements of this sequence to the application.
    pub delivered: Vec<Command>,
}

/// Term of the last entry, or 0 for an empty log.
pub open spec fn last_term_of(e: Seq<LogEntry>) -> Term {
    if e.len() == 0 {
        0
    } else {
        e.last().term
    }
}

/// The follower's consistency check: it holds the claimed prefix of length `p`,
/// and that prefix ends in term `pt` (vacuously for the empty prefix).
pub open spec fn prefix_matches(e: Seq<LogEntry>, p: int, pt: Term) -> bool {
    &&& p <= e.len()
    &&& (p == 0 || e[p - 1].term == pt)
}

/// First offset at which the batch `b`, laid over `e` starting at position `p`,
/// disagrees with an existing entry's term or runs past the end of `e`;
/// `b.len()` if the whole batch already matches in place.
pub open spec fn mismatch_point(e: Seq<LogEntry>, p: int, b: Seq<LogEntry>) -> int
    decreases b.len(),
{
    if b.len() == 0 {
        0
    } else if p < 0 || p >= e.len() || e[p].term != b[0].term {
        0
    } else {
        1 + mismatch_point(e, p + 1, b.drop_first())
    }
}

/// The log after splicing batch `b` in at position `p`: entries that already
/// match stay, a conflicting suffix is discarded, and the rest of the batch is
/// appended.
pub open spec fn splice(e: Seq<LogEntry>, p: int, b: Seq<LogEntry>) -> Seq<LogEntry> {
    let mp = mismatch_point(e, p, b);
    if mp == b.len() {
        e
    } else {
        e.take(p + mp) + b.skip(mp)
    }
}

/// The splice would discard an already committed entry: a protocol-level
/// inconsistency that must abort the replica.
pub open spec fn splice_conflicts_committed(
    e: Seq<LogEntry>,
    p: int,
    b: Seq<LogEntry>,
    committed: int,
) -> bool {
    let mp = mismatch_point(e, p, b);
    mp < b.len() && p + mp < committed
}

/// The committed length after learning the leader's commit index `lc`:
/// it advances to `min(lc, len)` but never moves backwards.
pub open spec fn advance_commit(c: int, lc: int, len: int) -> int {
    let t = if lc < len { lc } else { len };
    if t > c {
        t
    } else {
        c
    }
}

/// What a follower's accepted append does to the log, including commit
/// advancement and delivery; on a committed-prefix conflict the log is left
/// untouched and the fatal error is surfaced.
pub open spec fn append_post(
    pre: Log,
    post: Log,
    p: int,
    lc: int,
    b: Seq<LogEntry>,
    r: Result<(), FatalError>,
) -> bool {
    if splice_conflicts_committed(pre.entries@, p, b, pre.committed_len as int) {
        &&& r matches Err(f) && f is CommittedConflict
        &&& post == pre
    } else {
        let e1 = splice(pre.entries@, p, b);
        let c1 = advance_commit(pre.committed_len as int, lc, e1.len() as int);
        &&& r is Ok
        &&& post.entries@ == e1
        &&& post.committed_len == c1
        &&& post.applied_len == c1
        &&& post.delivered@ == pre.delivered@ + e1.subrange(pre.committed_len as int, c1).map_values(
            |le: LogEntry| le.command,
        )
    }
}

/// The batch entry at offset `k` lies within the existing log and agrees with
/// it on the term.
pub open spec fn matches_at(e: Seq<LogEntry>, p: int, b: Seq<LogEntry>, k: int) -> bool {
    &&& p + k < e.len()
    &&& e[p + k].term == b[k].term
}

/// Everything that characterises `mismatch_point`: it is a valid offset, the
/// batch matches the log everywhere before it, and it either exhausts the
/// batch or names a real disagreement.
pub proof fn lemma_mismatch_point(e: Seq<LogEntry>, p: int, b: Seq<LogEntry>)
    requires
        0 <= p,
    ensures
        0 <= mismatch_point(e, p, b) <= b.len(),
        forall|k: int| 0 <= k < mismatch_point(e, p, b) ==> matches_at(e, p, b, k),
        mismatch_point(e, p, b) < b.len() ==> !matches_at(e, p, b, mismatch_point(e, p, b)),
    decreases b.len(),
{
    if b.len() == 0 {
    } else if p >= e.len() || e[p].term != b[0].term {
        assert(mismatch_point(e, p, b) == 0);
        if b.len() > 0 {
            assert(!matches_at(e, p, b, 0));
        }
    } else {
        let bt = b.drop_first();
        lemma_mismatch_point(e, p + 1, bt);
        let mp = mismatch_point(e, p, b);
        assert(mp == 1 + mismatch_point(e, p + 1, bt));
        assert forall|k: int| 0 <= k < mp implies matches_at(e, p, b, k) by {
            if k == 0 {
                assert(matches_at(e, p, b, 0));
            } else {
                assert(matches_at(e, p + 1, bt, k - 1));
                assert(bt[k - 1] == b[k]);
                assert(matches_at(e, p, b, k));
            }
        }
        if mp < b.len() {
            assert(!matches_at(e, p + 1, bt, mp - 1));
            assert(bt[mp - 1] == b[mp]);
            assert(!matches_at(e, p, b, mp));
        }
    }
}

/// `mismatch_point` is the unique offset with the properties above; this is
/// how an iterative scan is shown to compute it.
pub proof fn lemma_mismatch_point_is(e: Seq<LogEntry>, p: int, b: Seq<LogEntry>, i: int)
    requires
        0 <= p,
        0 <= i <= b.len(),
        forall|k: int| 0 <= k < i ==> matches_at(e, p, b, k),
        i < b.len() ==> !matches_at(e, p, b, i),
    ensures
        mismatch_point(e, p, b) == i,
    decreases b.len(),
{
    if b.len() == 0 {
    } else if p >= e.len() || e[p].term != b[0].term {
        if i > 0 {
            assert(matches_at(e, p, b, 0));
            assert(false);
        }
    } else {
        assert(i >= 1) by {
            if i == 0 {
                assert(matches_at(e, p, b, 0));
                assert(!matches_at(e, p, b, 0));
            }
        }
        let bt = b.drop_first();
        assert forall|k: int| 0 <= k < i - 1 implies #[trigger] matches_at(e, p + 1, bt, k) by {
            assert(matches_at(e, p, b, k + 1));
            assert(bt[k] == b[k + 1]);
        }
        if i - 1 < bt.len() {
            assert(!matches_at(e, p, b, i));
            assert(bt[i - 1] == b[i]);
            assert(!matches_at(e, p + 1, bt, i - 1));
        }
        lemma_mismatch_point_is(e, p + 1, bt, i - 1);
    }
}

/// A splice that does not conflict below position `n` leaves the first `n`
/// entries exactly as they were.
pub proof fn lemma_splice_preserves_prefix(e: Seq<LogEntry>, p: int, b: Seq<LogEntry>, n: int)
    requires
        0 <= p <= e.len(),
        0 <= n <= e.len(),
        mismatch_point(e, p, b) == b.len() || n <= p + mismatch_point(e, p, b),
    ensures
        splice(e, p, b).len() >= n,
        forall|i: int| 0 <= i < n ==> #[trigger] splice(e, p, b)[i] == e[i],
{
    lemma_mismatch_point(e, p, b);
    let mp = mismatch_point(e, p, b);
    if mp < b.len() {
        if mp > 0 {
            assert(matches_at(e, p, b, mp - 1));
        }
        assert(p + mp <= e.len());
        assert forall|i: int| 0 <= i < n implies #[trigger] splice(e, p, b)[i] == e[i] by {
            assert(splice(e, p, b)[i] == e.take(p + mp)[i]);
        }
    }
}


impl Log {
    /// The cursors are ordered, delivery tracks commitment exactly, and the
    /// delivered commands are precisely those of the applied prefix, in order.
    pub open spec fn wf(self) -> bool {
        &&& self.committed_len <= self.entries@.len()
        &&& self.applied_len == self.committed_len
        &&& self.delivered@.len() == self.applied_len
        &&& forall|i: int|
            0 <= i < self.applied_len ==> self.delivered@[i] == self.entries@[i].command
    }

    /// A fresh, empty log.
    pub fn new() -> (r: Log)
        ensures
            r.wf(),
            r.entries@.len() == 0,
            r.committed_len == 0,
            r.applied_len == 0,
            r.delivered@.len() == 0,
    {
        Log { entries: Vec::new(), committed_len: 0, applied_len: 0, delivered: Vec::new() }
    }

    /// Index just past the last entry, i.e. the log's length as a prefix length.
    pub fn last_idx(&self) -> (r: LogIndex)
        ensures
            r == self.entries@.len(),
    {
        self.entries.len()
    }

    /// Term of the last entry, or 0 for an empty log.
    pub fn last_term(&self) -> (r: Term)
        ensures
            r == last_term_of(self.entries@),
    {
        if self.entries.len() == 0 {
            0
        } else {
            self.entries[self.entries.len() - 1].term
        }
    }

    /// The follower's splice rule plus commit advancement: keep matching
    /// entries, discard a conflicting suffix, append the rest of the batch,
    /// then advance the commit cursor towards the leader's and deliver the
    /// newly committed commands. Fails fatally if a conflict would discard a
    /// committed entry, leaving the log untouched.
    #[verifier::loop_isolation(false)]
    pub fn append_entries(&mut self, prefix_len: usize, leader_commit: usize, batch: &Vec<
        LogEntry,
    >) -> (r: Result<(), FatalError>)
        requires
            old(self).wf(),
            prefix_len <= old(self).entries@.len(),
        ensures
            final(self).wf(),
            append_post(
                *old(self),
                *final(self),
                prefix_len as int,
                leader_commit as int,
                batch@,
                r,
            ),
    {
        let ghost e0 = self.entries@;
        let ghost b = batch@;
        let ghost p = prefix_len as int;
        let ghost c0 = self.committed_len as int;
        let ghost d0 = self.delivered@;

        // Scan for the first disagreement between the batch and the log.
        let mut i: usize = 0;
        while i < batch.len() && i < self.entries.len() - prefix_len && self.entries[prefix_len
            + i].term == batch[i].term
            invariant
                0 <= i <= batch.len(),
                prefix_len + i <= self.entries.len(),
                forall|k: int| 0 <= k < i ==> matches_at(e0, p, b, k),
                self.entries@ == e0,
            decreases batch.len() - i,
        {
            assert(matches_at(e0, p, b, i as int));
            i = i + 1;
        }
        proof {
            if i < batch.len() {
                assert(!matches_at(e0, p, b, i as int));
            }
            lemma_mismatch_point_is(e0, p, b, i as int);
        }
        let ghost mp = i as int;

        if i < batch.len() {
            let j = prefix_len + i;
            if j < self.entries.len() {
                // A conflicting suffix starts here.
                if j < self.committed_len {
                    return Err(FatalError::CommittedConflict);
                }
                self.entries.truncate(j);
                proof {
                    assert(self.entries@ == e0.subrange(0, p + mp));
                    assert(e0.subrange(0, p + mp) == e0.take(p + mp));
                }
            } else {
                proof {
                    assert(e0.take(p + mp) == e0);
                }
            }
            // Append the rest of the batch.
            while i < batch.len()
                invariant
                    mp <= i <= batch.len(),
                    self.entries@ == e0.take(p + mp) + b.subrange(mp, i as int),
                    self.committed_len == old(self).committed_len,
                    self.applied_len == old(self).applied_len,
                    self.delivered@ == d0,
                decreases batch.len() - i,
            {
                self.entries.push(batch[i]);
                proof {
                    assert(e0.take(p + mp) + b.subrange(mp, i as int + 1) =~= (e0.take(p + mp)
                        + b.subrange(mp, i as int)).push(b[i as int]));
                }
                i = i + 1;
            }
            proof {
                assert(b.subrange(mp, b.len() as int) == b.skip(mp));
                assert(self.entries@ == splice(e0, p, b));
            }
        } else {
            proof {
                assert(self.entries@ == splice(e0, p, b));
            }
        }

        proof {
            lemma_splice_preserves_prefix(e0, p, b, c0);
        }

        // Advance the commit cursor towards the leader's, never backwards, and
        // deliver the newly committed commands in order.
        let len = self.entries.len();
        let target = if leader_commit < len {
            leader_commit
        } else {
            len
        };
        if target > self.committed_len {
            self.committed_len = target;
        }
        proof {
            assert(self.committed_len as int == advance_commit(c0, leader_commit as int,
                self.entries@.len() as int));
            assert forall|k: int| 0 <= k < self.applied_len implies self.delivered@[k]
                == self.entries@[k].command by {
                assert(self.delivered@[k] == e0[k].command);
                assert(self.entries@[k] == e0[k]);
            }
        }
        while self.applied_len < self.committed_len
            invariant
                c0 <= self.applied_len <= self.committed_len <= self.entries@.len(),
                self.entries@ == splice(e0, p, b),
                self.committed_len as int == advance_commit(c0, leader_commit as int,
                    self.entries@.len() as int),
                self.delivered@.len() == self.applied_len,
                forall|i: int|
                    0 <= i < self.applied_len ==> self.delivered@[i] == self.entries@[i].command,
            decreases self.committed_len - self.applied_len,
        {
            let cmd = self.entries[self.applied_len].command;
            self.delivered.push(cmd);
            self.applied_len = self.applied_len + 1;
        }
        proof {
            let e1 = splice(e0, p, b);
            let c1 = self.committed_len as int;
            let rhs = d0 + e1.subrange(c0, c1).map_values(|le: LogEntry| le.command);
            assert(self.delivered@.len() == rhs.len());
            assert forall|k: int| 0 <= k < rhs.len() implies self.delivered@[k] == rhs[k] by {
                assert(self.delivered@[k] == e1[k].command);
                if k < c0 {
                    assert(d0[k] == e0[k].command);
                    assert(e1[k] == e0[k]);
                } else {
                    assert(e1.subrange(c0, c1)[k - c0] == e1[k]);
                    assert(rhs[k] == e1.subrange(c0, c1).map_values(|le: LogEntry| le.command)[k
                        - c0]);
                }
            }
            assert(self.delivered@ =~= rhs);
        }
        Ok(())
    }
}

} // verus!
