//! Per-authority checkpoint bookkeeping: which transaction digests are
//! processed but not yet checkpointed, which a checkpoint announced but
//! local processing has not seen, and where each checkpointed digest
//! ended up.

use crate::base::{sat_add, AuthorityName, SuiError, TransactionDigest};
use crate::messages::copy_vec;
use crate::vecmap::VecMap;
use vstd::prelude::*;

verus! {

/// Local sequence recorded for a digest a checkpoint announced before
/// local processing saw it: an offset in the upper half of the range.
pub const UNPROCESSED_SEQUENCE_BASE: u64 = 0x8000_0000_0000_0000u64;

/// Ghost image of a `CheckpointStore`.
#[verifier::ext_equal]
pub struct CheckpointView {
    /// Digest to announcing checkpoint: known from a checkpoint, not yet
    /// processed locally.
    pub unprocessed: Map<u64, u64>,
    /// Digest to local sequence: processed locally, not yet checkpointed.
    pub extra: Map<u64, u64>,
    /// The processed-but-unchcheckpointed digests in arrival order.
    pub extra_order: Seq<u64>,
    /// Checkpoint sequence to its finalized digest list.
    pub contents: Map<u64, Seq<u64>>,
    /// Digest to (checkpoint sequence, local sequence).
    pub to_checkpoint: Map<u64, (u64, u64)>,
    /// The next checkpoint sequence number.
    pub next: u64,
}

impl CheckpointView {
    /// One processed (local sequence, digest) pair folded in: a digest a
    /// checkpoint already announced is promoted, a checkpointed one is
    /// left alone, anything else becomes an extra transaction.
    pub open spec fn step_processed(self, entry: (u64, u64)) -> CheckpointView {
        let seq = entry.0;
        let digest = entry.1;
        if self.unprocessed.contains_key(digest) {
            CheckpointView {
                unprocessed: self.unprocessed.remove(digest),
                to_checkpoint: self.to_checkpoint.insert(
                    digest,
                    (self.unprocessed[digest], seq),
                ),
                ..self
            }
        } else if self.to_checkpoint.contains_key(digest) {
            self
        } else {
            CheckpointView {
                extra: self.extra.insert(digest, seq),
                extra_order: if self.extra.contains_key(digest) {
                    self.extra_order
                } else {
                    self.extra_order.push(digest)
                },
                ..self
            }
        }
    }

    /// A batch of processed pairs folded in, first to last.
    pub open spec fn fold_processed(self, batch: Seq<(u64, u64)>) -> CheckpointView
        decreases batch.len(),
    {
        if batch.len() == 0 {
            self
        } else {
            self.fold_processed(batch.drop_last()).step_processed(batch.last())
        }
    }

    /// One digest of a new checkpoint `seq` folded in, at position `i`
    /// of the checkpoint's list: a local extra transaction is promoted,
    /// a digest already checkpointed is left alone, an unknown one is
    /// recorded as unprocessed with a sentinel local sequence.
    pub open spec fn step_new_checkpoint(self, seq: u64, i: u64, digest: u64) -> CheckpointView {
        if self.extra.contains_key(digest) {
            CheckpointView {
                extra: self.extra.remove(digest),
                extra_order: self.extra_order.remove_value(digest),
                to_checkpoint: self.to_checkpoint.insert(digest, (seq, self.extra[digest])),
                ..self
            }
        } else if self.to_checkpoint.contains_key(digest) {
            self
        } else {
            CheckpointView {
                unprocessed: self.unprocessed.insert(digest, seq),
                to_checkpoint: self.to_checkpoint.insert(
                    digest,
                    (seq, sat_add(UNPROCESSED_SEQUENCE_BASE, i)),
                ),
                ..self
            }
        }
    }

    /// A checkpoint's digest list folded in, first to last.
    pub open spec fn fold_new_checkpoint(self, seq: u64, digests: Seq<u64>) -> CheckpointView
        decreases digests.len(),
    {
        if digests.len() == 0 {
            self
        } else {
            self.fold_new_checkpoint(seq, digests.drop_last()).step_new_checkpoint(
                seq,
                (digests.len() - 1) as u64,
                digests.last(),
            )
        }
    }
}

/// Lowest checkpoint sequence among a sequence of (digest, checkpoint)
/// pairs, or `dflt` where there is none.
pub open spec fn min_checkpoint_seq(pairs: Seq<(u64, u64)>, dflt: u64) -> u64
    decreases pairs.len(),
{
    if pairs.len() == 0 {
        dflt
    } else {
        let rest = min_checkpoint_seq(pairs.drop_last(), dflt);
        if pairs.len() == 1 {
            pairs.last().1
        } else if pairs.last().1 < rest {
            pairs.last().1
        } else {
            rest
        }
    }
}

/// One authority's candidate digest set for the next checkpoint,
/// immutable once taken.
pub struct CheckpointProposal {
    pub authority: AuthorityName,
    pub sequence: u64,
    pub transactions: Vec<TransactionDigest>,
}

/// Elements of `a` that `b` does not contain, in `a`'s order.
pub open spec fn seq_diff(a: Seq<u64>, b: Seq<u64>) -> Seq<u64>
    decreases a.len(),
{
    if a.len() == 0 {
        Seq::empty()
    } else if b.contains(a.last()) {
        seq_diff(a.drop_last(), b)
    } else {
        seq_diff(a.drop_last(), b).push(a.last())
    }
}

/// Pairwise comparison of two proposals: what each side is missing
/// relative to the other, with the two proposals carried as ghost sets.
pub struct WaypointDiff {
    pub first: AuthorityName,
    /// Digests the first authority lacks: present only on the second side.
    pub first_missing: Vec<TransactionDigest>,
    pub second: AuthorityName,
    /// Digests the second authority lacks: present only on the first side.
    pub second_missing: Vec<TransactionDigest>,
    /// The two full proposal item sets (first, second).
    pub proposals: Ghost<(Set<u64>, Set<u64>)>,
}

impl WaypointDiff {
    /// The missing lists are exactly the set differences of the carried
    /// proposals, and the two sides are distinct authorities.
    pub open spec fn wf(self) -> bool {
        &&& self.first != self.second
        &&& self.first_missing@.to_set() == self.proposals@.1.difference(self.proposals@.0)
        &&& self.second_missing@.to_set() == self.proposals@.0.difference(self.proposals@.1)
    }
}

impl CheckpointProposal {
    /// The proposal's digest list.
    pub fn transactions(&self) -> (r: &Vec<TransactionDigest>)
        ensures
            r@ == self.transactions@,
    {
        &self.transactions
    }

    /// Compare with another authority's proposal: each side's list of
    /// digests only the other side has.
    pub fn diff_with(&self, other: &CheckpointProposal) -> (r: WaypointDiff)
        requires
            self.authority != other.authority,
        ensures
            r.first == self.authority,
            r.second == other.authority,
            r.first_missing@ == seq_diff(other.transactions@, self.transactions@),
            r.second_missing@ == seq_diff(self.transactions@, other.transactions@),
            r.proposals@ == (self.transactions@.to_set(), other.transactions@.to_set()),
            self.transactions@.no_duplicates() && other.transactions@.no_duplicates() ==> r.wf(),
    {
        let first_missing = seq_diff_exec(&other.transactions, &self.transactions);
        let second_missing = seq_diff_exec(&self.transactions, &other.transactions);
        let r = WaypointDiff {
            first: self.authority,
            first_missing,
            second: other.authority,
            second_missing,
            proposals: Ghost((self.transactions@.to_set(), other.transactions@.to_set())),
        };
        proof {
            if self.transactions@.no_duplicates() && other.transactions@.no_duplicates() {
                lemma_seq_diff_set(other.transactions@, self.transactions@);
                lemma_seq_diff_set(self.transactions@, other.transactions@);
            }
        }
        r
    }
}

/// The set of `seq_diff(a, b)` is the set difference of the sets.
pub proof fn lemma_seq_diff_set(a: Seq<u64>, b: Seq<u64>)
    ensures
        seq_diff(a, b).to_set() == a.to_set().difference(b.to_set()),
        seq_diff(a, b).no_duplicates() <== a.no_duplicates(),
        forall|i: int|
            0 <= i < seq_diff(a, b).len() ==> a.contains(#[trigger] seq_diff(a, b)[i])
                && !b.contains(seq_diff(a, b)[i]),
    decreases a.len(),
{
    if a.len() == 0 {
        assert(seq_diff(a, b).to_set() =~= a.to_set().difference(b.to_set()));
    } else {
        lemma_seq_diff_set(a.drop_last(), b);
        let d = seq_diff(a, b);
        let dd = seq_diff(a.drop_last(), b);
        assert(a.to_set() =~= a.drop_last().to_set().insert(a.last())) by {
            assert forall|x: u64| a.to_set().contains(x) implies a.drop_last().to_set().insert(
                a.last(),
            ).contains(x) by {
                let i = choose|i: int| 0 <= i < a.len() && a[i] == x;
                if i < a.len() - 1 {
                    assert(a.drop_last()[i] == x);
                }
            }
            assert forall|x: u64|
                a.drop_last().to_set().insert(a.last()).contains(x) implies a.to_set().contains(
                x,
            ) by {
                if x == a.last() {
                    assert(a[a.len() - 1] == x);
                } else {
                    let i = choose|i: int| 0 <= i < a.drop_last().len() && a.drop_last()[i] == x;
                    assert(a[i] == x);
                }
            }
        }
        if b.contains(a.last()) {
            assert(d.to_set() =~= a.to_set().difference(b.to_set()));
        } else {
            assert(d =~= dd.push(a.last()));
            assert(d.to_set() =~= dd.to_set().insert(a.last())) by {

                assert forall|x: u64| d.to_set().contains(x) implies dd.to_set().insert(
                    a.last(),
                ).contains(x) by {
                    let i = choose|i: int| 0 <= i < d.len() && d[i] == x;
                    if i < d.len() - 1 {
                        assert(dd[i] == x);
                    }
                }
                assert forall|x: u64|
                    dd.to_set().insert(a.last()).contains(x) implies d.to_set().contains(x) by {
                    if x == a.last() {
                        assert(d[d.len() - 1] == x);
                    } else {
                        let i = choose|i: int| 0 <= i < dd.len() && dd[i] == x;
                        assert(d[i] == x);
                    }
                }
            }
            assert(d.to_set() =~= a.to_set().difference(b.to_set()));
            if a.no_duplicates() {
                assert(a.drop_last().no_duplicates()) by {
                    assert(forall|i: int|
                        0 <= i < a.drop_last().len() ==> a.drop_last()[i] == a[i]);
                }
                assert(d.no_duplicates()) by {
                    assert(forall|i: int| 0 <= i < dd.len() ==> dd.to_set().contains(dd[i]));
                    assert(!dd.to_set().contains(a.last()));
                }
            }
        }
        if a.no_duplicates() && b.contains(a.last()) {
            assert(a.drop_last().no_duplicates()) by {
                assert(forall|i: int| 0 <= i < a.drop_last().len() ==> a.drop_last()[i] == a[i]);
            }
        }
    }
}

/// Executable counterpart of `seq_diff`.
pub fn seq_diff_exec(a: &Vec<u64>, b: &Vec<u64>) -> (r: Vec<u64>)
    ensures
        r@ == seq_diff(a@, b@),
{
    let mut out: Vec<u64> = Vec::new();
    let n = a.len();
    let mut i: usize = 0;
    while i < n
        invariant
            n == a@.len(),
            i <= n,
            out@ == seq_diff(a@.take(i as int), b@),
        decreases n - i,
    {
        proof {
            assert(a@.take(i + 1).drop_last() =~= a@.take(i as int));
            assert(a@.take(i + 1).last() == a@[i as int]);
        }
        let x = a[i];
        let mut found: bool = false;
        let m = b.len();
        let mut j: usize = 0;
        while j < m
            invariant
                m == b@.len(),
                j <= m,
                found <==> exists|p: int| 0 <= p < j && b@[p] == x,
            decreases m - j,
        {
            if b[j] == x {
                found = true;
            }
            j = j + 1;
        }
        proof {
            if found {
                assert(b@.contains(x));
            } else {
                if b@.contains(x) {
                    let p = choose|p: int| 0 <= p < b@.len() && b@[p] == x;
                    assert(false);
                }
            }
        }
        if !found {
            out.push(x);
        }
        i = i + 1;
    }
    proof {
        assert(a@.take(n as int) =~= a@);
    }
    out
}

/// Persistent per-authority checkpoint state: the four views over
/// transaction digests, batch-updated so their invariants hold between
/// any two calls.
pub struct CheckpointStore {
    pub name: AuthorityName,
    pub unprocessed_transactions: VecMap<u64>,
    pub extra_transactions: VecMap<u64>,
    pub checkpoint_contents: VecMap<Vec<u64>>,
    pub transactions_to_checkpoint: VecMap<(u64, u64)>,
    pub next_checkpoint_seq: u64,
}

impl CheckpointStore {
    /// The mathematical state.
    pub open spec fn view_spec(self) -> CheckpointView {
        CheckpointView {
            unprocessed: self.unprocessed_transactions.m(),
            extra: self.extra_transactions.m(),
            extra_order: self.extra_transactions.keys_seq(),
            contents: Map::new(
                |k: u64| self.checkpoint_contents.m().contains_key(k),
                |k: u64| self.checkpoint_contents.m()[k]@,
            ),
            to_checkpoint: self.transactions_to_checkpoint.m(),
            next: self.next_checkpoint_seq,
        }
    }

    /// Internal consistency: a digest is in at most one of the
    /// unprocessed and extra views, a checkpointed digest is in neither
    /// the extra view nor unprocessed without a record, and every
    /// unprocessed digest has its placeholder record.
    pub open spec fn wf(self) -> bool {
        &&& self.unprocessed_transactions.wf()
        &&& self.extra_transactions.wf()
        &&& self.checkpoint_contents.wf()
        &&& self.transactions_to_checkpoint.wf()
        &&& forall|d: u64|
            #[trigger] self.unprocessed_transactions.m().contains_key(d)
                ==> !self.extra_transactions.m().contains_key(d)
        &&& forall|d: u64|
            #[trigger] self.extra_transactions.m().contains_key(d)
                ==> !self.transactions_to_checkpoint.m().contains_key(d)
        &&& forall|d: u64|
            #[trigger] self.unprocessed_transactions.m().contains_key(d)
                ==> self.transactions_to_checkpoint.m().contains_key(d)
                    && self.transactions_to_checkpoint.m()[d].0
                == self.unprocessed_transactions.m()[d]
    }

    /// A fresh store for one authority.
    pub fn open(name: AuthorityName) -> (r: CheckpointStore)
        ensures
            r.wf(),
            r.name == name,
            r.view_spec().unprocessed == Map::<u64, u64>::empty(),
            r.view_spec().extra == Map::<u64, u64>::empty(),
            r.view_spec().extra_order == Seq::<u64>::empty(),
            r.view_spec().to_checkpoint == Map::<u64, (u64, u64)>::empty(),
            r.view_spec().next == 0,
            r.checkpoint_contents.pairs().len() == 0,
    {
        CheckpointStore {
            name,
            unprocessed_transactions: VecMap::new(),
            extra_transactions: VecMap::new(),
            checkpoint_contents: VecMap::new(),
            transactions_to_checkpoint: VecMap::new(),
            next_checkpoint_seq: 0,
        }
    }

    /// The sequence number the next checkpoint will carry.
    pub fn next_checkpoint_sequence(&self) -> (r: u64)
        ensures
            r == self.view_spec().next,
    {
        self.next_checkpoint_seq
    }

    /// Lowest checkpoint sequence for which announced digests are still
    /// unprocessed locally; the next sequence where none are.
    pub fn lowest_unprocessed_sequence(&self) -> (r: u64)
        requires
            self.wf(),
        ensures
            r == min_checkpoint_seq(self.unprocessed_transactions.pairs(), self.view_spec().next),
    {
        let n = self.unprocessed_transactions.len();
        let mut best: u64 = self.next_checkpoint_seq;
        let mut i: usize = 0;
        while i < n
            invariant
                self.wf(),
                n == self.unprocessed_transactions.pairs().len(),
                i <= n,
                best == min_checkpoint_seq(
                    self.unprocessed_transactions.pairs().take(i as int),
                    self.view_spec().next,
                ),
            decreases n - i,
        {
            proof {
                assert(self.unprocessed_transactions.pairs().take(i + 1).drop_last()
                    =~= self.unprocessed_transactions.pairs().take(i as int));
            }
            let v = *self.unprocessed_transactions.value_at(i);
            if i == 0 || v < best {
                best = v;
            }
            i = i + 1;
        }
        proof {
            assert(self.unprocessed_transactions.pairs().take(n as int)
                =~= self.unprocessed_transactions.pairs());
        }
        best
    }

    /// Fold a batch of locally processed (sequence, digest) pairs into
    /// the views.
    pub fn update_processed_transactions(&mut self, batch: &Vec<(u64, u64)>) -> (r: Result<
        (),
        SuiError,
    >)
        requires
            old(self).wf(),
        ensures
            final(self).wf(),
            final(self).name == old(self).name,
            r is Ok,
            final(self).view_spec() == old(self).view_spec().fold_processed(batch@),
    {
        let n = batch.len();
        let mut i: usize = 0;
        while i < n
            invariant
                self.wf(),
                self.name == old(self).name,
                n == batch@.len(),
                i <= n,
                self.view_spec() == old(self).view_spec().fold_processed(batch@.take(i as int)),
            decreases n - i,
        {
            proof {
                assert(batch@.take(i + 1).drop_last() =~= batch@.take(i as int));
                assert(batch@.take(i + 1).last() == batch@[i as int]);
            }
            let (seq, digest) = batch[i];
            let ghost pre = self.view_spec();
            if self.unprocessed_transactions.contains_key(digest) {
                let cp = match self.unprocessed_transactions.get(digest) {
                    Some(c) => *c,
                    None => 0,
                };
                self.unprocessed_transactions.remove(digest);
                self.transactions_to_checkpoint.insert(digest, (cp, seq));
                proof {
                    assert(self.view_spec() =~~= pre.step_processed((seq, digest)));
                }
            } else if self.transactions_to_checkpoint.contains_key(digest) {
                proof {
                    assert(self.view_spec() =~~= pre.step_processed((seq, digest)));
                }
            } else {
                self.extra_transactions.insert(digest, seq);
                proof {
                    assert(self.view_spec() =~~= pre.step_processed((seq, digest)));
                }
            }
            i = i + 1;
        }
        proof {
            assert(batch@.take(n as int) =~= batch@);
        }
        Ok(())
    }

    /// Snapshot the extra transactions, in arrival order, as this
    /// authority's proposal for the next checkpoint.
    pub fn set_proposal(&self) -> (r: Result<CheckpointProposal, SuiError>)
        requires
            self.wf(),
        ensures
            match r {
                Ok(p) => {
                    &&& p.authority == self.name
                    &&& p.sequence == self.view_spec().next
                    &&& p.transactions@ == self.view_spec().extra_order
                    &&& p.transactions@.no_duplicates()
                },
                Err(_) => false,
            },
    {
        let txs = self.extra_transactions.keys();
        proof {
            self.extra_transactions.lemma_view();
            assert forall|i: int, j: int|
                0 <= i < j < txs@.len() implies txs@[i] != txs@[j] by {
                assert(self.extra_transactions.pairs()[i].0 == txs@[i]);
                assert(self.extra_transactions.pairs()[j].0 == txs@[j]);
            }
        }
        Ok(
            CheckpointProposal {
                authority: self.name,
                sequence: self.next_checkpoint_seq,
                transactions: txs,
            },
        )
    }

    /// Fold an authoritative checkpoint's digest list into the views:
    /// local extras are promoted, unknown digests become unprocessed,
    /// and the checkpoint's contents are recorded under its sequence.
    pub fn update_new_checkpoint(&mut self, seq: u64, digests: &Vec<u64>) -> (r: Result<
        (),
        SuiError,
    >)
        requires
            old(self).wf(),
        ensures
            final(self).wf(),
            final(self).name == old(self).name,
            match r {
                Ok(_) => {
                    &&& seq == old(self).view_spec().next
                    &&& seq < u64::MAX
                    &&& ({
                        let folded = old(self).view_spec().fold_new_checkpoint(seq, digests@);
                        let v = final(self).view_spec();
                        &&& v.unprocessed == folded.unprocessed
                        &&& v.extra == folded.extra
                        &&& v.extra_order == folded.extra_order
                        &&& v.to_checkpoint == folded.to_checkpoint
                        &&& v.contents == folded.contents.insert(seq, digests@)
                        &&& v.next == seq + 1
                    })
                },
                Err(e) => {
                    &&& e == SuiError::CheckpointError
                    &&& (seq != old(self).view_spec().next || seq == u64::MAX)
                    &&& *final(self) == *old(self)
                },
            },
    {
        if seq != self.next_checkpoint_seq || seq == u64::MAX {
            return Err(SuiError::CheckpointError);
        }
        let n = digests.len();
        let mut i: usize = 0;
        while i < n
            invariant
                self.wf(),
                self.name == old(self).name,
                n == digests@.len(),
                i <= n,
                self.checkpoint_contents == old(self).checkpoint_contents,
                self.next_checkpoint_seq == old(self).next_checkpoint_seq,
                ({
                    let folded = old(self).view_spec().fold_new_checkpoint(
                        seq,
                        digests@.take(i as int),
                    );
                    let v = self.view_spec();
                    &&& v.unprocessed == folded.unprocessed
                    &&& v.extra == folded.extra
                    &&& v.extra_order == folded.extra_order
                    &&& v.to_checkpoint == folded.to_checkpoint
                }),
            decreases n - i,
        {
            proof {
                assert(digests@.take(i + 1).drop_last() =~= digests@.take(i as int));
                assert(digests@.take(i + 1).last() == digests@[i as int]);
            }
            let digest = digests[i];
            let ghost pre = self.view_spec();
            let ghost prefolded = old(self).view_spec().fold_new_checkpoint(
                seq,
                digests@.take(i as int),
            );
            if self.extra_transactions.contains_key(digest) {
                let local = match self.extra_transactions.get(digest) {
                    Some(l) => *l,
                    None => 0,
                };
                self.extra_transactions.remove(digest);
                self.transactions_to_checkpoint.insert(digest, (seq, local));
            } else if self.transactions_to_checkpoint.contains_key(digest) {
            } else {
                self.unprocessed_transactions.insert(digest, seq);
                let pos = if i as u64 > u64::MAX - UNPROCESSED_SEQUENCE_BASE {
                    u64::MAX
                } else {
                    UNPROCESSED_SEQUENCE_BASE + i as u64
                };
                self.transactions_to_checkpoint.insert(digest, (seq, pos));
            }
            proof {
                let stepped = prefolded.step_new_checkpoint(seq, i as u64, digests@[i as int]);
                assert(self.view_spec().unprocessed =~= stepped.unprocessed);
                assert(self.view_spec().extra =~= stepped.extra);
                assert(self.view_spec().extra_order == stepped.extra_order);
                assert(self.view_spec().to_checkpoint =~= stepped.to_checkpoint);
            }
            i = i + 1;
        }
        proof {
            assert(digests@.take(n as int) =~= digests@);
        }
        self.checkpoint_contents.insert(seq, copy_vec(digests));
        self.next_checkpoint_seq = seq + 1;
        proof {
            let folded = old(self).view_spec().fold_new_checkpoint(seq, digests@);
            lemma_fold_new_checkpoint_frame(old(self).view_spec(), seq, digests@);
            assert(self.view_spec().contents =~~= folded.contents.insert(seq, digests@));
        }
        Ok(())
    }
}

/// Folding a checkpoint's digests touches neither the recorded
/// contents nor the next-sequence counter.
proof fn lemma_fold_new_checkpoint_frame(v: CheckpointView, seq: u64, digests: Seq<u64>)
    ensures
        v.fold_new_checkpoint(seq, digests).contents == v.contents,
        v.fold_new_checkpoint(seq, digests).next == v.next,
    decreases digests.len(),
{
    if digests.len() > 0 {
        lemma_fold_new_checkpoint_frame(v, seq, digests.drop_last());
    }
}

} // verus!
