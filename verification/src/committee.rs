//! The per-epoch committee: authority identities with voting weights,
//! and the quorum / validity thresholds derived from the total weight.

use crate::base::{AuthorityName, EpochId, SuiError};
use crate::vecmap::VecMap;
use vstd::prelude::*;

verus! {

/// Largest admissible total weight, so `2 * total` never overflows.
pub const MAX_TOTAL_VOTES: u64 = 0x7FFF_FFFF_FFFF_FFFFu64;

/// Sum of the weights of a weight table.
pub open spec fn sum_weights(s: Seq<(u64, u64)>) -> int {
    crate::vecmap::sum_pair_values(s)
}

/// Quorum threshold for a total weight: floor(2W/3) + 1.
pub open spec fn quorum_threshold_spec(total: int) -> int {
    2 * total / 3 + 1
}

/// Validity threshold for a total weight: floor(W/3) + 1.
pub open spec fn validity_threshold_spec(total: int) -> int {
    total / 3 + 1
}

/// Static mapping of authority identity to positive voting weight,
/// fixed for one epoch.
pub struct Committee {
    pub epoch: EpochId,
    pub voting_rights: VecMap<u64>,
    pub total_votes: u64,
}

impl Committee {
    /// Internal consistency: positive weights, recorded total is their sum,
    /// and the total leaves room to double without overflow.
    pub open spec fn wf(self) -> bool {
        &&& self.voting_rights.wf()
        &&& self.voting_rights.pairs().len() > 0
        &&& forall|i: int|
            0 <= i < self.voting_rights.pairs().len() ==> 1 <= (
            #[trigger] self.voting_rights.pairs()[i]).1
        &&& self.total_votes == sum_weights(self.voting_rights.pairs())
        &&& 1 <= self.total_votes <= MAX_TOTAL_VOTES
    }

    /// The weight table as a mathematical map.
    pub open spec fn weights(self) -> Map<u64, u64> {
        self.voting_rights.m()
    }

    /// Weight of a name under the table; zero for a non-member.
    pub open spec fn weight_of(self, name: AuthorityName) -> u64 {
        if self.weights().contains_key(name) {
            self.weights()[name]
        } else {
            0
        }
    }

    pub open spec fn spec_epoch(self) -> EpochId {
        self.epoch
    }

    pub open spec fn spec_total_votes(self) -> u64 {
        self.total_votes
    }

    /// The member names, in the order the table was built.
    pub open spec fn names(self) -> Seq<u64> {
        self.voting_rights.keys_seq()
    }

    /// Build a committee. Fails on an empty table, a zero weight, or a
    /// total weight beyond `MAX_TOTAL_VOTES`.
    pub fn new(epoch: EpochId, voting_rights: VecMap<u64>) -> (r: Result<Committee, SuiError>)
        requires
            voting_rights.wf(),
        ensures
            match r {
                Ok(c) => {
                    &&& c.wf()
                    &&& c.weights() == voting_rights.m()
                    &&& c.names() == voting_rights.keys_seq()
                    &&& c.spec_epoch() == epoch
                    &&& c.spec_total_votes() == sum_weights(voting_rights.pairs())
                },
                Err(e) => {
                    &&& e == SuiError::InvalidCommittee
                    &&& {
                        ||| voting_rights.pairs().len() == 0
                        ||| (exists|i: int|
                            0 <= i < voting_rights.pairs().len() && (
                            #[trigger] voting_rights.pairs()[i]).1 == 0)
                        ||| sum_weights(voting_rights.pairs()) > MAX_TOTAL_VOTES
                    }
                },
            },
            r is Ok <==> {
                &&& voting_rights.pairs().len() > 0
                &&& (forall|i: int|
                    0 <= i < voting_rights.pairs().len() ==> 1 <= (
                    #[trigger] voting_rights.pairs()[i]).1)
                &&& sum_weights(voting_rights.pairs()) <= MAX_TOTAL_VOTES
            },
    {
        if voting_rights.len() == 0 {
            return Err(SuiError::InvalidCommittee);
        }
        let n = voting_rights.len();
        let mut total: u64 = 0;
        let mut i: usize = 0;
        while i < n
            invariant
                voting_rights.wf(),
                n == voting_rights.pairs().len(),
                i <= n,
                total == sum_weights(voting_rights.pairs().take(i as int)),
                total <= MAX_TOTAL_VOTES,
                i > 0 ==> total >= 1,
                forall|j: int|
                    0 <= j < i ==> 1 <= (#[trigger] voting_rights.pairs()[j]).1,
            decreases n - i,
        {
            let w = *voting_rights.value_at(i);
            proof {
                assert(voting_rights.pairs().take(i + 1).drop_last() =~= voting_rights.pairs().take(
                    i as int,
                ));
                assert(voting_rights.pairs().take(i + 1).last() == voting_rights.pairs()[i as int]);
            }
            if w == 0 {
                return Err(SuiError::InvalidCommittee);
            }
            if w > MAX_TOTAL_VOTES - total {
                proof {
                    Self::lemma_sum_weights_prefix_mono(voting_rights.pairs(), i + 1);
                }
                return Err(SuiError::InvalidCommittee);
            }
            total = total + w;
            i = i + 1;
        }
        proof {
            assert(voting_rights.pairs().take(n as int) =~= voting_rights.pairs());
        }
        Ok(Committee { epoch, voting_rights, total_votes: total })
    }

    /// The sum over a prefix never exceeds the sum over the whole table
    /// when the remaining weights are nonnegative (always, for `u64`).
    proof fn lemma_sum_weights_prefix_mono(s: Seq<(u64, u64)>, i: int)
        requires
            0 <= i <= s.len(),
        ensures
            sum_weights(s.take(i)) <= sum_weights(s),
        decreases s.len() - i,
    {
        if i < s.len() {
            Self::lemma_sum_weights_prefix_mono(s, i + 1);
            assert(s.take(i + 1).drop_last() =~= s.take(i));
        } else {
            assert(s.take(i) =~= s);
        }
    }

    /// Voting weight of an authority; zero for a non-member.
    pub fn weight(&self, name: AuthorityName) -> (r: u64)
        requires
            self.wf(),
        ensures
            r == self.weight_of(name),
    {
        match self.voting_rights.get(name) {
            Some(w) => *w,
            None => 0,
        }
    }

    pub fn epoch(&self) -> (r: EpochId)
        ensures
            r == self.spec_epoch(),
    {
        self.epoch
    }

    pub fn total_votes(&self) -> (r: u64)
        ensures
            r == self.spec_total_votes(),
    {
        self.total_votes
    }

    /// Number of committee members.
    pub fn num_members(&self) -> (r: usize)
        ensures
            r == self.names().len(),
    {
        self.voting_rights.len()
    }

    /// Name of the member at one position of the table's order.
    pub fn name_at(&self, i: usize) -> (r: AuthorityName)
        requires
            i < self.names().len(),
        ensures
            r == self.names()[i as int],
    {
        self.voting_rights.key_at(i)
    }

    /// One committee member (the first of the table's order).
    pub fn sample(&self) -> (r: AuthorityName)
        requires
            self.wf(),
        ensures
            r == self.names()[0],
            self.weights().contains_key(r),
    {
        proof {
            self.voting_rights.lemma_view();
        }
        self.voting_rights.key_at(0)
    }

    /// Minimum total weight of agreeing authorities that makes a claim
    /// final: floor(2W/3) + 1.
    pub fn quorum_threshold(&self) -> (r: u64)
        requires
            self.wf(),
        ensures
            r == quorum_threshold_spec(self.spec_total_votes() as int),
    {
        2 * self.total_votes / 3 + 1
    }

    /// Weight below which no correct conclusion can be drawn:
    /// floor(W/3) + 1.
    pub fn validity_threshold(&self) -> (r: u64)
        requires
            self.wf(),
        ensures
            r == validity_threshold_spec(self.spec_total_votes() as int),
    {
        self.total_votes / 3 + 1
    }
}

impl Clone for Committee {
    fn clone(&self) -> (r: Self)
        ensures
            r.spec_epoch() == self.spec_epoch(),
            r.spec_total_votes() == self.spec_total_votes(),
            r.voting_rights.pairs() == self.voting_rights.pairs(),
            r.wf() == self.wf(),
            r.weights() == self.weights(),
            r.names() == self.names(),
    {
        Committee {
            epoch: self.epoch,
            voting_rights: self.voting_rights.clone(),
            total_votes: self.total_votes,
        }
    }
}

/// Byzantine bound relating the two thresholds: for a total weight `W`
/// not divisible by three, `quorum + validity - 1 <= W` and
/// `W < quorum + 2 * validity - 1`. (For `W` divisible by three the
/// first inequality fails, e.g. at `W == 3`.)
pub proof fn lemma_byzantine_thresholds(total: int)
    requires
        1 <= total,
        total % 3 != 0,
    ensures
        quorum_threshold_spec(total) + validity_threshold_spec(total) - 1 <= total,
        total < quorum_threshold_spec(total) + 2 * validity_threshold_spec(total) - 1,
{
    let k = total / 3;
    let r = total % 3;
    assert(total == 3 * k + r && 0 <= r < 3) by (nonlinear_arith)
        requires
            1 <= total,
            k == total / 3,
            r == total % 3,
    ;
    assert(2 * total == 3 * (2 * k) + 2 * r);
    assert(2 * total / 3 == 2 * k + 2 * r / 3) by (nonlinear_arith)
        requires
            2 * total == 3 * (2 * k) + 2 * r,
            0 <= r < 3,
    ;
    if r == 1 {
        assert(2 * r / 3 == 0);
    } else {
        assert(r == 2);
        assert(2 * r / 3 == 1);
    }
}

} // verus!
