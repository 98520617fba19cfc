//! Global checkpoint reconciliation: fold pairwise proposal diffs from
//! several authorities into one reconciled item set. Whatever order the
//! diffs arrive in and whichever proposal seeds the structure, the
//! reconciled set is the union of every contributing proposal.

use crate::base::SuiError;
use crate::checkpoint::WaypointDiff;
use crate::messages::copy_vec;
use crate::vecmap::VecMap;
use vstd::prelude::*;

verus! {

/// Union of the proposal sets of the named authorities.
pub open spec fn union_of(p: Map<u64, Set<u64>>, keys: Seq<u64>) -> Set<u64>
    decreases keys.len(),
{
    if keys.len() == 0 {
        Set::empty()
    } else {
        union_of(p, keys.drop_last()).union(
            if p.contains_key(keys.last()) {
                p[keys.last()]
            } else {
                Set::empty()
            },
        )
    }
}

/// Pointwise characterization of `union_of`.
pub proof fn lemma_union_of_elements(p: Map<u64, Set<u64>>, keys: Seq<u64>)
    ensures
        forall|x: u64|
            #[trigger] union_of(p, keys).contains(x) <==> exists|i: int|
                0 <= i < keys.len() && p.contains_key(#[trigger] keys[i]) && p[keys[i]].contains(
                    x,
                ),
    decreases keys.len(),
{
    if keys.len() > 0 {
        lemma_union_of_elements(p, keys.drop_last());
        assert forall|x: u64| #[trigger]
            union_of(p, keys).contains(x) implies exists|i: int|
            0 <= i < keys.len() && p.contains_key(#[trigger] keys[i]) && p[keys[i]].contains(
                x,
            ) by {
            if union_of(p, keys.drop_last()).contains(x) {
                let i = choose|i: int|
                    0 <= i < keys.drop_last().len() && p.contains_key(
                        #[trigger] keys.drop_last()[i],
                    ) && p[keys.drop_last()[i]].contains(x);
                assert(keys[i] == keys.drop_last()[i]);
            } else {
                assert(keys[keys.len() - 1] == keys.last());
            }
        }
        assert forall|x: u64|
            exists|i: int|
                0 <= i < keys.len() && p.contains_key(#[trigger] keys[i]) && p[keys[i]].contains(
                    x,
                ) implies #[trigger] union_of(p, keys).contains(x) by {
            let i = choose|i: int|
                0 <= i < keys.len() && p.contains_key(#[trigger] keys[i]) && p[keys[i]].contains(x);
            if i < keys.len() - 1 {
                assert(keys.drop_last()[i] == keys[i]);
                assert(union_of(p, keys.drop_last()).contains(x));
            }
        }
    }
}

/// `union_of` only reads the proposals of the named keys.
pub proof fn lemma_union_of_agree(
    p1: Map<u64, Set<u64>>,
    p2: Map<u64, Set<u64>>,
    keys: Seq<u64>,
)
    requires
        forall|i: int|
            0 <= i < keys.len() ==> p1.contains_key(#[trigger] keys[i]) == p2.contains_key(keys[i])
                && (p1.contains_key(keys[i]) ==> p1[keys[i]] == p2[keys[i]]),
    ensures
        union_of(p1, keys) == union_of(p2, keys),
    decreases keys.len(),
{
    if keys.len() > 0 {
        lemma_union_of_agree(p1, p2, keys.drop_last());
        assert(keys[keys.len() - 1] == keys.last());
        assert(forall|i: int| 0 <= i < keys.drop_last().len() ==> keys.drop_last()[i] == keys[i]);
        assert(union_of(p1, keys) =~= union_of(p2, keys));
    }
}

/// Strictly increasing: sorted with no duplicates.
pub open spec fn sorted_strict(s: Seq<u64>) -> bool {
    forall|i: int, j: int| 0 <= i < j < s.len() ==> s[i] < s[j]
}

/// A strictly sorted sequence is determined by its element set.
pub proof fn lemma_sorted_unique(a: Seq<u64>, b: Seq<u64>)
    requires
        sorted_strict(a),
        sorted_strict(b),
        a.to_set() == b.to_set(),
    ensures
        a == b,
    decreases a.len(),
{
    if a.len() == 0 {
        if b.len() > 0 {
            assert(b.to_set().contains(b[0]));
            assert(a.to_set().contains(b[0]));
            let i = choose|i: int| 0 <= i < a.len() && a[i] == b[0];
            assert(false);
        }
        assert(a =~= b);
    } else {
        assert(a.to_set().contains(a.last())) by {
            assert(a[a.len() - 1] == a.last());
        }
        if b.len() == 0 {
            assert(b.to_set().contains(a.last()));
            let i = choose|i: int| 0 <= i < b.len() && b[i] == a.last();
            assert(false);
        }
        assert(b.to_set().contains(b.last())) by {
            assert(b[b.len() - 1] == b.last());
        }
        // Both last elements are the maximum of the common set.
        let ja = choose|i: int| 0 <= i < a.len() && a[i] == b.last();
        let jb = choose|i: int| 0 <= i < b.len() && b[i] == a.last();
        assert(a[ja] == b.last() && b[jb] == a.last());
        assert(a.last() == b.last()) by {
            if a.last() < b.last() {
                assert(ja < a.len() - 1 || a[ja] == a.last());
                assert(false);
            }
            if b.last() < a.last() {
                assert(false);
            }
        }
        assert(a.drop_last().to_set() =~= a.to_set().remove(a.last())) by {
            assert forall|x: u64| a.drop_last().to_set().contains(x) implies a.to_set().remove(
                a.last(),
            ).contains(x) by {
                let i = choose|i: int| 0 <= i < a.drop_last().len() && a.drop_last()[i] == x;
                assert(a[i] == x);
                assert(x < a.last());
            }
            assert forall|x: u64|
                a.to_set().remove(a.last()).contains(x) implies a.drop_last().to_set().contains(
                x,
            ) by {
                let i = choose|i: int| 0 <= i < a.len() && a[i] == x;
                assert(i < a.len() - 1) by {
                    if i == a.len() - 1 {
                        assert(x == a.last());
                    }
                }
                assert(a.drop_last()[i] == x);
            }
        }
        assert(b.drop_last().to_set() =~= b.to_set().remove(b.last())) by {
            assert forall|x: u64| b.drop_last().to_set().contains(x) implies b.to_set().remove(
                b.last(),
            ).contains(x) by {
                let i = choose|i: int| 0 <= i < b.drop_last().len() && b.drop_last()[i] == x;
                assert(b[i] == x);
                assert(x < b.last());
            }
            assert forall|x: u64|
                b.to_set().remove(b.last()).contains(x) implies b.drop_last().to_set().contains(
                x,
            ) by {
                let i = choose|i: int| 0 <= i < b.len() && b[i] == x;
                assert(i < b.len() - 1) by {
                    if i == b.len() - 1 {
                        assert(x == b.last());
                    }
                }
                assert(b.drop_last()[i] == x);
            }
        }
        lemma_sorted_unique(a.drop_last(), b.drop_last());
        assert(a.len() == b.len()) by {
            assert(a.drop_last().len() == b.drop_last().len());
        }
        assert forall|i: int| 0 <= i < a.len() implies a[i] == b[i] by {
            if i < a.len() - 1 {
                assert(a.drop_last()[i] == b.drop_last()[i]);
            }
        }
        assert(a =~= b);
    }
}

/// Insert a value into a strictly sorted vector, keeping it sorted;
/// a value already present is left alone.
pub fn insert_sorted(v: &mut Vec<u64>, x: u64)
    requires
        sorted_strict(old(v)@),
    ensures
        sorted_strict(final(v)@),
        final(v)@.to_set() == old(v)@.to_set().insert(x),
{
    let n = v.len();
    let mut i: usize = 0;
    while i < n
        invariant
            sorted_strict(v@),
            *v == *old(v),
            n == v@.len(),
            i <= n,
            forall|j: int| 0 <= j < i ==> (#[trigger] v@[j]) < x,
        decreases n - i,
    {
        if v[i] == x {
            proof {
                assert(v@[i as int] == x);
                assert(final(v)@.to_set() =~= old(v)@.to_set().insert(x));
            }
            return ;
        }
        if v[i] > x {
            v.insert(i, x);
            proof {
                assert(final(v)@ == old(v)@.insert(i as int, x));
                assert(sorted_strict(v@)) by {
                    assert(forall|j: int| 0 <= j < i ==> (#[trigger] v@[j]) == old(v)@[j]);
                    assert(v@[i as int] == x);
                    assert(forall|j: int|
                        i < j < v@.len() ==> (#[trigger] v@[j]) == old(v)@[j - 1]);
                }
                assert(v@.to_set() =~= old(v)@.to_set().insert(x)) by {
                    assert forall|y: u64| v@.to_set().contains(y) implies old(v)@.to_set().insert(
                        x,
                    ).contains(y) by {
                        let j = choose|j: int| 0 <= j < v@.len() && v@[j] == y;
                        if j < i {
                            assert(old(v)@[j] == y);
                        } else if j > i {
                            assert(old(v)@[j - 1] == y);
                        }
                    }
                    assert forall|y: u64|
                        old(v)@.to_set().insert(x).contains(y) implies v@.to_set().contains(y) by {
                        if y == x {
                            assert(v@[i as int] == y);
                        } else {
                            let j = choose|j: int| 0 <= j < old(v)@.len() && old(v)@[j] == y;
                            if j < i {
                                assert(v@[j] == y);
                            } else {
                                assert(v@[j + 1] == y);
                            }
                        }
                    }
                }
            }
            return ;
        }
        i = i + 1;
    }
    v.push(x);
    proof {
        assert(v@.drop_last() =~= old(v)@);
        assert(sorted_strict(v@)) by {
            assert(forall|j: int| 0 <= j < v@.len() - 1 ==> (#[trigger] v@[j]) == old(v)@[j]);
            assert(v@[v@.len() - 1] == x);
        }
        assert(v@.to_set() =~= old(v)@.to_set().insert(x)) by {
            assert forall|y: u64| v@.to_set().contains(y) implies old(v)@.to_set().insert(
                x,
            ).contains(y) by {
                let j = choose|j: int| 0 <= j < v@.len() && v@[j] == y;
                if j < v@.len() - 1 {
                    assert(old(v)@[j] == y);
                }
            }
            assert forall|y: u64|
                old(v)@.to_set().insert(x).contains(y) implies v@.to_set().contains(y) by {
                if y == x {
                    assert(v@[v@.len() - 1] == y);
                } else {
                    let j = choose|j: int| 0 <= j < old(v)@.len() && old(v)@[j] == y;
                    assert(v@[j] == y);
                }
            }
        }
    }
}

/// Insert every element of `items` into a strictly sorted vector.
fn insert_all_sorted(v: &mut Vec<u64>, items: &Vec<u64>)
    requires
        sorted_strict(old(v)@),
    ensures
        sorted_strict(final(v)@),
        final(v)@.to_set() == old(v)@.to_set().union(items@.to_set()),
{
    let n = items.len();
    let mut i: usize = 0;
    while i < n
        invariant
            sorted_strict(v@),
            n == items@.len(),
            i <= n,
            v@.to_set() == old(v)@.to_set().union(items@.take(i as int).to_set()),
        decreases n - i,
    {
        insert_sorted(v, items[i]);
        proof {
            assert(items@.take(i + 1).to_set() =~= items@.take(i as int).to_set().insert(
                items@[i as int],
            )) by {
                assert forall|y: u64|
                    items@.take(i + 1).to_set().contains(y) implies items@.take(
                    i as int,
                ).to_set().insert(items@[i as int]).contains(y) by {
                    let j = choose|j: int| 0 <= j < i + 1 && #[trigger] items@.take(i + 1)[j] == y;
                    if j < i {
                        assert(items@.take(i as int)[j] == y);
                    }
                }
                assert forall|y: u64|
                    items@.take(i as int).to_set().insert(items@[i as int]).contains(
                        y,
                    ) implies items@.take(i + 1).to_set().contains(y) by {
                    if y == items@[i as int] {
                        assert(items@.take(i + 1)[i as int] == y);
                    } else {
                        let j = choose|j: int| 0 <= j < i && items@.take(i as int)[j] == y;
                        assert(items@.take(i + 1)[j] == y);
                    }
                }
            }
            assert(v@.to_set() =~= old(v)@.to_set().union(items@.take(i + 1).to_set()));
        }
        i = i + 1;
    }
    proof {
        assert(items@.take(n as int) =~= items@);
    }
}

/// The accumulating reconciled checkpoint: for every contributing
/// authority, the items it is missing relative to the reconciled union.
pub struct GlobalCheckpoint {
    /// The checkpoint sequence number under reconciliation.
    pub checkpoint: u64,
    /// Authority name to the items it must still fetch.
    pub authority_waypoints: VecMap<Vec<u64>>,
    /// The full proposal item set of each contributing authority.
    pub proposals: Ghost<Map<u64, Set<u64>>>,
}

impl GlobalCheckpoint {
    /// The names whose diffs have been folded in.
    pub open spec fn inserted(self) -> Seq<u64> {
        self.authority_waypoints.keys_seq()
    }

    /// The reconciled item set: the union of the contributing proposals.
    pub open spec fn union(self) -> Set<u64> {
        union_of(self.proposals@, self.inserted())
    }

    /// Every recorded missing set completes its proposal to the union.
    pub open spec fn wf(self) -> bool {
        &&& self.authority_waypoints.wf()
        &&& forall|i: int|
            0 <= i < self.authority_waypoints.pairs().len() ==> {
                let k = (#[trigger] self.authority_waypoints.pairs()[i]).0;
                let v = self.authority_waypoints.pairs()[i].1;
                &&& self.proposals@.contains_key(k)
                &&& v@.to_set().subset_of(self.union())
                &&& v@.to_set().union(self.proposals@[k]) == self.union()
            }
    }

    /// An empty reconciliation for checkpoint `checkpoint`.
    pub fn new(checkpoint: u64) -> (r: GlobalCheckpoint)
        ensures
            r.wf(),
            r.checkpoint == checkpoint,
            r.inserted().len() == 0,
            r.proposals@ == Map::<u64, Set<u64>>::empty(),
    {
        GlobalCheckpoint {
            checkpoint,
            authority_waypoints: VecMap::new(),
            proposals: Ghost(Map::empty()),
        }
    }
}

/// Concatenation unions the element sets.
proof fn lemma_concat_to_set(a: Seq<u64>, b: Seq<u64>)
    ensures
        (a + b).to_set() == a.to_set().union(b.to_set()),
{
    assert forall|x: u64| (a + b).to_set().contains(x) implies a.to_set().union(
        b.to_set(),
    ).contains(x) by {
        let i = choose|i: int| 0 <= i < (a + b).len() && (a + b)[i] == x;
        if i < a.len() {
            assert(a[i] == x);
        } else {
            assert(b[i - a.len()] == x);
        }
    }
    assert forall|x: u64| a.to_set().union(b.to_set()).contains(x) implies (
    a + b).to_set().contains(x) by {
        if a.to_set().contains(x) {
            let i = choose|i: int| 0 <= i < a.len() && a[i] == x;
            assert((a + b)[i] == x);
        } else {
            let i = choose|i: int| 0 <= i < b.len() && b[i] == x;
            assert((a + b)[a.len() + i] == x);
        }
    }
    assert((a + b).to_set() =~= a.to_set().union(b.to_set()));
}

/// Concatenate two vectors.
fn concat_vecs(a: &Vec<u64>, b: &Vec<u64>) -> (r: Vec<u64>)
    ensures
        r@ == a@ + b@,
{
    let mut out = copy_vec(a);
    let n = b.len();
    let mut i: usize = 0;
    while i < n
        invariant
            n == b@.len(),
            i <= n,
            out@ =~= a@ + b@.take(i as int),
        decreases n - i,
    {
        out.push(b[i]);
        i = i + 1;
    }
    proof {
        assert(a@ + b@.take(n as int) =~= a@ + b@);
    }
    out
}

impl GlobalCheckpoint {
    /// Fold one pairwise diff into the reconciliation. The first diff
    /// seeds the structure with both sides; a later diff must share one
    /// side with the structure, and extends the reconciled union by the
    /// other side's proposal.
    pub fn insert(&mut self, diff: WaypointDiff) -> (r: Result<(), SuiError>)
        requires
            old(self).wf(),
            diff.wf(),
            old(self).proposals@.contains_key(diff.first) ==> old(self).proposals@[diff.first]
                == diff.proposals@.0,
            old(self).proposals@.contains_key(diff.second) ==> old(self).proposals@[diff.second]
                == diff.proposals@.1,
            old(self).inserted().contains(diff.first) ==> old(self).proposals@.contains_key(
                diff.first,
            ),
            old(self).inserted().contains(diff.second) ==> old(self).proposals@.contains_key(
                diff.second,
            ),
        ensures
            final(self).checkpoint == old(self).checkpoint,
            match r {
                Ok(_) => {
                    &&& final(self).wf()
                    &&& final(self).inserted().to_set() == old(self).inserted().to_set().insert(
                        diff.first,
                    ).insert(diff.second)
                    &&& final(self).proposals@ == old(self).proposals@.insert(
                        diff.first,
                        diff.proposals@.0,
                    ).insert(diff.second, diff.proposals@.1)
                    &&& final(self).union() == old(self).union().union(diff.proposals@.0).union(
                        diff.proposals@.1,
                    )
                    &&& (old(self).inserted().len() > 0 ==> old(self).inserted().contains(
                        diff.first,
                    ) || old(self).inserted().contains(diff.second))
                },
                Err(e) => {
                    &&& e == SuiError::WaypointError
                    &&& *final(self) == *old(self)
                    &&& old(self).inserted().len() > 0
                    &&& !old(self).inserted().contains(diff.first)
                    &&& !old(self).inserted().contains(diff.second)
                },
            },
    {
        proof {
            self.authority_waypoints.lemma_view();
        }
        let ghost p0 = self.proposals@;
        let ghost keys0 = self.inserted();
        let ghost u0 = self.union();
        let ghost pn = p0.insert(diff.first, diff.proposals@.0).insert(
            diff.second,
            diff.proposals@.1,
        );
        if self.authority_waypoints.len() == 0 {
            self.authority_waypoints.insert(diff.first, copy_vec(&diff.first_missing));
            self.authority_waypoints.insert(diff.second, copy_vec(&diff.second_missing));
            proof {
                self.proposals = Ghost(pn);
            }
            proof {
                let p1 = diff.proposals@.0;
                let p2 = diff.proposals@.1;
                assert(self.inserted() =~= seq![diff.first, diff.second]);
                assert(self.inserted().drop_last() =~= seq![diff.first]);
                assert(self.inserted().drop_last().drop_last() =~= Seq::<u64>::empty());
                assert(pn.contains_key(diff.first) && pn[diff.first] == p1);
                assert(pn.contains_key(diff.second) && pn[diff.second] == p2);
                let ks = seq![diff.first, diff.second];
                assert(ks.drop_last() =~= seq![diff.first]);
                assert(seq![diff.first].drop_last() =~= Seq::<u64>::empty());
                assert(union_of(pn, Seq::<u64>::empty()) =~= Set::<u64>::empty());
                assert(union_of(pn, seq![diff.first]) =~= p1);
                assert(union_of(pn, ks) =~= p1.union(p2));
                assert(self.inserted() == ks);
                assert(self.union() =~= p1.union(p2));
                assert(self.union() =~= u0.union(p1).union(p2));
                assert(self.inserted().to_set() =~= keys0.to_set().insert(diff.first).insert(
                    diff.second,
                ));
                self.authority_waypoints.lemma_view();
                assert forall|i: int|
                    0 <= i < self.authority_waypoints.pairs().len() implies {
                    let k = (#[trigger] self.authority_waypoints.pairs()[i]).0;
                    let v = self.authority_waypoints.pairs()[i].1;
                    &&& self.proposals@.contains_key(k)
                    &&& v@.to_set().subset_of(self.union())
                    &&& v@.to_set().union(self.proposals@[k]) == self.union()
                } by {
                    let k = self.authority_waypoints.pairs()[i].0;
                    let v = self.authority_waypoints.pairs()[i].1;
                    if i == 0 {
                        assert(k == diff.first && v@ == diff.first_missing@);
                        assert(v@.to_set() == p2.difference(p1));
                        assert(v@.to_set().union(p1) =~= self.union());
                        assert(v@.to_set().subset_of(self.union()));
                    } else {
                        assert(k == diff.second && v@ == diff.second_missing@);
                        assert(v@.to_set() == p1.difference(p2));
                        assert(v@.to_set().union(p2) =~= self.union());
                        assert(v@.to_set().subset_of(self.union()));
                    }
                }
            }
            return Ok(());
        }
        let first_in = self.authority_waypoints.contains_key(diff.first);
        let second_in = self.authority_waypoints.contains_key(diff.second);
        if !first_in && !second_in {
            proof {
                if keys0.contains(diff.first) {
                    let i = choose|i: int| 0 <= i < keys0.len() && keys0[i] == diff.first;
                    assert(self.authority_waypoints.m().contains_key(diff.first));
                }
                if keys0.contains(diff.second) {
                    let i = choose|i: int| 0 <= i < keys0.len() && keys0[i] == diff.second;
                    assert(self.authority_waypoints.m().contains_key(diff.second));
                }
            }
            return Err(SuiError::WaypointError);
        }
        if first_in && second_in {
            proof {
                self.proposals = Ghost(pn);
            }
            proof {
                let i1 = choose|i: int|
                    0 <= i < keys0.len() && #[trigger] keys0[i] == diff.first;
                let i2 = choose|i: int|
                    0 <= i < keys0.len() && #[trigger] keys0[i] == diff.second;
                assert(p0.contains_key(diff.first) && p0.contains_key(diff.second));
                assert(pn =~= p0);
                assert(self.union() == u0) by {
                    lemma_union_of_agree(pn, p0, keys0);
                }
                assert(self.inserted().to_set() =~= keys0.to_set().insert(diff.first).insert(
                    diff.second,
                ));
                // the proposals of both sides already feed the union
                assert(self.authority_waypoints.pairs()[i1].0 == diff.first);
                assert(self.authority_waypoints.pairs()[i2].0 == diff.second);
                assert(p0[diff.first].subset_of(u0)) by {
                    let v = self.authority_waypoints.pairs()[i1].1;
                    assert(v@.to_set().union(p0[diff.first]) == u0);
                }
                assert(p0[diff.second].subset_of(u0)) by {
                    let v = self.authority_waypoints.pairs()[i2].1;
                    assert(v@.to_set().union(p0[diff.second]) == u0);
                }
                assert(self.union() =~= u0.union(diff.proposals@.0).union(diff.proposals@.1));
            }
            return Ok(());
        }
        // One side is known; extend every recorded missing set by what
        // the new side alone contributes, and derive the new side's
        // missing set from the known side's.
        let known = if first_in {
            diff.first
        } else {
            diff.second
        };
        let newname = if first_in {
            diff.second
        } else {
            diff.first
        };
        let added = if first_in {
            &diff.first_missing
        } else {
            &diff.second_missing
        };
        let tail = if first_in {
            &diff.second_missing
        } else {
            &diff.first_missing
        };
        let ghost p_known = if first_in {
            diff.proposals@.0
        } else {
            diff.proposals@.1
        };
        let ghost p_new = if first_in {
            diff.proposals@.1
        } else {
            diff.proposals@.0
        };
        let base = match self.authority_waypoints.get(known) {
            Some(v) => copy_vec(v),
            None => Vec::new(),
        };
        let n = self.authority_waypoints.len();
        proof {
            self.authority_waypoints.lemma_view();
            assert forall|p: int, q: int|
                0 <= p < q < self.authority_waypoints.pairs().len() implies (
            #[trigger] self.authority_waypoints.pairs()[p]).0 != (
            #[trigger] self.authority_waypoints.pairs()[q]).0 by {
                assert(self.authority_waypoints.keys_seq()[p]
                    == self.authority_waypoints.pairs()[p].0);
                assert(self.authority_waypoints.keys_seq()[q]
                    == self.authority_waypoints.pairs()[q].0);
            }
        }
        let mut rebuilt: VecMap<Vec<u64>> = VecMap::new();
        let mut i: usize = 0;
        while i < n
            invariant
                self.authority_waypoints.wf(),
                n == self.authority_waypoints.pairs().len(),
                i <= n,
                rebuilt.wf(),
                rebuilt.keys_seq() == self.authority_waypoints.keys_seq().take(i as int),
                rebuilt.pairs().len() == i,
                forall|j: int|
                    0 <= j < i ==> (#[trigger] rebuilt.pairs()[j]).0
                        == self.authority_waypoints.pairs()[j].0 && rebuilt.pairs()[j].1@
                        == self.authority_waypoints.pairs()[j].1@ + added@,
                forall|p: int, q: int|
                    0 <= p < q < self.authority_waypoints.pairs().len() ==> (
                    #[trigger] self.authority_waypoints.pairs()[p]).0 != (
                    #[trigger] self.authority_waypoints.pairs()[q]).0,
            decreases n - i,
        {
            proof {
                self.authority_waypoints.lemma_view();
            }
            let k = self.authority_waypoints.key_at(i);
            let v = self.authority_waypoints.value_at(i);
            let nv = concat_vecs(v, added);
            let ghost pre = rebuilt;
            rebuilt.insert(k, nv);
            proof {
                if pre.m().contains_key(k) {
                    pre.lemma_view();
                    let j = choose|j: int|
                        0 <= j < pre.keys_seq().len() && #[trigger] pre.keys_seq()[j] == k;
                    assert(self.authority_waypoints.keys_seq()[j]
                        == self.authority_waypoints.keys_seq()[i as int]);
                    assert(false);
                }
                assert(rebuilt.keys_seq() =~= self.authority_waypoints.keys_seq().take(i + 1));
            }
            i = i + 1;
        }
        proof {
            assert(self.authority_waypoints.keys_seq().take(n as int)
                =~= self.authority_waypoints.keys_seq());
        }
        let newv = concat_vecs(&base, tail);
        let ghost prenew = rebuilt;
        rebuilt.insert(newname, newv);
        proof {
            if prenew.m().contains_key(newname) {
                prenew.lemma_view();
                let j = choose|j: int|
                    0 <= j < prenew.keys_seq().len() && #[trigger] prenew.keys_seq()[j] == newname;
                assert(self.authority_waypoints.keys_seq()[j] == newname);
                assert(self.authority_waypoints.m().contains_key(newname));
                assert(false);
            }
        }
        self.authority_waypoints = rebuilt;
        proof {
            self.proposals = Ghost(pn);
        }
        proof {
            let keys1 = self.inserted();
            assert(keys1 =~= keys0.push(newname));
            // the new proposals map agrees with the old one on the old keys
            assert forall|j: int|
                0 <= j < keys0.len() implies pn.contains_key(#[trigger] keys0[j]) == p0.contains_key(
                keys0[j],
            ) && (p0.contains_key(keys0[j]) ==> pn[keys0[j]] == p0[keys0[j]]) by {
                let k = keys0[j];
                assert(old(self).authority_waypoints.m().contains_key(k));
                assert(!old(self).authority_waypoints.m().contains_key(newname));
                assert(k != newname);
                old(self).authority_waypoints.lemma_m_index(k);
                let jj = choose|jj: int|
                    0 <= jj < old(self).authority_waypoints.pairs().len() && (#[trigger] old(
                        self,
                    ).authority_waypoints.pairs()[jj]).0 == k;
                assert(p0.contains_key(k));
                if k == known {
                    assert(pn[k] == p_known);
                    assert(p0[k] == p_known);
                }
            }
            lemma_union_of_agree(pn, p0, keys0);
            assert(keys1.drop_last() =~= keys0);
            assert(pn.contains_key(newname) && pn[newname] == p_new);
            let u1 = self.union();
            assert(u1 == u0.union(p_new));
            // the known proposal is already inside the old union
            assert(old(self).authority_waypoints.m().contains_key(known));
            old(self).authority_waypoints.lemma_m_index(known);
            let ik = choose|ik: int|
                0 <= ik < old(self).authority_waypoints.pairs().len() && (#[trigger] old(
                    self,
                ).authority_waypoints.pairs()[ik]).0 == known;
            let vk = old(self).authority_waypoints.pairs()[ik].1;
            assert(p0.contains_key(known) && vk@.to_set().union(p0[known]) == u0);
            assert(p0[known] == p_known);
            assert(p_known.subset_of(u0));
            assert(u1 =~= u0.union(diff.proposals@.0).union(diff.proposals@.1)) by {
                if first_in {
                    assert(diff.proposals@.0 == p_known && diff.proposals@.1 == p_new);
                } else {
                    assert(diff.proposals@.0 == p_new && diff.proposals@.1 == p_known);
                }
            }
            assert(self.inserted().to_set() =~= keys0.to_set().insert(diff.first).insert(
                diff.second,
            )) by {
                assert(keys0.contains(known)) by {
                    old(self).authority_waypoints.lemma_view();
                    assert(old(self).authority_waypoints.keys_seq()[ik] == known);
                }
                assert forall|x: u64| self.inserted().to_set().contains(x) implies keys0.to_set().insert(
                    diff.first,
                ).insert(diff.second).contains(x) by {
                    let j = choose|j: int| 0 <= j < keys1.len() && keys1[j] == x;
                    if j < keys0.len() {
                        assert(keys0[j] == x);
                    }
                }
                assert forall|x: u64|
                    keys0.to_set().insert(diff.first).insert(diff.second).contains(
                        x,
                    ) implies self.inserted().to_set().contains(x) by {
                    if x == newname {
                        assert(keys1[keys1.len() - 1] == x);
                    } else if keys0.to_set().contains(x) {
                        let j = choose|j: int| 0 <= j < keys0.len() && keys0[j] == x;
                        assert(keys1[j] == x);
                    } else {
                        assert(x == known);
                        let j = choose|j: int| 0 <= j < keys0.len() && keys0[j] == known;
                        assert(keys1[j] == x);
                    }
                }
            }
            // well-formedness of every rebuilt entry
            let wm = diff.second_missing@.to_set();
            assert forall|j: int|
                0 <= j < self.authority_waypoints.pairs().len() implies {
                let k = (#[trigger] self.authority_waypoints.pairs()[j]).0;
                let v = self.authority_waypoints.pairs()[j].1;
                &&& self.proposals@.contains_key(k)
                &&& v@.to_set().subset_of(u1)
                &&& v@.to_set().union(self.proposals@[k]) == u1
            } by {
                let k = self.authority_waypoints.pairs()[j].0;
                let v = self.authority_waypoints.pairs()[j].1;
                if j < keys0.len() {
                    let ov = old(self).authority_waypoints.pairs()[j].1;
                    let ok = old(self).authority_waypoints.pairs()[j].0;
                    assert(k == ok && v@ == ov@ + added@);
                    lemma_concat_to_set(ov@, added@);
                    old(self).authority_waypoints.lemma_view();
                    assert(p0.contains_key(ok) && ov@.to_set().union(p0[ok]) == u0
                        && ov@.to_set().subset_of(u0));
                    assert(added@.to_set() == p_new.difference(p_known));
                    assert(pn.contains_key(k));
                    assert(pn[k] == p0[ok]) by {
                        assert(old(self).authority_waypoints.keys_seq()[j] == ok);
                        assert(keys0.contains(ok)) by {
                            assert(keys0[j] == ok);
                        }
                    }
                    assert(v@.to_set().union(pn[k]) =~= u1);
                    assert(v@.to_set().subset_of(u1));
                } else {
                    assert(k == newname && v@ == base@ + tail@);
                    lemma_concat_to_set(base@, tail@);
                    assert(base@ == vk@) by {
                        assert(old(self).authority_waypoints.m()[known]
                            == old(self).authority_waypoints.pairs()[ik].1);
                    }
                    assert(tail@.to_set() == p_known.difference(p_new));
                    assert(pn[k] == p_new);
                    assert(v@.to_set().union(p_new) =~= u1) by {
                        assert(vk@.to_set().union(p_known) == u0);
                    }
                    assert(v@.to_set().subset_of(u1)) by {
                        assert(vk@.to_set().subset_of(u0));
                    }
                }
            }
        }
        Ok(())
    }

    /// The reconciled item set, computed from one authority's own
    /// proposal (`items`, the first side of `diff`) and its diff against
    /// a contributing authority (the second side): the result is sorted,
    /// duplicate-free, and equals the reconciled union whichever pair it
    /// was computed from.
    pub fn checkpoint_items(&self, diff: &WaypointDiff, items: &Vec<u64>) -> (r: Result<
        Vec<u64>,
        SuiError,
    >)
        requires
            self.wf(),
            diff.wf(),
            items@.to_set() == diff.proposals@.0,
            self.proposals@.contains_key(diff.second) ==> self.proposals@[diff.second]
                == diff.proposals@.1,
        ensures
            match r {
                Ok(v) => {
                    &&& self.inserted().contains(diff.second)
                    &&& sorted_strict(v@)
                    &&& v@.to_set() == self.union()
                },
                Err(e) => {
                    &&& e == SuiError::WaypointError
                    &&& !self.inserted().contains(diff.second)
                },
            },
    {
        proof {
            self.authority_waypoints.lemma_view();
        }
        let missing2 = match self.authority_waypoints.get(diff.second) {
            Some(v) => v,
            None => {
                proof {
                    if self.inserted().contains(diff.second) {
                        let j = choose|j: int|
                            0 <= j < self.inserted().len() && self.inserted()[j] == diff.second;
                    }
                }
                return Err(SuiError::WaypointError);
            },
        };
        let keep = crate::checkpoint::seq_diff_exec(items, &diff.second_missing);
        let mut out: Vec<u64> = Vec::new();
        insert_all_sorted(&mut out, &keep);
        insert_all_sorted(&mut out, &diff.first_missing);
        insert_all_sorted(&mut out, missing2);
        proof {
            let p1 = diff.proposals@.0;
            let p2 = diff.proposals@.1;
            crate::checkpoint::lemma_seq_diff_set(items@, diff.second_missing@);
            assert(keep@.to_set() =~= p1.intersect(p2));
            assert(keep@.to_set().union(diff.first_missing@.to_set()) =~= p2);
            self.authority_waypoints.lemma_m_index(diff.second);
            let j = choose|j: int|
                0 <= j < self.authority_waypoints.pairs().len() && (
                #[trigger] self.authority_waypoints.pairs()[j]).0 == diff.second
                    && self.authority_waypoints.pairs()[j].1
                    == self.authority_waypoints.m()[diff.second];
            assert(self.proposals@.contains_key(diff.second));
            assert(missing2@.to_set().union(p2) == self.union());
            assert(self.inserted().contains(diff.second)) by {
                assert(self.inserted()[j] == diff.second);
            }
            assert(out@.to_set() =~= self.union());
        }
        Ok(out)
    }
}

/// Reconciliation diamond: two reconciliations over the same
/// contributing authorities and the same proposals have the same
/// reconciled union, so the sorted item lists `checkpoint_items`
/// returns from either are identical, whatever order the diffs were
/// inserted in and whichever proposal seeded each structure.
pub proof fn lemma_reconciliation_diamond(
    g1: GlobalCheckpoint,
    g2: GlobalCheckpoint,
    r1: Seq<u64>,
    r2: Seq<u64>,
)
    requires
        g1.wf(),
        g2.wf(),
        g1.inserted().to_set() == g2.inserted().to_set(),
        forall|k: u64|
            g1.inserted().to_set().contains(k) ==> g1.proposals@.contains_key(k)
                && g2.proposals@.contains_key(k) && g1.proposals@[k] == g2.proposals@[k],
        sorted_strict(r1),
        r1.to_set() == g1.union(),
        sorted_strict(r2),
        r2.to_set() == g2.union(),
    ensures
        g1.union() == g2.union(),
        r1 == r2,
{
    lemma_union_of_elements(g1.proposals@, g1.inserted());
    lemma_union_of_elements(g2.proposals@, g2.inserted());
    assert forall|x: u64| g1.union().contains(x) implies g2.union().contains(x) by {
        let i = choose|i: int|
            0 <= i < g1.inserted().len() && g1.proposals@.contains_key(
                #[trigger] g1.inserted()[i],
            ) && g1.proposals@[g1.inserted()[i]].contains(x);
        let k = g1.inserted()[i];
        assert(g1.inserted().to_set().contains(k));
        assert(g2.inserted().to_set().contains(k));
        let j = choose|j: int| 0 <= j < g2.inserted().len() && g2.inserted()[j] == k;
        assert(g2.proposals@.contains_key(g2.inserted()[j]) && g2.proposals@[g2.inserted()[j]].contains(x));
    }
    assert forall|x: u64| g2.union().contains(x) implies g1.union().contains(x) by {
        let i = choose|i: int|
            0 <= i < g2.inserted().len() && g2.proposals@.contains_key(
                #[trigger] g2.inserted()[i],
            ) && g2.proposals@[g2.inserted()[i]].contains(x);
        let k = g2.inserted()[i];
        assert(g2.inserted().to_set().contains(k));
        assert(g1.inserted().to_set().contains(k));
        let j = choose|j: int| 0 <= j < g1.inserted().len() && g1.inserted()[j] == k;
        assert(g1.proposals@.contains_key(g1.inserted()[j]) && g1.proposals@[g1.inserted()[j]].contains(x));
    }
    assert(g1.union() =~= g2.union());
    lemma_sorted_unique(r1, r2);
}

} // verus!
