//! An insertion-ordered map with `u64` keys, backed by a vector of pairs.
//!
//! The library keys every table by an integer identity (authority name,
//! object id, transaction digest), and several of them must be walked in
//! insertion order, so one small verified container serves them all. Its
//! mathematical view is a `Map<u64, V>` together with the key sequence.

use vstd::pervasive::VecAdditionalExecFns;
use vstd::prelude::*;

verus! {

/// Map from `u64` keys to values, keeping insertion order of the keys.
pub struct VecMap<V> {
    entries: Vec<(u64, V)>,
}

/// The map denoted by a sequence of key/value pairs; later pairs win.
pub open spec fn entries_map<V>(s: Seq<(u64, V)>) -> Map<u64, V>
    decreases s.len(),
{
    if s.len() == 0 {
        Map::empty()
    } else {
        entries_map(s.drop_last()).insert(s.last().0, s.last().1)
    }
}

impl<V> VecMap<V> {
    /// The mathematical map held.
    pub closed spec fn m(self) -> Map<u64, V> {
        entries_map(self.entries@)
    }

    /// The keys, in insertion order.
    pub closed spec fn keys_seq(self) -> Seq<u64> {
        self.entries@.map_values(|e: (u64, V)| e.0)
    }

    /// The key/value pairs, in insertion order.
    pub closed spec fn pairs(self) -> Seq<(u64, V)> {
        self.entries@
    }

    /// Well-formed: no key occurs twice.
    pub closed spec fn wf(self) -> bool {
        forall|i: int, j: int|
            0 <= i < j < self.entries@.len() ==> (#[trigger] self.entries@[i]).0 != (
            #[trigger] self.entries@[j]).0
    }

    pub fn new() -> (r: VecMap<V>)
        ensures
            r.wf(),
            r.m() == Map::<u64, V>::empty(),
            r.keys_seq() == Seq::<u64>::empty(),
            r.pairs() == Seq::<(u64, V)>::empty(),
    {
        VecMap { entries: Vec::new() }
    }

    pub fn len(&self) -> (r: usize)
        ensures
            r == self.keys_seq().len(),
            r == self.pairs().len(),
    {
        self.entries.len()
    }

    proof fn lemma_entries_map_domain(s: Seq<(u64, V)>)
        ensures
            forall|k: u64|
                #[trigger] entries_map(s).contains_key(k) <==> exists|i: int|
                    0 <= i < s.len() && (#[trigger] s[i]).0 == k,
        decreases s.len(),
    {
        if s.len() > 0 {
            Self::lemma_entries_map_domain(s.drop_last());
            assert forall|k: u64| #[trigger]
                entries_map(s).contains_key(k) implies exists|i: int|
                0 <= i < s.len() && (#[trigger] s[i]).0 == k by {
                if k == s.last().0 {
                    assert(s[s.len() - 1].0 == k);
                } else {
                    assert(entries_map(s.drop_last()).contains_key(k));
                    let i = choose|i: int| 0 <= i < s.drop_last().len() && (#[trigger] s.drop_last()[i]).0 == k;
                    assert(s.drop_last()[i] == s[i]);
                    assert(s[i].0 == k);
                }
            }
            assert forall|k: u64|
                exists|i: int| 0 <= i < s.len() && (#[trigger] s[i]).0 == k implies #[trigger]
                entries_map(s).contains_key(k) by {
                let i = choose|i: int| 0 <= i < s.len() && (#[trigger] s[i]).0 == k;
                if i < s.len() - 1 {
                    assert(s.drop_last()[i].0 == k);
                    assert(exists|j: int|
                        0 <= j < s.drop_last().len() && (#[trigger] s.drop_last()[j]).0 == k);
                    assert(entries_map(s.drop_last()).contains_key(k));
                } else {
                    assert(k == s.last().0);
                }
            }
        }
    }

    /// With distinct keys, the pair at each position is in the map.
    proof fn lemma_entries_map_at(s: Seq<(u64, V)>, i: int)
        requires
            forall|p: int, q: int|
                0 <= p < q < s.len() ==> (#[trigger] s[p]).0 != (#[trigger] s[q]).0,
            0 <= i < s.len(),
        ensures
            entries_map(s).contains_key(s[i].0),
            entries_map(s)[s[i].0] == s[i].1,
        decreases s.len(),
    {
        Self::lemma_entries_map_domain(s);
        if i == s.len() - 1 {
        } else {
            Self::lemma_entries_map_at(s.drop_last(), i);
            assert(s.drop_last()[i] == s[i]);
            assert(s.last().0 != s[i].0);
        }
    }

    /// The map's domain is exactly the set of keys in the sequence.
    pub proof fn lemma_view(self)
        requires
            self.wf(),
        ensures
            forall|k: u64|
                #[trigger] self.m().contains_key(k) <==> self.keys_seq().contains(k),
            forall|i: int|
                0 <= i < self.pairs().len() ==> self.m().contains_key(
                    (#[trigger] self.pairs()[i]).0,
                ) && self.m()[self.pairs()[i].0] == self.pairs()[i].1,
            self.m().dom().finite(),
            self.m().dom().len() == self.pairs().len(),
            self.keys_seq().len() == self.pairs().len(),
            forall|i: int|
                0 <= i < self.pairs().len() ==> (#[trigger] self.keys_seq()[i]) == self.pairs()[i].0,
            forall|i: int, j: int|
                0 <= i < j < self.keys_seq().len() ==> (#[trigger] self.keys_seq()[i]) != (
                #[trigger] self.keys_seq()[j]),
    {
        Self::lemma_entries_map_domain(self.entries@);
        assert forall|i: int| 0 <= i < self.pairs().len() implies self.m().contains_key(
            (#[trigger] self.pairs()[i]).0,
        ) && self.m()[self.pairs()[i].0] == self.pairs()[i].1 by {
            Self::lemma_entries_map_at(self.entries@, i);
        }
        assert forall|k: u64| #[trigger]
            self.m().contains_key(k) implies self.keys_seq().contains(k) by {
            let i = choose|i: int| 0 <= i < self.entries@.len() && (#[trigger] self.entries@[i]).0 == k;
            assert(self.keys_seq()[i] == k);
        }
        assert forall|k: u64| self.keys_seq().contains(k) implies #[trigger]
            self.m().contains_key(k) by {
            let i = choose|i: int| 0 <= i < self.keys_seq().len() && self.keys_seq()[i] == k;
            assert(self.entries@[i].0 == k);
        }
        Self::lemma_dom_len(self.entries@);
    }

    proof fn lemma_dom_len(s: Seq<(u64, V)>)
        requires
            forall|p: int, q: int|
                0 <= p < q < s.len() ==> (#[trigger] s[p]).0 != (#[trigger] s[q]).0,
        ensures
            entries_map(s).dom().finite(),
            entries_map(s).dom().len() == s.len(),
        decreases s.len(),
    {
        if s.len() > 0 {
            Self::lemma_dom_len(s.drop_last());
            Self::lemma_entries_map_domain(s.drop_last());
            assert(!entries_map(s.drop_last()).contains_key(s.last().0));
            assert(entries_map(s).dom() =~= entries_map(s.drop_last()).dom().insert(s.last().0));
        }
    }

    /// Search for a key; returns its position.
    fn find(&self, k: u64) -> (r: Option<usize>)
        requires
            self.wf(),
        ensures
            match r {
                Some(i) => i < self.pairs().len() && self.pairs()[i as int].0 == k
                    && self.m().contains_key(k) && self.m()[k] == self.pairs()[i as int].1,
                None => !self.m().contains_key(k),
            },
    {
        proof {
            self.lemma_view();
        }
        let mut i: usize = 0;
        while i < self.entries.len()
            invariant
                self.wf(),
                i <= self.pairs().len(),
                forall|j: int| 0 <= j < i ==> (#[trigger] self.pairs()[j]).0 != k,
                forall|q: u64|
                    #[trigger] self.m().contains_key(q) <==> self.keys_seq().contains(q),
                forall|j: int|
                    0 <= j < self.pairs().len() ==> self.m().contains_key(
                        (#[trigger] self.pairs()[j]).0,
                    ) && self.m()[self.pairs()[j].0] == self.pairs()[j].1,
            decreases self.pairs().len() - i,
        {
            if self.entries[i].0 == k {
                return Some(i);
            }
            i = i + 1;
        }
        proof {
            if self.m().contains_key(k) {
                let j = choose|j: int| 0 <= j < self.keys_seq().len() && self.keys_seq()[j] == k;
                assert(self.pairs()[j].0 == k);
            }
        }
        None
    }

    pub fn contains_key(&self, k: u64) -> (r: bool)
        requires
            self.wf(),
        ensures
            r == self.m().contains_key(k),
    {
        self.find(k).is_some()
    }

    pub fn get(&self, k: u64) -> (r: Option<&V>)
        requires
            self.wf(),
        ensures
            match r {
                Some(v) => self.m().contains_key(k) && *v == self.m()[k],
                None => !self.m().contains_key(k),
            },
    {
        match self.find(k) {
            Some(i) => Some(&self.entries[i].1),
            None => None,
        }
    }

    /// Insert or replace. A replaced key keeps its position; a new key is
    /// appended at the end of the order.
    pub fn insert(&mut self, k: u64, v: V)
        requires
            old(self).wf(),
        ensures
            final(self).wf(),
            final(self).m() == old(self).m().insert(k, v),
            old(self).m().contains_key(k) ==> final(self).keys_seq() == old(self).keys_seq(),
            !old(self).m().contains_key(k) ==> final(self).keys_seq() == old(self).keys_seq().push(k),
            !old(self).m().contains_key(k) ==> final(self).pairs() == old(self).pairs().push(
                (k, v),
            ),
            old(self).m().contains_key(k) ==> exists|i: int|
                0 <= i < old(self).pairs().len() && (#[trigger] old(self).pairs()[i]).0 == k
                    && final(self).pairs() == old(self).pairs().update(i, (k, v)),
    {
        proof {
            old(self).lemma_view();
        }
        let ghost prior = *self;
        match self.find(k) {
            Some(i) => {
                self.entries.set(i, (k, v));
                proof {
                    assert(self.keys_seq() =~= prior.keys_seq());
                    Self::lemma_update_at(prior.entries@, self.entries@, i as int, k, v);
                    assert(self.m() =~= prior.m().insert(k, v));
                    assert((#[trigger] prior.pairs()[i as int]).0 == k && self.pairs()
                        == prior.pairs().update(i as int, (k, v)));
                }
            },
            None => {
                self.entries.push((k, v));
                proof {
                    assert(self.entries@.drop_last() =~= prior.entries@);
                    assert(self.keys_seq() =~= prior.keys_seq().push(k));
                    assert(self.m() =~= prior.m().insert(k, v));
                }
            },
        }
    }

    /// Updating position `i` (same key) leaves the map as an insert.
    proof fn lemma_update_at(s0: Seq<(u64, V)>, s1: Seq<(u64, V)>, i: int, k: u64, v: V)
        requires
            forall|p: int, q: int|
                0 <= p < q < s0.len() ==> (#[trigger] s0[p]).0 != (#[trigger] s0[q]).0,
            0 <= i < s0.len(),
            s0[i].0 == k,
            s1 == s0.update(i, (k, v)),
        ensures
            entries_map(s1) == entries_map(s0).insert(k, v),
        decreases s0.len(),
    {
        if i == s0.len() - 1 {
            assert(s1.drop_last() =~= s0.drop_last());
            assert(entries_map(s1) =~= entries_map(s0).insert(k, v));
        } else {
            assert(s1.drop_last() =~= s0.drop_last().update(i, (k, v)));
            Self::lemma_update_at(s0.drop_last(), s1.drop_last(), i, k, v);
            assert(s1.last() == s0.last());
            assert(s0.last().0 != k);
            assert(entries_map(s1) =~= entries_map(s0).insert(k, v));
        }
    }

    /// Remove a key, keeping the order of the remaining entries.
    pub fn remove(&mut self, k: u64)
        requires
            old(self).wf(),
        ensures
            final(self).wf(),
            final(self).m() == old(self).m().remove(k),
            final(self).keys_seq() == old(self).keys_seq().remove_value(k),
            old(self).m().contains_key(k) ==> exists|i: int|
                0 <= i < old(self).pairs().len() && (#[trigger] old(self).pairs()[i]).0 == k
                    && final(self).pairs() == old(self).pairs().remove(i),
            !old(self).m().contains_key(k) ==> final(self).pairs() == old(self).pairs() && final(self).keys_seq() == old(self).keys_seq(),
    {
        proof {
            old(self).lemma_view();
        }
        let ghost prior = *self;
        match self.find(k) {
            Some(i) => {
                self.entries.remove(i);
                proof {
                    assert(self.entries@ =~= prior.entries@.remove(i as int));
                    Self::lemma_remove_at(prior.entries@, i as int);
                    assert(prior.keys_seq()[i as int] == k);
                    assert(forall|j: int|
                        0 <= j < i ==> (#[trigger] prior.keys_seq()[j]) != k);
                    assert(prior.keys_seq().index_of_first(k) == Some(i as int)) by {
                        let ks = prior.keys_seq();
                        ks.index_of_first_ensures(k);
                    }
                    assert(self.keys_seq() =~= prior.keys_seq().remove(i as int));
                    assert((#[trigger] prior.pairs()[i as int]).0 == k && self.pairs()
                        == prior.pairs().remove(i as int));
                }
            },
            None => {
                proof {
                    assert(self.m() =~= prior.m().remove(k));
                    assert(!prior.keys_seq().contains(k));
                    prior.keys_seq().index_of_first_ensures(k);
                    assert(self.keys_seq() =~= prior.keys_seq().remove_value(k));
                }
            },
        }
    }

    /// Removing position `i` removes exactly that key from the map.
    proof fn lemma_remove_at(s: Seq<(u64, V)>, i: int)
        requires
            forall|p: int, q: int|
                0 <= p < q < s.len() ==> (#[trigger] s[p]).0 != (#[trigger] s[q]).0,
            0 <= i < s.len(),
        ensures
            entries_map(s.remove(i)) == entries_map(s).remove(s[i].0),
        decreases s.len(),
    {
        let k = s[i].0;
        if i == s.len() - 1 {
            assert(s.remove(i) =~= s.drop_last());
            Self::lemma_entries_map_domain(s.drop_last());
            assert(!entries_map(s.drop_last()).contains_key(k));
            assert(entries_map(s.remove(i)) =~= entries_map(s).remove(k));
        } else {
            Self::lemma_remove_at(s.drop_last(), i);
            assert(s.remove(i).drop_last() =~= s.drop_last().remove(i));
            assert(s.remove(i).last() == s.last());
            assert(s.last().0 != k);
            assert(entries_map(s.remove(i)) =~= entries_map(s).remove(k));
        }
    }

    /// A key of the map names some pair of the sequence.
    pub proof fn lemma_m_index(self, k: u64)
        requires
            self.wf(),
            self.m().contains_key(k),
        ensures
            exists|i: int|
                0 <= i < self.pairs().len() && (#[trigger] self.pairs()[i]).0 == k
                    && self.pairs()[i].1 == self.m()[k],
    {
        self.lemma_view();
        let i = choose|i: int|
            0 <= i < self.keys_seq().len() && self.keys_seq()[i] == k;
        assert(self.pairs()[i].0 == k && self.pairs()[i].1 == self.m()[k]);
    }

    /// The insertion order lists each key once, and the keys sequence
    /// mirrors the pairs.
    pub proof fn lemma_pairs_distinct(self)
        requires
            self.wf(),
        ensures
            self.keys_seq().len() == self.pairs().len(),
            forall|i: int|
                0 <= i < self.pairs().len() ==> (#[trigger] self.pairs()[i]).0
                    == self.keys_seq()[i],
            forall|i: int, j: int|
                0 <= i < j < self.pairs().len() ==> (#[trigger] self.pairs()[i]).0 != (
                #[trigger] self.pairs()[j]).0,
    {
    }

    /// The key at position `i` of the insertion order.
    pub fn key_at(&self, i: usize) -> (r: u64)
        requires
            i < self.keys_seq().len(),
        ensures
            r == self.keys_seq()[i as int],
    {
        self.entries[i].0
    }

    /// The value at position `i` of the insertion order.
    pub fn value_at(&self, i: usize) -> (r: &V)
        requires
            self.wf(),
            i < self.pairs().len(),
        ensures
            *r == self.pairs()[i as int].1,
            self.m().contains_key(self.pairs()[i as int].0),
            self.m()[self.pairs()[i as int].0] == *r,
    {
        proof {
            self.lemma_view();
        }
        &self.entries[i].1
    }

    /// The keys as a vector, in insertion order.
    pub fn keys(&self) -> (r: Vec<u64>)
        ensures
            r@ == self.keys_seq(),
    {
        let mut out: Vec<u64> = Vec::new();
        let mut i: usize = 0;
        while i < self.entries.len()
            invariant
                i <= self.pairs().len(),
                out@ =~= self.keys_seq().take(i as int),
            decreases self.pairs().len() - i,
        {
            out.push(self.entries[i].0);
            i = i + 1;
        }
        proof {
            assert(self.keys_seq().take(self.keys_seq().len() as int) =~= self.keys_seq());
        }
        out
    }
}

impl<V: Copy> Clone for VecMap<V> {
    fn clone(&self) -> (r: Self)
        ensures
            r.pairs() == self.pairs(),
            r.m() == self.m(),
            r.keys_seq() == self.keys_seq(),
            r.wf() == self.wf(),
    {
        let mut out: Vec<(u64, V)> = Vec::new();
        let mut i: usize = 0;
        while i < self.entries.len()
            invariant
                i <= self.pairs().len(),
                out@ =~= self.pairs().take(i as int),
            decreases self.pairs().len() - i,
        {
            out.push(self.entries[i]);
            i = i + 1;
        }
        proof {
            assert(out@ =~= self.pairs());
        }
        VecMap { entries: out }
    }
}

impl<V: Copy> VecMap<V> {
    /// The key/value pairs as a vector, in insertion order.
    pub fn to_pairs(&self) -> (r: Vec<(u64, V)>)
        ensures
            r@ == self.pairs(),
    {
        let mut out: Vec<(u64, V)> = Vec::new();
        let n = self.len();
        let mut i: usize = 0;
        while i < n
            invariant
                n == self.pairs().len(),
                i <= n,
                out@ =~= self.pairs().take(i as int),
            decreases n - i,
        {
            let k = self.key_at(i);
            let v = *self.value_at_copy(i);
            out.push((k, v));
            i = i + 1;
        }
        proof {
            assert(self.pairs().take(n as int) =~= self.pairs());
        }
        out
    }

    /// The value at position `i` of the insertion order.
    fn value_at_copy(&self, i: usize) -> (r: &V)
        requires
            i < self.pairs().len(),
        ensures
            *r == self.pairs()[i as int].1,
    {
        &self.entries[i].1
    }

    /// Copy of the value under `k`, if present.
    pub fn get_copied(&self, k: u64) -> (r: Option<V>)
        requires
            self.wf(),
        ensures
            match r {
                Some(v) => self.m().contains_key(k) && v == self.m()[k],
                None => !self.m().contains_key(k),
            },
    {
        match self.get(k) {
            Some(v) => Some(*v),
            None => None,
        }
    }
}

/// Sum of the value components of a pair sequence.
pub open spec fn sum_pair_values(s: Seq<(u64, u64)>) -> int
    decreases s.len(),
{
    if s.len() == 0 {
        0
    } else {
        sum_pair_values(s.drop_last()) + s.last().1
    }
}

/// Value under a key, or zero where the key is absent.
pub open spec fn lookup_or_zero(m: Map<u64, u64>, k: u64) -> int {
    if m.contains_key(k) {
        m[k] as int
    } else {
        0
    }
}

/// Sum of `lookup_or_zero` over a sequence of keys.
pub open spec fn sum_lookup(m: Map<u64, u64>, keys: Seq<u64>) -> int
    decreases keys.len(),
{
    if keys.len() == 0 {
        0
    } else {
        sum_lookup(m, keys.drop_last()) + lookup_or_zero(m, keys.last())
    }
}

/// The sum of the values of a pair sequence is nonnegative.
proof fn lemma_sum_pair_values_nonneg(s: Seq<(u64, u64)>)
    ensures
        sum_pair_values(s) >= 0,
    decreases s.len(),
{
    if s.len() > 0 {
        lemma_sum_pair_values_nonneg(s.drop_last());
    }
}

/// Removing one pair subtracts exactly its value from the sum.
proof fn lemma_sum_pair_values_remove(s: Seq<(u64, u64)>, i: int)
    requires
        0 <= i < s.len(),
    ensures
        sum_pair_values(s.remove(i)) == sum_pair_values(s) - s[i].1,
    decreases s.len(),
{
    if i == s.len() - 1 {
        assert(s.remove(i) =~= s.drop_last());
    } else {
        lemma_sum_pair_values_remove(s.drop_last(), i);
        assert(s.remove(i).drop_last() =~= s.drop_last().remove(i));
        assert(s.remove(i).last() == s.last());
    }
}

/// Two maps that agree on every listed key give the same sum.
proof fn lemma_sum_lookup_agree(m1: Map<u64, u64>, m2: Map<u64, u64>, keys: Seq<u64>)
    requires
        forall|i: int|
            0 <= i < keys.len() ==> lookup_or_zero(m1, #[trigger] keys[i]) == lookup_or_zero(
                m2,
                keys[i],
            ),
    ensures
        sum_lookup(m1, keys) == sum_lookup(m2, keys),
    decreases keys.len(),
{
    if keys.len() > 0 {
        lemma_sum_lookup_agree(m1, m2, keys.drop_last());
        assert(lookup_or_zero(m1, keys.last()) == lookup_or_zero(m2, keys.last()));
    }
}

/// Distinct keys looked up in the map of a distinct-keyed pair sequence
/// sum to at most the sum of all the values: each key consumes its own
/// entry of the table.
proof fn lemma_sum_lookup_bound(s: Seq<(u64, u64)>, keys: Seq<u64>)
    requires
        forall|p: int, q: int|
            0 <= p < q < s.len() ==> (#[trigger] s[p]).0 != (#[trigger] s[q]).0,
        forall|p: int, q: int| 0 <= p < q < keys.len() ==> keys[p] != keys[q],
    ensures
        sum_lookup(entries_map(s), keys) <= sum_pair_values(s),
    decreases keys.len(),
{
    if keys.len() == 0 {
        lemma_sum_pair_values_nonneg(s);
    } else {
        let k = keys.last();
        let m = entries_map(s);
        if !m.contains_key(k) {
            lemma_sum_lookup_bound(s, keys.drop_last());
        } else {
            VecMap::<u64>::lemma_entries_map_domain(s);
            let i = choose|i: int| 0 <= i < s.len() && (#[trigger] s[i]).0 == k;
            VecMap::<u64>::lemma_entries_map_at(s, i);
            let s2 = s.remove(i);
            VecMap::<u64>::lemma_remove_at(s, i);
            lemma_sum_pair_values_remove(s, i);
            assert(forall|p: int, q: int|
                0 <= p < q < s2.len() ==> (#[trigger] s2[p]).0 != (#[trigger] s2[q]).0) by {
                assert(forall|p: int|
                    0 <= p < s2.len() ==> #[trigger] s2[p] == (if p < i {
                        s[p]
                    } else {
                        s[p + 1]
                    }));
            }
            lemma_sum_lookup_bound(s2, keys.drop_last());
            assert(forall|j: int|
                0 <= j < keys.drop_last().len() ==> lookup_or_zero(
                    entries_map(s2),
                    #[trigger] keys.drop_last()[j],
                ) == lookup_or_zero(m, keys.drop_last()[j])) by {
                assert(entries_map(s2) == m.remove(k));
                assert(forall|j: int| 0 <= j < keys.len() - 1 ==> #[trigger] keys[j] != k);
            }
            lemma_sum_lookup_agree(entries_map(s2), m, keys.drop_last());
            assert(lookup_or_zero(m, k) == s[i].1);
        }
    }
}

impl VecMap<u64> {
    /// Distinct keys cannot out-weigh the table: their looked-up values
    /// sum to at most the sum of all values.
    pub proof fn lemma_distinct_lookup_sum_bound(self, keys: Seq<u64>)
        requires
            self.wf(),
            forall|p: int, q: int| 0 <= p < q < keys.len() ==> keys[p] != keys[q],
        ensures
            sum_lookup(self.m(), keys) <= sum_pair_values(self.pairs()),
    {
        lemma_sum_lookup_bound(self.entries@, keys);
    }
}

} // verus!
