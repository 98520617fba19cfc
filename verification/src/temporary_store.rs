//! The per-execution overlay: input objects plus pending writes and
//! deletes, discarded wholesale on rollback and committed wholesale on
//! success. Exactly one execution owns an overlay; it is never shared.

use crate::base::{
    sat_add, ObjectDigest, ObjectId, ObjectRef, SequenceNumber, SuiError, TransactionDigest,
    OBJECT_DIGEST_DELETED, OBJECT_START_VERSION,
};
use crate::messages::{ExecutionStatus, TransactionEffects};
use crate::objects::{object_ref, Object, ObjectV, Owner};
use crate::vecmap::VecMap;
use vstd::prelude::*;

verus! {

/// Overlay over an authority's object set for one execution.
pub struct AuthorityTemporaryStore {
    /// The input objects, exactly as of just before the transaction.
    pub objects: VecMap<Object>,
    /// References of the owned (mutable) inputs, the gas object included.
    pub active_inputs: Vec<ObjectRef>,
    /// Pending writes: object id to its new state (version not yet bumped).
    pub written: VecMap<Object>,
    /// Pending deletes: object id to its input version.
    pub deleted: VecMap<u64>,
}

impl AuthorityTemporaryStore {
    /// Internal consistency of the overlay.
    pub open spec fn wf(self) -> bool {
        &&& self.objects.wf()
        &&& self.written.wf()
        &&& self.deleted.wf()
        &&& forall|i: int|
            0 <= i < self.objects.pairs().len() ==> (#[trigger] self.objects.pairs()[i]).1@.id
                == self.objects.pairs()[i].0 && self.objects.pairs()[i].1@.version < u64::MAX
        &&& forall|i: int|
            0 <= i < self.active_inputs@.len() ==> self.objects.m().contains_key(
                (#[trigger] self.active_inputs@[i]).0,
            )
        &&& forall|i: int|
            0 <= i < self.written.pairs().len() ==> (#[trigger] self.written.pairs()[i]).1@.id
                == self.written.pairs()[i].0
        &&& forall|k: u64|
            #[trigger] self.deleted.m().contains_key(k) ==> self.objects.m().contains_key(k)
                && self.deleted.m()[k] == self.objects.m()[k]@.version
        &&& forall|k: u64|
            #[trigger] self.written.m().contains_key(k) ==> !self.deleted.m().contains_key(k)
    }

    /// Version the committed state of `id` will carry: one past the input
    /// version for a mutation, the start version for a creation.
    pub open spec fn committed_version(self, id: ObjectId) -> SequenceNumber {
        if self.objects.m().contains_key(id) {
            (self.objects.m()[id]@.version + 1) as u64
        } else {
            OBJECT_START_VERSION
        }
    }

    /// The object state that committing the pending write of `id` yields.
    pub open spec fn committed_object(self, id: ObjectId) -> ObjectV {
        ObjectV {
            id,
            version: self.committed_version(id),
            owner: self.written.m()[id]@.owner,
            data: self.written.m()[id]@.data,
        }
    }

    /// The effects entry for the pending write of `id`.
    pub open spec fn committed_entry(self, id: ObjectId) -> (ObjectRef, Owner) {
        (object_ref(self.committed_object(id)), self.committed_object(id).owner)
    }

    /// Effects entries of the written keys in `keys` that mutate an input.
    pub open spec fn mutated_from(self, keys: Seq<u64>) -> Seq<(ObjectRef, Owner)>
        decreases keys.len(),
    {
        if keys.len() == 0 {
            Seq::empty()
        } else if self.objects.m().contains_key(keys.last()) {
            self.mutated_from(keys.drop_last()).push(self.committed_entry(keys.last()))
        } else {
            self.mutated_from(keys.drop_last())
        }
    }

    /// Effects entries of the written keys in `keys` that create an object.
    pub open spec fn created_from(self, keys: Seq<u64>) -> Seq<(ObjectRef, Owner)>
        decreases keys.len(),
    {
        if keys.len() == 0 {
            Seq::empty()
        } else if !self.objects.m().contains_key(keys.last()) {
            self.created_from(keys.drop_last()).push(self.committed_entry(keys.last()))
        } else {
            self.created_from(keys.drop_last())
        }
    }

    /// All mutation entries of the overlay, in write order.
    pub open spec fn effects_mutated(self) -> Seq<(ObjectRef, Owner)> {
        self.mutated_from(self.written.keys_seq())
    }

    /// All creation entries of the overlay, in write order.
    pub open spec fn effects_created(self) -> Seq<(ObjectRef, Owner)> {
        self.created_from(self.written.keys_seq())
    }

    /// References of the deleted inputs: version bumped past the input,
    /// digest the deletion sentinel.
    pub open spec fn effects_deleted(self) -> Seq<ObjectRef> {
        self.deleted.pairs().map_values(
            |p: (u64, u64)| (p.0, (p.1 + 1) as u64, OBJECT_DIGEST_DELETED),
        )
    }

    /// Saturating sum of the storage footprints of a pair sequence.
    pub open spec fn sum_sizes(s: Seq<(u64, Object)>) -> u64
        decreases s.len(),
    {
        if s.len() == 0 {
            0
        } else {
            sat_add(Self::sum_sizes(s.drop_last()), s.last().1@.data.storage_size())
        }
    }

    /// Storage gas charged for the overlay: the footprint of every
    /// pending write.
    pub open spec fn storage_cost_of(self) -> u64 {
        Self::sum_sizes(self.written.pairs())
    }

    /// Saturating sum of the input footprints of the keys in `s` that
    /// denote inputs of the execution.
    pub open spec fn sum_input_sizes(self, s: Seq<u64>) -> u64
        decreases s.len(),
    {
        if s.len() == 0 {
            0
        } else {
            sat_add(
                self.sum_input_sizes(s.drop_last()),
                if self.objects.m().contains_key(s.last()) {
                    self.objects.m()[s.last()]@.data.storage_size()
                } else {
                    0
                },
            )
        }
    }

    /// Storage rebate for the overlay: the input footprint of every
    /// mutated or deleted input, refunded because its old state goes away.
    pub open spec fn rebate_of(self) -> u64 {
        sat_add(
            self.sum_input_sizes(self.written.keys_seq()),
            self.sum_input_sizes(self.deleted.keys_seq()),
        )
    }

    /// Seed an overlay with the transaction's input objects. The active
    /// inputs are the address-owned ones, in input order.
    pub fn seed(input_objects: Vec<Object>) -> (r: AuthorityTemporaryStore)
        requires
            forall|i: int, j: int|
                0 <= i < j < input_objects@.len() ==> (#[trigger] input_objects@[i])@.id != (
                #[trigger] input_objects@[j])@.id,
            forall|i: int|
                0 <= i < input_objects@.len() ==> (#[trigger] input_objects@[i])@.version
                    < u64::MAX,
        ensures
            r.wf(),
            r.written.pairs().len() == 0,
            r.deleted.pairs().len() == 0,
            forall|i: int|
                0 <= i < input_objects@.len() ==> r.objects.m().contains_key(
                    (#[trigger] input_objects@[i])@.id,
                ) && r.objects.m()[input_objects@[i]@.id]@ == input_objects@[i]@,
            forall|k: u64|
                #[trigger] r.objects.m().contains_key(k) ==> exists|i: int|
                    0 <= i < input_objects@.len() && (#[trigger] input_objects@[i])@.id == k,
            r.active_inputs@ == input_objects@.filter(
                |o: Object| o@.owner is AddressOwner,
            ).map_values(|o: Object| object_ref(o@)),
    {
        let mut objects: VecMap<Object> = VecMap::new();
        let mut active: Vec<ObjectRef> = Vec::new();
        let n = input_objects.len();
        let mut i: usize = 0;
        while i < n
            invariant
                forall|p: int, q: int|
                    0 <= p < q < input_objects@.len() ==> (#[trigger] input_objects@[p])@.id != (
                    #[trigger] input_objects@[q])@.id,
                forall|p: int|
                    0 <= p < input_objects@.len() ==> (#[trigger] input_objects@[p])@.version
                        < u64::MAX,
                n == input_objects@.len(),
                i <= n,
                objects.wf(),
                forall|p: int|
                    0 <= p < objects.pairs().len() ==> (#[trigger] objects.pairs()[p]).1@.id
                        == objects.pairs()[p].0 && objects.pairs()[p].1@.version < u64::MAX,
                forall|p: int|
                    0 <= p < i ==> objects.m().contains_key((#[trigger] input_objects@[p])@.id)
                        && objects.m()[input_objects@[p]@.id]@ == input_objects@[p]@,
                forall|k: u64|
                    #[trigger] objects.m().contains_key(k) ==> exists|p: int|
                        0 <= p < i && (#[trigger] input_objects@[p])@.id == k,
                active@ == input_objects@.take(i as int).filter(
                    |o: Object| o@.owner is AddressOwner,
                ).map_values(|o: Object| object_ref(o@)),
                forall|j: int|
                    0 <= j < active@.len() ==> exists|p: int|
                        0 <= p < i && (#[trigger] active@[j]).0 == input_objects@[p]@.id,
            decreases n - i,
        {
            let obj = &input_objects[i];
            let owned = match obj.owner {
                Owner::AddressOwner(_) => true,
                _ => false,
            };
            proof {
                let pre = input_objects@.take(i as int);
                let post = input_objects@.take(i + 1);
                assert(post =~= pre.push(input_objects@[i as int]));
                Seq::<Object>::filter_distributes_over_add(
                    pre,
                    seq![input_objects@[i as int]],
                    |o: Object| o@.owner is AddressOwner,
                );
                assert(pre + seq![input_objects@[i as int]] =~= post);
                reveal_with_fuel(Seq::<_>::filter, 2);
                assert(seq![input_objects@[i as int]].drop_last() =~= Seq::<Object>::empty());
            }
            if owned {
                active.push(obj.compute_object_reference());
                proof {
                    let pre = input_objects@.take(i as int);
                    let fpred = |o: Object| o@.owner is AddressOwner;
                    assert(input_objects@.take(i + 1).filter(fpred) =~= pre.filter(fpred).push(
                        input_objects@[i as int],
                    ));
                    assert(active@ =~= input_objects@.take(i + 1).filter(fpred).map_values(
                        |o: Object| object_ref(o@),
                    ));
                    assert(active@.last().0 == input_objects@[i as int]@.id);
                }
            } else {
                proof {
                    let pre = input_objects@.take(i as int);
                    let fpred = |o: Object| o@.owner is AddressOwner;
                    assert(input_objects@.take(i + 1).filter(fpred) =~= pre.filter(fpred));
                }
            }
            let id = obj.id();
            let ghost prior = objects;
            objects.insert(id, obj.clone_object());
            proof {
                prior.lemma_view();
                objects.lemma_view();
                if prior.m().contains_key(id) {
                    let p = choose|p: int|
                        0 <= p < i && (#[trigger] input_objects@[p])@.id == id;
                    assert(input_objects@[p]@.id == input_objects@[i as int]@.id);
                    assert(false);
                }
                assert(objects.pairs() =~= prior.pairs().push((id, objects.pairs().last().1)));
            }
            i = i + 1;
        }
        proof {
            assert(input_objects@.take(n as int) =~= input_objects@);
            assert forall|j: int| 0 <= j < active@.len() implies objects.m().contains_key(
                (#[trigger] active@[j]).0,
            ) by {
                let p = choose|p: int|
                    0 <= p < n && (#[trigger] active@[j]).0 == input_objects@[p]@.id;
                assert(objects.m().contains_key(input_objects@[p]@.id));
            }
        }
        AuthorityTemporaryStore {
            objects,
            active_inputs: active,
            written: VecMap::new(),
            deleted: VecMap::new(),
        }
    }

    /// The object state `id` currently denotes through the overlay:
    /// a pending write wins, a pending delete hides, else the input.
    pub open spec fn current_object(self, id: ObjectId) -> Option<ObjectV> {
        if self.written.m().contains_key(id) {
            Some(self.written.m()[id]@)
        } else if self.deleted.m().contains_key(id) {
            None
        } else if self.objects.m().contains_key(id) {
            Some(self.objects.m()[id]@)
        } else {
            None
        }
    }

    /// Read `id` through the overlay.
    pub fn read_object(&self, id: ObjectId) -> (r: Option<&Object>)
        requires
            self.wf(),
        ensures
            match r {
                Some(o) => self.current_object(id) == Some(o@),
                None => self.current_object(id) is None,
            },
    {
        match self.written.get(id) {
            Some(o) => Some(o),
            None => {
                if self.deleted.contains_key(id) {
                    None
                } else {
                    self.objects.get(id)
                }
            },
        }
    }

    /// Record a pending write of `object` (keyed by its id); undoes a
    /// pending delete of the same id.
    pub fn write_object(&mut self, object: Object)
        requires
            old(self).wf(),
        ensures
            final(self).wf(),
            final(self).objects == old(self).objects,
            final(self).active_inputs == old(self).active_inputs,
            final(self).written.m() == old(self).written.m().insert(object@.id, object),
            old(self).written.m().contains_key(object@.id) ==> final(self).written.keys_seq()
                == old(self).written.keys_seq(),
            !old(self).written.m().contains_key(object@.id) ==> final(self).written.keys_seq()
                == old(self).written.keys_seq().push(object@.id),
            !old(self).written.m().contains_key(object@.id) ==> final(self).written.pairs() == old(self).written.pairs().push((object@.id, object)),
            old(self).written.m().contains_key(object@.id) ==> exists|i: int|
                0 <= i < old(self).written.pairs().len() && (#[trigger] old(self).written.pairs()[i]).0 == object@.id && final(self).written.pairs() == old(self).written.pairs().update(i, (object@.id, object)),
            final(self).deleted.m() == old(self).deleted.m().remove(object@.id),
            !old(self).deleted.m().contains_key(object@.id) ==> final(self).deleted.pairs() == old(self).deleted.pairs() && final(self).deleted.keys_seq() == old(self).deleted.keys_seq(),
    {
        let id = object.id();
        self.deleted.remove(id);
        self.written.insert(id, object);
        proof {
            self.written.lemma_view();
        }
    }

    /// Record a pending delete of the input object `id`; undoes a
    /// pending write of the same id.
    pub fn delete_object(&mut self, id: ObjectId)
        requires
            old(self).wf(),
            old(self).objects.m().contains_key(id),
        ensures
            final(self).wf(),
            final(self).objects == old(self).objects,
            final(self).active_inputs == old(self).active_inputs,
            final(self).written.m() == old(self).written.m().remove(id),
            final(self).deleted.m() == old(self).deleted.m().insert(
                id,
                old(self).objects.m()[id]@.version,
            ),
    {
        proof {
            self.objects.lemma_view();
        }
        let version = match self.objects.get(id) {
            Some(o) => o.version(),
            None => 0,
        };
        self.written.remove(id);
        self.deleted.insert(id, version);
        proof {
            self.deleted.lemma_view();
            self.written.lemma_view();
        }
    }

    /// Discard every pending write and delete (full rollback).
    pub fn reset(&mut self)
        requires
            old(self).wf(),
        ensures
            final(self).wf(),
            final(self).objects == old(self).objects,
            final(self).active_inputs == old(self).active_inputs,
            final(self).written.pairs().len() == 0,
            final(self).written.m() == Map::<u64, Object>::empty(),
            final(self).deleted.pairs().len() == 0,
            final(self).deleted.m() == Map::<u64, u64>::empty(),
    {
        self.written = VecMap::new();
        self.deleted = VecMap::new();
    }

    /// Mark every active input as mutated even if no operation touched
    /// it: any input not pending a write or delete is re-written
    /// unchanged, so its version still moves and authorities stay in
    /// step on versions.
    pub fn ensure_active_inputs_mutated(&mut self)
        requires
            old(self).wf(),
        ensures
            final(self).wf(),
            final(self).objects == old(self).objects,
            final(self).active_inputs == old(self).active_inputs,
            final(self).deleted == old(self).deleted,
            forall|i: int|
                0 <= i < final(self).active_inputs@.len() ==> final(self).written.m().contains_key(
                    (#[trigger] final(self).active_inputs@[i]).0,
                ) || final(self).deleted.m().contains_key(final(self).active_inputs@[i].0),
            forall|k: u64|
                #[trigger] old(self).written.m().contains_key(k) ==> final(self).written.m().contains_key(k) && final(self).written.m()[k] == old(self).written.m()[k],
            forall|k: u64|
                #[trigger] final(self).written.m().contains_key(k) ==> old(self).written.m().contains_key(k) || (old(self).objects.m().contains_key(k) && final(self).written.m()[k]@ == old(self).objects.m()[k]@),
    {
        let n = self.active_inputs.len();
        let mut i: usize = 0;
        while i < n
            invariant
                self.wf(),
                old(self).wf(),
                n == self.active_inputs@.len(),
                i <= n,
                self.objects == old(self).objects,
                self.active_inputs == old(self).active_inputs,
                self.deleted == old(self).deleted,
                forall|p: int|
                    0 <= p < i ==> self.written.m().contains_key(
                        (#[trigger] self.active_inputs@[p]).0,
                    ) || self.deleted.m().contains_key(self.active_inputs@[p].0),
                forall|k: u64|
                    #[trigger] old(self).written.m().contains_key(k) ==> self.written.m().contains_key(
                        k,
                    ) && self.written.m()[k] == old(self).written.m()[k],
                forall|k: u64|
                    #[trigger] self.written.m().contains_key(k) ==> old(self).written.m().contains_key(k) || (old(self).objects.m().contains_key(k)
                        && self.written.m()[k]@ == old(self).objects.m()[k]@),
            decreases n - i,
        {
            let id = self.active_inputs[i].0;
            if !self.written.contains_key(id) && !self.deleted.contains_key(id) {
                proof {
                    self.objects.lemma_view();
                }
                let obj = match self.objects.get(id) {
                    Some(o) => o.clone_object(),
                    None => {
                        proof {
                            assert(false);
                        }
                        Object::with_id_owner_for_testing(0, 0)
                    },
                };
                self.written.insert(id, obj);
            }
            i = i + 1;
        }
    }

    /// Each mutation entry is the committed entry of some written input
    /// key.
    pub proof fn lemma_mutated_entry_origin(self, keys: Seq<u64>, i: int)
        requires
            0 <= i < self.mutated_from(keys).len(),
        ensures
            exists|j: int|
                0 <= j < keys.len() && self.objects.m().contains_key(#[trigger] keys[j])
                    && self.mutated_from(keys)[i] == self.committed_entry(keys[j]),
        decreases keys.len(),
    {
        if keys.len() > 0 {
            if self.objects.m().contains_key(keys.last()) {
                if i < self.mutated_from(keys).len() - 1 {
                    self.lemma_mutated_entry_origin(keys.drop_last(), i);
                    let j = choose|j: int|
                        0 <= j < keys.drop_last().len() && self.objects.m().contains_key(
                            #[trigger] keys.drop_last()[j],
                        ) && self.mutated_from(keys.drop_last())[i] == self.committed_entry(
                            keys.drop_last()[j],
                        );
                    assert(keys[j] == keys.drop_last()[j]);
                    assert(self.mutated_from(keys)[i] == self.mutated_from(keys.drop_last())[i]);
                } else {
                    assert(keys[keys.len() - 1] == keys.last());
                    assert(self.mutated_from(keys)[i] == self.committed_entry(keys.last()));
                }
            } else {
                self.lemma_mutated_entry_origin(keys.drop_last(), i);
                let j = choose|j: int|
                    0 <= j < keys.drop_last().len() && self.objects.m().contains_key(
                        #[trigger] keys.drop_last()[j],
                    ) && self.mutated_from(keys.drop_last())[i] == self.committed_entry(
                        keys.drop_last()[j],
                    );
                assert(keys[j] == keys.drop_last()[j]);
            }
        }
    }

    /// Each creation entry is the committed entry of some fresh written
    /// key.
    pub proof fn lemma_created_entry_origin(self, keys: Seq<u64>, i: int)
        requires
            0 <= i < self.created_from(keys).len(),
        ensures
            exists|j: int|
                0 <= j < keys.len() && !self.objects.m().contains_key(#[trigger] keys[j])
                    && self.created_from(keys)[i] == self.committed_entry(keys[j]),
        decreases keys.len(),
    {
        if keys.len() > 0 {
            if !self.objects.m().contains_key(keys.last()) {
                if i < self.created_from(keys).len() - 1 {
                    self.lemma_created_entry_origin(keys.drop_last(), i);
                    let j = choose|j: int|
                        0 <= j < keys.drop_last().len() && !self.objects.m().contains_key(
                            #[trigger] keys.drop_last()[j],
                        ) && self.created_from(keys.drop_last())[i] == self.committed_entry(
                            keys.drop_last()[j],
                        );
                    assert(keys[j] == keys.drop_last()[j]);
                    assert(self.created_from(keys)[i] == self.created_from(keys.drop_last())[i]);
                } else {
                    assert(keys[keys.len() - 1] == keys.last());
                    assert(self.created_from(keys)[i] == self.committed_entry(keys.last()));
                }
            } else {
                self.lemma_created_entry_origin(keys.drop_last(), i);
                let j = choose|j: int|
                    0 <= j < keys.drop_last().len() && !self.objects.m().contains_key(
                        #[trigger] keys.drop_last()[j],
                    ) && self.created_from(keys.drop_last())[i] == self.committed_entry(
                        keys.drop_last()[j],
                    );
                assert(keys[j] == keys.drop_last()[j]);
            }
        }
    }

    /// A committed `Object` value for the pending write at position `i`
    /// of the write order.
    fn committed_object_at(&self, i: usize) -> (r: Object)
        requires
            self.wf(),
            i < self.written.pairs().len(),
        ensures
            r@ == self.committed_object(self.written.keys_seq()[i as int]),
    {
        proof {
            self.written.lemma_view();
            self.objects.lemma_view();
        }
        let k = self.written.key_at(i);
        let obj = self.written.value_at(i);
        let version: u64 = match self.objects.get(k) {
            Some(o) => {
                proof {
                    let j = choose|j: int|
                        0 <= j < self.objects.keys_seq().len() && self.objects.keys_seq()[j] == k;
                    assert(self.objects.pairs()[j].0 == k);
                    assert(self.objects.m()[k] == self.objects.pairs()[j].1);
                }
                o.version() + 1
            },
            None => crate::base::OBJECT_START_VERSION,
        };
        Object { id: k, version, owner: obj.owner, data: obj.data.clone_data() }
    }

    /// The committed object state of every pending write, in write order.
    pub fn committed_objects(&self) -> (r: Vec<Object>)
        requires
            self.wf(),
        ensures
            r@.len() == self.written.pairs().len(),
            forall|i: int|
                0 <= i < r@.len() ==> (#[trigger] r@[i])@ == self.committed_object(
                    self.written.keys_seq()[i],
                ),
    {
        proof {
            self.written.lemma_view();
        }
        let n = self.written.len();
        let mut out: Vec<Object> = Vec::new();
        let mut i: usize = 0;
        while i < n
            invariant
                self.wf(),
                n == self.written.pairs().len(),
                i <= n,
                out@.len() == i,
                forall|j: int|
                    0 <= j < i ==> (#[trigger] out@[j])@ == self.committed_object(
                        self.written.keys_seq()[j],
                    ),
            decreases n - i,
        {
            out.push(self.committed_object_at(i));
            i = i + 1;
        }
        out
    }

    /// The pending deletes as (id, input version) pairs, in delete order.
    pub fn deleted_entries(&self) -> (r: Vec<(u64, u64)>)
        requires
            self.wf(),
        ensures
            r@ == self.deleted.pairs(),
    {
        self.deleted.to_pairs()
    }

    /// Build the transaction's effects from the overlay: the pending
    /// writes split into created and mutated entries in write order, the
    /// pending deletes as sentinel references, the gas entry, and the
    /// given status, digest and dependencies.
    pub fn to_effects(
        &self,
        transaction_digest: TransactionDigest,
        dependencies: Vec<TransactionDigest>,
        status: ExecutionStatus,
        gas_object_id: ObjectId,
    ) -> (r: TransactionEffects)
        requires
            self.wf(),
            self.written.m().contains_key(gas_object_id),
        ensures
            r@.status == status,
            r@.transaction_digest == transaction_digest,
            r@.created == self.effects_created(),
            r@.mutated == self.effects_mutated(),
            r@.deleted == self.effects_deleted(),
            r@.gas_object == self.committed_entry(gas_object_id),
            r@.dependencies == dependencies@,
    {
        proof {
            self.written.lemma_view();
        }
        let n = self.written.len();
        let keys = Ghost(self.written.keys_seq());
        let mut created: Vec<(ObjectRef, Owner)> = Vec::new();
        let mut mutated: Vec<(ObjectRef, Owner)> = Vec::new();
        let mut gas_entry: Option<(ObjectRef, Owner)> = None;
        let mut i: usize = 0;
        while i < n
            invariant
                self.wf(),
                self.written.m().contains_key(gas_object_id),
                n == self.written.pairs().len(),
                keys@ == self.written.keys_seq(),
                keys@.len() == n,
                forall|j: int| 0 <= j < n ==> (#[trigger] keys@[j]) == self.written.pairs()[j].0,
                i <= n,
                mutated@ == self.mutated_from(keys@.take(i as int)),
                created@ == self.created_from(keys@.take(i as int)),
                match gas_entry {
                    Some(e) => e == self.committed_entry(gas_object_id),
                    None => forall|j: int| 0 <= j < i ==> (#[trigger] keys@[j]) != gas_object_id,
                },
            decreases n - i,
        {
            let k = self.written.key_at(i);
            let obj = self.committed_object_at(i);
            let entry = (obj.compute_object_reference(), obj.owner);
            let is_input = self.objects.contains_key(k);
            proof {
                assert(entry == self.committed_entry(k));
                assert(keys@.take(i + 1).drop_last() =~= keys@.take(i as int));
                assert(keys@.take(i + 1).last() == k);
            }
            if is_input {
                mutated.push(entry);
                proof {
                    assert(mutated@ =~= self.mutated_from(keys@.take(i + 1)));
                    assert(created@ =~= self.created_from(keys@.take(i + 1)));
                }
            } else {
                created.push(entry);
                proof {
                    assert(created@ =~= self.created_from(keys@.take(i + 1)));
                    assert(mutated@ =~= self.mutated_from(keys@.take(i + 1)));
                }
            }
            if k == gas_object_id {
                gas_entry = Some(entry);
            }
            i = i + 1;
        }
        proof {
            assert(keys@.take(n as int) =~= keys@);
            if gas_entry is None {
                let j = choose|j: int|
                    0 <= j < keys@.len() && keys@[j] == gas_object_id;
                assert(false);
            }
        }
        let gas_object = match gas_entry {
            Some(e) => e,
            None => ((0, 0, 0), Owner::Immutable),
        };
        let n2 = self.deleted.len();
        let mut deleted: Vec<ObjectRef> = Vec::new();
        let mut i2: usize = 0;
        while i2 < n2
            invariant
                self.wf(),
                n2 == self.deleted.pairs().len(),
                i2 <= n2,
                deleted@ =~= self.effects_deleted().take(i2 as int),
            decreases n2 - i2,
        {
            proof {
                self.deleted.lemma_view();
            }
            let k = self.deleted.key_at(i2);
            let v = *self.deleted.value_at(i2);
            proof {
                assert(self.deleted.m().contains_key(self.deleted.pairs()[i2 as int].0));
                assert(self.objects.m().contains_key(k));
                self.objects.lemma_m_index(k);
                assert(v < u64::MAX);
            }
            deleted.push((k, v + 1, crate::base::OBJECT_DIGEST_DELETED));
            i2 = i2 + 1;
        }
        proof {
            assert(self.effects_deleted().take(n2 as int) =~= self.effects_deleted());
        }
        let r = TransactionEffects {
            status,
            transaction_digest,
            created,
            mutated,
            deleted,
            gas_object,
            dependencies,
        };
        r
    }
}

} // verus!
