//! One authority's server-side state: the versioned object store, the
//! per-object transaction locks, the votes, certificates and effects it
//! has recorded, and the handlers that accept transactions and execute
//! certificates.

use crate::base::{
    AuthorityName, ObjectDigest, ObjectId, ObjectRef, SequenceNumber, SuiError, TransactionDigest,
    OBJECT_DIGEST_DELETED,
};
use crate::committee::Committee;
use crate::messages::{
    check_certificate, valid_certificate, CertifiedTransaction, ConfirmationTransaction,
    MoveModulePublish, SignedTransaction, SignedTransactionEffects, SingleTransactionKind,
    SingleTransactionKindV, Transaction, TransactionInfoResponse,
};
use crate::objects::{object_digest, Data, DataV, Object, ObjectV, Owner};
use crate::vecmap::VecMap;
use vstd::prelude::*;

verus! {

/// The lock slot of one owned object: the object's current version and
/// digest, and the vote this authority gave away for it, if any.
pub struct LockEntry {
    pub version: SequenceNumber,
    pub digest: ObjectDigest,
    pub vote: Option<SignedTransaction>,
}

/// The input object references of a sequence of operations, in
/// declaration order: transfer objects and call arguments.
pub open spec fn kinds_input_refs(s: Seq<SingleTransactionKindV>) -> Seq<ObjectRef>
    decreases s.len(),
{
    if s.len() == 0 {
        Seq::empty()
    } else {
        kinds_input_refs(s.drop_last()) + (match s.last() {
            SingleTransactionKindV::Transfer(t) => seq![t.object_ref],
            SingleTransactionKindV::Call(c) => c.object_arguments,
            SingleTransactionKindV::Publish(_) => Seq::empty(),
        })
    }
}

/// The full current reference of an object state.
pub open spec fn object_digest_ref(o: crate::objects::ObjectV) -> ObjectRef {
    crate::objects::object_ref(o)
}

/// Whether some entry of the sequence carries exactly this reference.
pub open spec fn has_ref(s: Seq<(ObjectRef, Owner)>, r: ObjectRef) -> bool {
    exists|j: int| 0 <= j < s.len() && (#[trigger] s[j]).0 == r
}

/// Whether some object of the sequence carries the id.
pub open spec fn has_object_id(s: Seq<Object>, id: u64) -> bool {
    exists|j: int| 0 <= j < s.len() && (#[trigger] s[j])@.id == id
}

/// All owned input references of a transaction: the operations' inputs
/// plus the gas payment.
pub open spec fn input_refs(d: crate::messages::TransactionDataV) -> Seq<ObjectRef> {
    kinds_input_refs(d.kinds).push(d.gas_payment)
}

/// One authority's state.
pub struct AuthorityState {
    pub name: AuthorityName,
    pub committee: Committee,
    /// Live objects by id.
    pub objects: VecMap<Object>,
    /// Lock slot per owned object id, tracking its current reference.
    pub order_lock: VecMap<LockEntry>,
    /// This authority's own votes, by transaction digest.
    pub signed_transactions: VecMap<SignedTransaction>,
    /// Certificates executed here, by transaction digest.
    pub certificates: VecMap<CertifiedTransaction>,
    /// Effects of executed certificates, by transaction digest.
    pub signed_effects: VecMap<SignedTransactionEffects>,
    /// Append-only history: which transaction produced which object state.
    pub parent_sync: Vec<(ObjectRef, TransactionDigest)>,
}

impl AuthorityState {
    /// Internal consistency: objects keyed by their id with room to bump
    /// versions, exactly the address-owned objects carry a lock slot
    /// tracking their current reference, and the vote, certificate and
    /// effects tables are keyed by their transaction digests.
    pub open spec fn wf(self) -> bool {
        &&& self.committee.wf()
        &&& self.objects.wf()
        &&& self.order_lock.wf()
        &&& self.signed_transactions.wf()
        &&& self.certificates.wf()
        &&& self.signed_effects.wf()
        &&& forall|i: int|
            0 <= i < self.objects.pairs().len() ==> (#[trigger] self.objects.pairs()[i]).1@.id
                == self.objects.pairs()[i].0 && self.objects.pairs()[i].1@.version < u64::MAX
        &&& forall|k: u64|
            #[trigger] self.order_lock.m().contains_key(k) ==> self.objects.m().contains_key(k)
                && self.objects.m()[k]@.owner is AddressOwner && self.order_lock.m()[k].version
                == self.objects.m()[k]@.version && self.order_lock.m()[k].digest == object_digest(
                self.objects.m()[k]@,
            )
        &&& forall|i: int|
            0 <= i < self.objects.pairs().len() ==> ((#[trigger] self.objects.pairs()[i]).1@.owner
                is AddressOwner ==> self.order_lock.m().contains_key(self.objects.pairs()[i].0))
        &&& forall|i: int|
            0 <= i < self.signed_transactions.pairs().len() ==> {
                let v = (#[trigger] self.signed_transactions.pairs()[i]).1@;
                &&& v.transaction.digest() == self.signed_transactions.pairs()[i].0
                &&& v.auth_signature.authority == self.name
                &&& crate::messages::signature_valid(
                    v.auth_signature.signature,
                    self.name,
                    self.signed_transactions.pairs()[i].0,
                )
            }
        &&& forall|i: int|
            0 <= i < self.certificates.pairs().len() ==> (
            #[trigger] self.certificates.pairs()[i]).1@.transaction.digest()
                == self.certificates.pairs()[i].0
        &&& forall|i: int|
            0 <= i < self.signed_effects.pairs().len() ==> {
                let v = (#[trigger] self.signed_effects.pairs()[i]).1@;
                &&& v.effects.transaction_digest == self.signed_effects.pairs()[i].0
                &&& v.auth_signature.authority == self.name
                &&& crate::messages::signature_valid(
                    v.auth_signature.signature,
                    self.name,
                    crate::messages::digest_of_effects(v.effects),
                )
            }
    }


    // -----------------------------------------------------------------
    // Admissibility of a transaction
    // -----------------------------------------------------------------
    /// Every reference names a live object at exactly that version and
    /// digest.
    pub open spec fn inputs_exact(self, refs: Seq<ObjectRef>) -> bool {
        forall|i: int|
            0 <= i < refs.len() ==> {
                let r = #[trigger] refs[i];
                &&& self.objects.m().contains_key(r.0)
                &&& self.objects.m()[r.0]@.version == r.1
                &&& object_digest(self.objects.m()[r.0]@) == r.2
            }
    }

    /// Every transfer operation moves an address-owned object.
    pub open spec fn transfers_owned(self, kinds: Seq<SingleTransactionKindV>) -> bool {
        forall|i: int|
            0 <= i < kinds.len() ==> ((#[trigger] kinds[i])
                matches SingleTransactionKindV::Transfer(t) ==> self.objects.m().contains_key(
                t.object_ref.0,
            ) && self.objects.m()[t.object_ref.0]@.owner is AddressOwner)
    }

    /// The gas payment is a coin the sender owns with enough balance for
    /// the budget.
    pub open spec fn gas_ok(self, d: crate::messages::TransactionDataV) -> bool {
        let g = d.gas_payment.0;
        &&& self.objects.m().contains_key(g)
        &&& self.objects.m()[g]@.owner == Owner::AddressOwner(d.sender)
        &&& (self.objects.m()[g]@.data matches DataV::Coin { balance } && balance >= d.gas_budget)
    }

    /// Every input object belongs to the sender.
    pub open spec fn inputs_owned_by(self, refs: Seq<ObjectRef>, sender: u64) -> bool {
        forall|i: int|
            0 <= i < refs.len() ==> self.objects.m().contains_key((#[trigger] refs[i]).0)
                && self.objects.m()[refs[i].0]@.owner == Owner::AddressOwner(sender)
    }

    /// Some stored package publishes a module named `dep`.
    pub open spec fn module_known(self, dep: u64) -> bool {
        exists|i: int|
            0 <= i < self.objects.pairs().len() && ((#[trigger] self.objects.pairs()[i]).1@.data
                matches DataV::Package { modules } && modules.contains(dep))
    }

    /// Every dependency of every listed module is already published.
    pub open spec fn module_deps_known(self, mods: Seq<crate::messages::ModuleDefV>) -> bool {
        forall|j: int, k: int|
            0 <= j < mods.len() && 0 <= k < mods[j].dependencies.len() ==> self.module_known(
                #[trigger] mods[j].dependencies[k],
            )
    }

    /// Every dependency of every module to publish is already published.
    pub open spec fn publish_deps_ok(self, kinds: Seq<SingleTransactionKindV>) -> bool {
        forall|i: int|
            0 <= i < kinds.len() ==> ((#[trigger] kinds[i])
                matches SingleTransactionKindV::Publish(mods) ==> self.module_deps_known(mods))
    }

    /// No input's lock already holds a vote for a different transaction.
    pub open spec fn no_conflicting_lock(self, refs: Seq<ObjectRef>, digest: TransactionDigest) -> bool {
        forall|i: int|
            0 <= i < refs.len() ==> ((self.order_lock.m().contains_key((#[trigger] refs[i]).0)
                && self.order_lock.m()[refs[i].0].vote is Some)
                ==> self.order_lock.m()[refs[i].0].vote->Some_0@.transaction.digest() == digest)
    }

    /// The first reason to reject a transaction, if any: checks run in
    /// this order, and a transaction passing them all is signed.
    pub open spec fn transaction_checks(self, tx: crate::messages::TransactionV) -> Option<
        SuiError,
    > {
        let refs = input_refs(tx.data);
        if !tx.signature_ok() {
            Some(SuiError::InvalidSignature)
        } else if !self.inputs_exact(refs) {
            Some(SuiError::LockErrors)
        } else if !self.transfers_owned(tx.data.kinds) {
            Some(SuiError::TransferUnownedError)
        } else if !self.gas_ok(tx.data) {
            Some(SuiError::InsufficientGas)
        } else if !self.inputs_owned_by(refs, tx.data.sender) {
            Some(SuiError::IncorrectSigner)
        } else if !self.publish_deps_ok(tx.data.kinds) {
            Some(SuiError::DependentPackageNotFound)
        } else if !self.no_conflicting_lock(refs, tx.digest()) {
            Some(SuiError::ConflictingTransaction)
        } else {
            None
        }
    }

    /// A fresh authority with no objects.
    pub fn new(committee: Committee, name: AuthorityName) -> (r: AuthorityState)
        requires
            committee.wf(),
        ensures
            r.wf(),
            r.name == name,
            r.committee == committee,
            r.objects.m() == Map::<u64, Object>::empty(),
            r.signed_effects.m() == Map::<u64, SignedTransactionEffects>::empty(),
            r.signed_transactions.m() == Map::<u64, SignedTransaction>::empty(),
            r.parent_sync@ == Seq::<(ObjectRef, TransactionDigest)>::empty(),
    {
        AuthorityState {
            name,
            committee,
            objects: VecMap::new(),
            order_lock: VecMap::new(),
            signed_transactions: VecMap::new(),
            certificates: VecMap::new(),
            signed_effects: VecMap::new(),
            parent_sync: Vec::new(),
        }
    }

    /// Install one genesis object: store it and open a fresh lock slot
    /// if it is address-owned.
    pub fn insert_genesis_object(&mut self, object: Object)
        requires
            old(self).wf(),
            object@.version < u64::MAX,
        ensures
            final(self).wf(),
            final(self).name == old(self).name,
            final(self).committee == old(self).committee,
            final(self).objects.m().contains_key(object@.id),
            final(self).objects.m()[object@.id]@ == object@,
            forall|k: u64|
                #![trigger final(self).objects.m().contains_key(k)]
                k != object@.id ==> (final(self).objects.m().contains_key(k) <==> old(self).objects.m().contains_key(k)) && (old(self).objects.m().contains_key(k) ==> final(self).objects.m()[k] == old(self).objects.m()[k]),
            final(self).signed_transactions == old(self).signed_transactions,
            final(self).certificates == old(self).certificates,
            final(self).signed_effects == old(self).signed_effects,
            final(self).parent_sync == old(self).parent_sync,
    {
        let ghost ov = object@;
        self.store_object(object);
        proof {
            assert forall|k: u64|
                k != ov.id implies (self.objects.m().contains_key(k) <==> old(self).objects.m().contains_key(k)) && (old(self).objects.m().contains_key(k)
                ==> self.objects.m()[k] == old(self).objects.m()[k]) by {
                assert(self.objects.m().contains_key(k) == self.objects.m().contains_key(k));
            }
        }
    }

    /// Store one object state and refresh its lock slot.
    fn store_object(&mut self, object: Object)
        requires
            old(self).wf(),
            object@.version < u64::MAX,
        ensures
            final(self).wf(),
            final(self).name == old(self).name,
            final(self).committee == old(self).committee,
            final(self).objects.m().contains_key(object@.id),
            final(self).objects.m()[object@.id]@ == object@,
            forall|k: u64|
                #![trigger final(self).objects.m().contains_key(k)]
                k != object@.id ==> (final(self).objects.m().contains_key(k) <==> old(self).objects.m().contains_key(k)) && (old(self).objects.m().contains_key(k) ==> final(self).objects.m()[k] == old(self).objects.m()[k]),
            final(self).signed_transactions == old(self).signed_transactions,
            final(self).certificates == old(self).certificates,
            final(self).signed_effects == old(self).signed_effects,
            final(self).parent_sync == old(self).parent_sync,
    {
        let id = object.id();
        let owned = match object.owner {
            Owner::AddressOwner(_) => true,
            _ => false,
        };
        if owned {
            let entry = LockEntry { version: object.version(), digest: object.digest(), vote: None };
            self.order_lock.insert(id, entry);
        } else {
            self.order_lock.remove(id);
        }
        self.objects.insert(id, object);
        proof {
            self.objects.lemma_view();
            self.order_lock.lemma_view();
            assert forall|i: int|
                0 <= i < self.objects.pairs().len() implies ((
            #[trigger] self.objects.pairs()[i]).1@.owner is AddressOwner
                ==> self.order_lock.m().contains_key(self.objects.pairs()[i].0)) by {
                let k = self.objects.pairs()[i].0;
                if k != id && self.objects.pairs()[i].1@.owner is AddressOwner {
                    assert(self.objects.m()[k] == self.objects.pairs()[i].1);
                    assert(old(self).objects.m().contains_key(k));
                    old(self).objects.lemma_m_index(k);
                }
            }
            assert forall|i: int|
                0 <= i < self.objects.pairs().len() implies (
            #[trigger] self.objects.pairs()[i]).1@.id == self.objects.pairs()[i].0
                && self.objects.pairs()[i].1@.version < u64::MAX by {
                let k = self.objects.pairs()[i].0;
                assert(self.objects.m()[k] == self.objects.pairs()[i].1);
                if k != id {
                    old(self).objects.lemma_m_index(k);
                }
            }
        }
    }

    /// Drop a deleted object and its lock slot.
    fn remove_object(&mut self, id: ObjectId)
        requires
            old(self).wf(),
        ensures
            final(self).wf(),
            final(self).name == old(self).name,
            final(self).committee == old(self).committee,
            !final(self).objects.m().contains_key(id),
            forall|k: u64|
                k != id ==> ((#[trigger] final(self).objects.m().contains_key(k))
                    <==> old(self).objects.m().contains_key(k)),
            forall|k: u64|
                k != id && old(self).objects.m().contains_key(k) ==> #[trigger] final(self).objects.m()[k] == old(self).objects.m()[k],
            final(self).signed_transactions == old(self).signed_transactions,
            final(self).certificates == old(self).certificates,
            final(self).signed_effects == old(self).signed_effects,
            final(self).parent_sync == old(self).parent_sync,
    {
        self.order_lock.remove(id);
        self.objects.remove(id);
        proof {
            self.objects.lemma_view();
            self.order_lock.lemma_view();
            assert forall|i: int|
                0 <= i < self.objects.pairs().len() implies (
            #[trigger] self.objects.pairs()[i]).1@.id == self.objects.pairs()[i].0
                && self.objects.pairs()[i].1@.version < u64::MAX by {
                let k = self.objects.pairs()[i].0;
                assert(self.objects.m()[k] == self.objects.pairs()[i].1);
                assert(k != id);
                old(self).objects.lemma_m_index(k);
            }
            assert forall|i: int|
                0 <= i < self.objects.pairs().len() implies ((
            #[trigger] self.objects.pairs()[i]).1@.owner is AddressOwner
                ==> self.order_lock.m().contains_key(self.objects.pairs()[i].0)) by {
                let k = self.objects.pairs()[i].0;
                if self.objects.pairs()[i].1@.owner is AddressOwner {
                    assert(self.objects.m()[k] == self.objects.pairs()[i].1);
                    assert(k != id);
                    old(self).objects.lemma_m_index(k);
                }
            }
        }
    }

    /// Read one object by id.
    pub fn get_object(&self, id: ObjectId) -> (r: Result<Option<Object>, SuiError>)
        requires
            self.wf(),
        ensures
            match r {
                Ok(Some(o)) => self.objects.m().contains_key(id) && o@ == self.objects.m()[id]@,
                Ok(None) => !self.objects.m().contains_key(id),
                Err(_) => false,
            },
    {
        match self.objects.get(id) {
            Some(o) => Ok(Some(o.clone_object())),
            None => Ok(None),
        }
    }

    /// The lock state the authority holds for one exact object reference:
    /// the vote given away for it, `None` where the slot is open, and an
    /// error where no live owned object carries that exact reference.
    pub open spec fn lock_state(self, object_ref: ObjectRef) -> Result<
        Option<SignedTransaction>,
        SuiError,
    > {
        if self.order_lock.m().contains_key(object_ref.0) && self.order_lock.m()[object_ref.0].version
            == object_ref.1 && self.order_lock.m()[object_ref.0].digest == object_ref.2 {
            Ok(self.order_lock.m()[object_ref.0].vote)
        } else {
            Err(SuiError::ObjectNotFound)
        }
    }

    /// Look up the lock for one exact object reference.
    pub fn get_transaction_lock(&self, object_ref: &ObjectRef) -> (r: Result<
        Option<SignedTransaction>,
        SuiError,
    >)
        requires
            self.wf(),
        ensures
            match (r, self.lock_state(*object_ref)) {
                (Ok(Some(a)), Ok(Some(b))) => a@ == b@,
                (Ok(None), Ok(None)) => true,
                (Err(ea), Err(eb)) => ea == eb,
                _ => false,
            },
    {
        match self.order_lock.get(object_ref.0) {
            Some(entry) => {
                if entry.version == object_ref.1 && entry.digest == object_ref.2 {
                    match &entry.vote {
                        Some(s) => Ok(Some(s.clone_signed())),
                        None => Ok(None),
                    }
                } else {
                    Err(SuiError::ObjectNotFound)
                }
            },
            None => Err(SuiError::ObjectNotFound),
        }
    }


    // -----------------------------------------------------------------
    // Accepting a transaction
    // -----------------------------------------------------------------
    /// Everything this authority knows of one transaction digest.
    pub fn make_transaction_info(&self, digest: TransactionDigest) -> (r: TransactionInfoResponse)
        requires
            self.wf(),
        ensures
            match r@.signed_transaction {
                Some(s) => self.signed_transactions.m().contains_key(digest) && s
                    == self.signed_transactions.m()[digest]@,
                None => !self.signed_transactions.m().contains_key(digest),
            },
            match r@.certified_transaction {
                Some(c) => self.certificates.m().contains_key(digest) && c
                    == self.certificates.m()[digest]@,
                None => !self.certificates.m().contains_key(digest),
            },
            match r@.signed_effects {
                Some(e) => self.signed_effects.m().contains_key(digest) && e
                    == self.signed_effects.m()[digest]@,
                None => !self.signed_effects.m().contains_key(digest),
            },
    {
        TransactionInfoResponse {
            signed_transaction: match self.signed_transactions.get(digest) {
                Some(s) => Some(s.clone_signed()),
                None => None,
            },
            certified_transaction: match self.certificates.get(digest) {
                Some(c) => Some(c.clone_certified()),
                None => None,
            },
            signed_effects: match self.signed_effects.get(digest) {
                Some(e) => Some(e.clone_signed_effects()),
                None => None,
            },
        }
    }

    /// Answer an information request about one transaction digest.
    pub fn handle_transaction_info_request(&self, digest: TransactionDigest) -> (r: Result<
        TransactionInfoResponse,
        SuiError,
    >)
        requires
            self.wf(),
        ensures
            r is Ok,
            match r->Ok_0@.signed_effects {
                Some(e) => self.signed_effects.m().contains_key(digest) && e
                    == self.signed_effects.m()[digest]@,
                None => !self.signed_effects.m().contains_key(digest),
            },
            match r->Ok_0@.certified_transaction {
                Some(c) => self.certificates.m().contains_key(digest) && c
                    == self.certificates.m()[digest]@,
                None => !self.certificates.m().contains_key(digest),
            },
            match r->Ok_0@.signed_transaction {
                Some(s) => self.signed_transactions.m().contains_key(digest) && s
                    == self.signed_transactions.m()[digest]@,
                None => !self.signed_transactions.m().contains_key(digest),
            },
    {
        Ok(self.make_transaction_info(digest))
    }

    /// Gather the owned input references of a transaction, operations
    /// first and the gas payment last.
    fn collect_input_refs(data: &crate::messages::TransactionData) -> (r: Vec<ObjectRef>)
        ensures
            r@ == input_refs(data@),
    {
        let mut out: Vec<ObjectRef> = Vec::new();
        let n = data.kinds.len();
        let mut i: usize = 0;
        while i < n
            invariant
                n == data.kinds@.len(),
                i <= n,
                out@ == kinds_input_refs(data.kinds.deep_view().take(i as int)),
            decreases n - i,
        {
            proof {
                assert(data.kinds.deep_view().take(i + 1).drop_last() =~= data.kinds.deep_view().take(
                    i as int,
                ));
                assert(data.kinds.deep_view().take(i + 1).last() == data.kinds@[i as int]@);
            }
            match &data.kinds[i] {
                SingleTransactionKind::Transfer(t) => {
                    out.push(t.object_ref);
                    proof {
                        assert(out@ =~= kinds_input_refs(data.kinds.deep_view().take(i + 1)));
                    }
                },
                SingleTransactionKind::Call(c) => {
                    let m = c.object_arguments.len();
                    let mut j: usize = 0;
                    let ghost pre = out@;
                    while j < m
                        invariant
                            m == c.object_arguments@.len(),
                            j <= m,
                            out@ == pre + c.object_arguments@.take(j as int),
                        decreases m - j,
                    {
                        out.push(c.object_arguments[j]);
                        proof {
                            assert(out@ =~= pre + c.object_arguments@.take(j + 1));
                        }
                        j = j + 1;
                    }
                    proof {
                        assert(pre + c.object_arguments@.take(m as int) =~= pre
                            + c.object_arguments@);
                        assert(out@ =~= kinds_input_refs(data.kinds.deep_view().take(i + 1)));
                    }
                },
                SingleTransactionKind::Publish(_) => {
                    proof {
                        assert(out@ =~= kinds_input_refs(data.kinds.deep_view().take(i + 1)));
                    }
                },
            }
            i = i + 1;
        }
        proof {
            assert(data.kinds.deep_view().take(n as int) =~= data.kinds.deep_view());
        }
        out.push(data.gas_payment);
        out
    }

    fn check_inputs_exact(&self, refs: &Vec<ObjectRef>) -> (r: bool)
        requires
            self.wf(),
        ensures
            r == self.inputs_exact(refs@),
    {
        let n = refs.len();
        let mut i: usize = 0;
        while i < n
            invariant
                self.wf(),
                n == refs@.len(),
                i <= n,
                forall|j: int|
                    0 <= j < i ==> {
                        let q = #[trigger] refs@[j];
                        &&& self.objects.m().contains_key(q.0)
                        &&& self.objects.m()[q.0]@.version == q.1
                        &&& object_digest(self.objects.m()[q.0]@) == q.2
                    },
            decreases n - i,
        {
            let q = refs[i];
            match self.objects.get(q.0) {
                Some(o) => {
                    if o.version() != q.1 {
                        return false;
                    }
                    if o.digest() != q.2 {
                        return false;
                    }
                },
                None => {
                    return false;
                },
            }
            i = i + 1;
        }
        true
    }

    fn check_transfers_owned(&self, kinds: &Vec<SingleTransactionKind>) -> (r: bool)
        requires
            self.wf(),
        ensures
            r == self.transfers_owned(kinds.deep_view()),
    {
        let n = kinds.len();
        let mut i: usize = 0;
        while i < n
            invariant
                self.wf(),
                n == kinds@.len(),
                i <= n,
                forall|j: int|
                    0 <= j < i ==> ((#[trigger] kinds.deep_view()[j])
                        matches SingleTransactionKindV::Transfer(t)
                        ==> self.objects.m().contains_key(t.object_ref.0)
                        && self.objects.m()[t.object_ref.0]@.owner is AddressOwner),
            decreases n - i,
        {
            proof {
                assert(kinds.deep_view()[i as int] == kinds@[i as int]@);
            }
            match &kinds[i] {
                SingleTransactionKind::Transfer(t) => {
                    proof {
                        assert(kinds.deep_view()[i as int]
                            matches SingleTransactionKindV::Transfer(tv) && tv == *t);
                    }
                    match self.objects.get(t.object_ref.0) {
                        Some(o) => {
                            let owned = match o.owner {
                                Owner::AddressOwner(_) => true,
                                _ => false,
                            };
                            if !owned {
                                return false;
                            }
                        },
                        None => {
                            return false;
                        },
                    }
                },
                _ => {},
            }
            i = i + 1;
        }
        true
    }

    fn check_gas(&self, data: &crate::messages::TransactionData) -> (r: bool)
        requires
            self.wf(),
        ensures
            r == self.gas_ok(data@),
    {
        match self.objects.get(data.gas_payment.0) {
            Some(o) => {
                let owner_ok = match o.owner {
                    Owner::AddressOwner(a) => a == data.sender,
                    _ => false,
                };
                if !owner_ok {
                    return false;
                }
                match &o.data {
                    Data::Coin { balance } => *balance >= data.gas_budget,
                    _ => false,
                }
            },
            None => false,
        }
    }

    fn check_inputs_owned_by(&self, refs: &Vec<ObjectRef>, sender: u64) -> (r: bool)
        requires
            self.wf(),
        ensures
            r == self.inputs_owned_by(refs@, sender),
    {
        let n = refs.len();
        let mut i: usize = 0;
        while i < n
            invariant
                self.wf(),
                n == refs@.len(),
                i <= n,
                forall|j: int|
                    0 <= j < i ==> self.objects.m().contains_key((#[trigger] refs@[j]).0)
                        && self.objects.m()[refs@[j].0]@.owner == Owner::AddressOwner(sender),
            decreases n - i,
        {
            match self.objects.get(refs[i].0) {
                Some(o) => {
                    let ok = match o.owner {
                        Owner::AddressOwner(a) => a == sender,
                        _ => false,
                    };
                    if !ok {
                        return false;
                    }
                },
                None => {
                    return false;
                },
            }
            i = i + 1;
        }
        true
    }

    /// Scan the store for a package publishing the module `dep`.
    fn module_known_exec(&self, dep: u64) -> (r: bool)
        requires
            self.wf(),
        ensures
            r == self.module_known(dep),
    {
        let n = self.objects.len();
        let mut i: usize = 0;
        while i < n
            invariant
                self.wf(),
                n == self.objects.pairs().len(),
                i <= n,
                forall|j: int|
                    0 <= j < i ==> !((#[trigger] self.objects.pairs()[j]).1@.data
                        matches DataV::Package { modules } && modules.contains(dep)),
            decreases n - i,
        {
            let o = self.objects.value_at(i);
            match &o.data {
                Data::Package { modules } => {
                    let m = modules.len();
                    let mut j: usize = 0;
                    while j < m
                        invariant
                            self.wf(),
                            i < self.objects.pairs().len(),
                            self.objects.pairs()[i as int].1@.data == (DataV::Package {
                                modules: modules@,
                            }),
                            m == modules@.len(),
                            j <= m,
                            forall|q: int| 0 <= q < j ==> modules@[q] != dep,
                        decreases m - j,
                    {
                        if modules[j] == dep {
                            proof {
                                assert(modules@.contains(dep)) by {
                                    assert(modules@[j as int] == dep);
                                }
                                assert(self.objects.pairs()[i as int].1@.data is Package);
                                assert(self.objects.pairs()[i as int].1@.data->Package_modules
                                    == modules@);
                                assert(self.module_known(dep));
                            }
                            return true;
                        }
                        j = j + 1;
                    }
                    proof {
                        if self.objects.pairs()[i as int].1@.data is Package {
                            let mm = self.objects.pairs()[i as int].1@.data->Package_modules;
                            assert(mm == modules@);
                            if mm.contains(dep) {
                                let q = choose|q: int| 0 <= q < mm.len() && mm[q] == dep;
                                assert(modules@[q] == dep);
                                assert(false);
                            }
                        }
                    }
                },
                _ => {},
            }
            i = i + 1;
        }
        proof {
            if self.module_known(dep) {
                let j = choose|j: int|
                    0 <= j < self.objects.pairs().len() && ((
                    #[trigger] self.objects.pairs()[j]).1@.data matches DataV::Package {
                        modules,
                    } && modules.contains(dep));
                assert(false);
            }
        }
        false
    }

    fn check_publish_deps(&self, kinds: &Vec<SingleTransactionKind>) -> (r: bool)
        requires
            self.wf(),
        ensures
            r == self.publish_deps_ok(kinds.deep_view()),
    {
        let n = kinds.len();
        let mut i: usize = 0;
        while i < n
            invariant
                self.wf(),
                n == kinds@.len(),
                i <= n,
                forall|j: int|
                    0 <= j < i ==> ((#[trigger] kinds.deep_view()[j])
                        matches SingleTransactionKindV::Publish(mods) ==> self.module_deps_known(
                        mods,
                    )),
            decreases n - i,
        {
            proof {
                assert(kinds.deep_view()[i as int] == kinds@[i as int]@);
            }
            match &kinds[i] {
                SingleTransactionKind::Publish(pb) => {
                    proof {
                        assert(kinds.deep_view()[i as int]
                            matches SingleTransactionKindV::Publish(mods) && mods
                            == pb.modules.deep_view());
                    }
                    let m = pb.modules.len();
                    let mut p: usize = 0;
                    while p < m
                        invariant
                            self.wf(),
                            i < kinds@.len(),
                            kinds.deep_view()[i as int] matches SingleTransactionKindV::Publish(
                                mods,
                            ) && mods == pb.modules.deep_view(),
                            m == pb.modules@.len(),
                            p <= m,
                            forall|a: int, b: int|
                                0 <= a < p && 0 <= b < pb.modules.deep_view()[a].dependencies.len()
                                    ==> self.module_known(
                                    #[trigger] pb.modules.deep_view()[a].dependencies[b],
                                ),
                        decreases m - p,
                    {
                        let deps = &pb.modules[p].dependencies;
                        let dn = deps.len();
                        let mut q: usize = 0;
                        while q < dn
                            invariant
                                self.wf(),
                                i < kinds@.len(),
                                p < pb.modules@.len(),
                                kinds.deep_view()[i as int] matches SingleTransactionKindV::Publish(
                                    mods,
                                ) && mods == pb.modules.deep_view(),
                                pb.modules.deep_view()[p as int].dependencies == deps@,
                                dn == deps@.len(),
                                q <= dn,
                                forall|b: int| 0 <= b < q ==> self.module_known(#[trigger] deps@[b]),
                            decreases dn - q,
                        {
                            if !self.module_known_exec(deps[q]) {
                                return false;
                            }
                            q = q + 1;
                        }
                        proof {
                            assert(pb.modules.deep_view()[p as int] == pb.modules@[p as int]@);
                        }
                        p = p + 1;
                    }
                    proof {
                        let mods0 = pb.modules.deep_view();
                        assert forall|pp: int, qq: int|
                            0 <= pp < mods0.len() && 0 <= qq < mods0[pp].dependencies.len()
                                implies self.module_known(#[trigger] mods0[pp].dependencies[qq]) by {
                            assert(self.module_known(pb.modules.deep_view()[pp].dependencies[qq]));
                        }
                        assert(self.module_deps_known(mods0));
                    }
                },
                _ => {},
            }
            i = i + 1;
        }
        true
    }

    fn check_no_conflicting_lock(&self, refs: &Vec<ObjectRef>, digest: TransactionDigest) -> (r:
        bool)
        requires
            self.wf(),
        ensures
            r == self.no_conflicting_lock(refs@, digest),
    {
        let n = refs.len();
        let mut i: usize = 0;
        while i < n
            invariant
                self.wf(),
                n == refs@.len(),
                i <= n,
                forall|j: int|
                    0 <= j < i ==> ((self.order_lock.m().contains_key((#[trigger] refs@[j]).0)
                        && self.order_lock.m()[refs@[j].0].vote is Some)
                        ==> self.order_lock.m()[refs@[j].0].vote->Some_0@.transaction.digest()
                        == digest),
            decreases n - i,
        {
            match self.order_lock.get(refs[i].0) {
                Some(entry) => {
                    match &entry.vote {
                        Some(s) => {
                            if s.transaction.digest() != digest {
                                return false;
                            }
                        },
                        None => {},
                    }
                },
                None => {},
            }
            i = i + 1;
        }
        true
    }

    /// Accept a transaction: run the admissibility checks in order, then
    /// vote for it, lock its inputs to that vote, and answer with
    /// everything known about its digest. Re-submitting the same
    /// transaction returns the same vote rather than a second one.
    #[verifier::rlimit(100)]
    pub fn handle_transaction(&mut self, transaction: &Transaction) -> (r: Result<
        TransactionInfoResponse,
        SuiError,
    >)
        requires
            old(self).wf(),
        ensures
            final(self).wf(),
            final(self).name == old(self).name,
            final(self).committee == old(self).committee,
            final(self).objects == old(self).objects,
            final(self).certificates == old(self).certificates,
            final(self).signed_effects == old(self).signed_effects,
            final(self).parent_sync == old(self).parent_sync,
            match old(self).transaction_checks(transaction@) {
                Some(e) => r == Err::<TransactionInfoResponse, SuiError>(e) && *final(self) == *old(self),
                None => {
                    &&& r is Ok
                    &&& ({
                        let rv = r->Ok_0@;
                        let digest = transaction@.digest();
                        &&& rv.signed_transaction matches Some(sv)
                        &&& rv.signed_transaction->Some_0.transaction.digest() == digest
                        &&& rv.signed_transaction->Some_0.auth_signature.authority == old(self).name
                        &&& crate::messages::signature_valid(
                            rv.signed_transaction->Some_0.auth_signature.signature,
                            old(self).name,
                            digest,
                        )
                        &&& final(self).signed_transactions.m().contains_key(digest)
                        &&& final(self).signed_transactions.m()[digest]@
                            == rv.signed_transaction->Some_0
                        &&& (old(self).signed_transactions.m().contains_key(digest) ==> final(self).signed_transactions == old(self).signed_transactions && rv.signed_transaction->Some_0
                            == old(self).signed_transactions.m()[digest]@)
                        &&& (forall|k: u64|
                            k != digest ==> ((#[trigger] final(self).signed_transactions.m().contains_key(k)) <==> old(self).signed_transactions.m().contains_key(k)))
                        &&& (forall|i: int|
                            0 <= i < input_refs(transaction@.data).len() ==> {
                                let id = (#[trigger] input_refs(transaction@.data)[i]).0;
                                &&& final(self).order_lock.m().contains_key(id)
                                &&& final(self).order_lock.m()[id].vote is Some
                                &&& final(self).order_lock.m()[id].vote->Some_0@.transaction.digest() == digest
                            })
                        &&& match rv.signed_effects {
                            Some(e) => old(self).signed_effects.m().contains_key(digest) && e
                                == old(self).signed_effects.m()[digest]@,
                            None => !old(self).signed_effects.m().contains_key(digest),
                        }
                        &&& match rv.certified_transaction {
                            Some(c) => old(self).certificates.m().contains_key(digest) && c
                                == old(self).certificates.m()[digest]@,
                            None => !old(self).certificates.m().contains_key(digest),
                        }
                    })
                },
            },
    {
        if !transaction.signature_ok() {
            return Err(SuiError::InvalidSignature);
        }
        let refs = Self::collect_input_refs(&transaction.data);
        if !self.check_inputs_exact(&refs) {
            return Err(SuiError::LockErrors);
        }
        if !self.check_transfers_owned(&transaction.data.kinds) {
            return Err(SuiError::TransferUnownedError);
        }
        if !self.check_gas(&transaction.data) {
            return Err(SuiError::InsufficientGas);
        }
        if !self.check_inputs_owned_by(&refs, transaction.data.sender) {
            return Err(SuiError::IncorrectSigner);
        }
        if !self.check_publish_deps(&transaction.data.kinds) {
            return Err(SuiError::DependentPackageNotFound);
        }
        let digest = transaction.digest();
        if !self.check_no_conflicting_lock(&refs, digest) {
            return Err(SuiError::ConflictingTransaction);
        }
        // Vote, or retrieve the vote already given.
        let vote: SignedTransaction = match self.signed_transactions.get(digest) {
            Some(s) => {
                proof {
                    self.signed_transactions.lemma_m_index(digest);
                }
                s.clone_signed()
            },
            None => {
                let s = SignedTransaction::new(
                    self.committee.epoch(),
                    transaction.clone_transaction(),
                    self.name,
                );
                let copy = s.clone_signed();
                self.signed_transactions.insert(digest, copy);
                proof {
                    self.signed_transactions.lemma_view();
                    assert forall|i: int|
                        0 <= i < self.signed_transactions.pairs().len() implies (
                    #[trigger] self.signed_transactions.pairs()[i]).1@.transaction.digest()
                        == self.signed_transactions.pairs()[i].0 by {
                        let k = self.signed_transactions.pairs()[i].0;
                        assert(self.signed_transactions.m()[k]
                            == self.signed_transactions.pairs()[i].1);
                        if k != digest {
                            old(self).signed_transactions.lemma_m_index(k);
                        }
                    }
                }
                s
            },
        };
        // Lock every input reference to this vote.
        self.lock_inputs(&refs, &vote, Ghost(transaction@.data.sender));
        Ok(self.make_transaction_info(digest))
    }

    /// Hand this authority's vote to every input lock.
    fn lock_inputs(
        &mut self,
        refs: &Vec<ObjectRef>,
        vote: &SignedTransaction,
        sender: Ghost<u64>,
    )
        requires
            old(self).wf(),
            old(self).inputs_exact(refs@),
            old(self).inputs_owned_by(refs@, sender@),
        ensures
            final(self).wf(),
            final(self).name == old(self).name,
            final(self).committee == old(self).committee,
            final(self).objects == old(self).objects,
            final(self).certificates == old(self).certificates,
            final(self).signed_effects == old(self).signed_effects,
            final(self).parent_sync == old(self).parent_sync,
            final(self).signed_transactions == old(self).signed_transactions,
            forall|j: int|
                0 <= j < refs@.len() ==> {
                    let id = (#[trigger] refs@[j]).0;
                    &&& final(self).order_lock.m().contains_key(id)
                    &&& final(self).order_lock.m()[id].vote is Some
                    &&& final(self).order_lock.m()[id].vote->Some_0@ == vote@
                },
    {
        let n = refs.len();
        let mut i: usize = 0;
        while i < n
            invariant
                self.wf(),
                old(self).wf(),
                n == refs@.len(),
                i <= n,
                old(self).inputs_exact(refs@),
                old(self).inputs_owned_by(refs@, sender@),
                self.name == old(self).name,
                self.committee == old(self).committee,
                self.objects == old(self).objects,
                self.certificates == old(self).certificates,
                self.signed_effects == old(self).signed_effects,
                self.parent_sync == old(self).parent_sync,
                self.signed_transactions == old(self).signed_transactions,
                forall|j: int|
                    0 <= j < i ==> {
                        let id = (#[trigger] refs@[j]).0;
                        &&& self.order_lock.m().contains_key(id)
                        &&& self.order_lock.m()[id].vote is Some
                        &&& self.order_lock.m()[id].vote->Some_0@ == vote@
                    },
            decreases n - i,
        {
            let q = refs[i];
            let entry = LockEntry {
                version: q.1,
                digest: q.2,
                vote: Some(vote.clone_signed()),
            };
            self.order_lock.insert(q.0, entry);
            proof {
                assert(old(self).objects.m().contains_key(q.0));
                assert(old(self).objects.m()[q.0]@.version == q.1);
                assert(object_digest(old(self).objects.m()[q.0]@) == q.2);
                assert(old(self).objects.m()[q.0]@.owner == Owner::AddressOwner(sender@));
            }
            i = i + 1;
        }
    }


    /// Every transfer operation's object reference is among the
    /// operations' input references.
    proof fn lemma_transfer_ref_in_inputs(kinds: Seq<SingleTransactionKindV>, i: int)
        requires
            0 <= i < kinds.len(),
            kinds[i] is Transfer,
        ensures
            kinds_input_refs(kinds).contains(kinds[i]->Transfer_0.object_ref),
        decreases kinds.len(),
    {
        let r = kinds[i]->Transfer_0.object_ref;
        if i == kinds.len() - 1 {
            let tail = seq![r];
            assert(kinds_input_refs(kinds) == kinds_input_refs(kinds.drop_last()) + tail);
            assert(kinds_input_refs(kinds)[kinds_input_refs(kinds.drop_last()).len() as int] == r);
        } else {
            Self::lemma_transfer_ref_in_inputs(kinds.drop_last(), i);
            let pre = kinds_input_refs(kinds.drop_last());
            let j = choose|j: int| 0 <= j < pre.len() && pre[j] == r;
            assert(kinds_input_refs(kinds)[j] == r);
        }
    }

    /// Headroom for two version bumps on every input.
    pub open spec fn versions_have_headroom(self, refs: Seq<ObjectRef>) -> bool {
        forall|i: int| 0 <= i < refs.len() ==> (#[trigger] refs[i]).1 < u64::MAX - 1
    }

    fn check_versions_headroom(&self, refs: &Vec<ObjectRef>) -> (r: bool)
        ensures
            r == self.versions_have_headroom(refs@),
    {
        let n = refs.len();
        let mut i: usize = 0;
        while i < n
            invariant
                n == refs@.len(),
                i <= n,
                forall|j: int| 0 <= j < i ==> (#[trigger] refs@[j]).1 < u64::MAX - 1,
            decreases n - i,
        {
            if refs[i].1 >= u64::MAX - 1 {
                return false;
            }
            i = i + 1;
        }
        true
    }

    /// Gather the distinct input objects named by `refs`, in first-use
    /// order, cloned from the store.
    fn collect_input_objects(&self, refs: &Vec<ObjectRef>) -> (r: Vec<Object>)
        requires
            self.wf(),
            self.inputs_exact(refs@),
            self.versions_have_headroom(refs@),
        ensures
            forall|i: int, j: int|
                0 <= i < j < r@.len() ==> (#[trigger] r@[i])@.id != (#[trigger] r@[j])@.id,
            forall|i: int|
                0 <= i < r@.len() ==> self.objects.m().contains_key((#[trigger] r@[i])@.id) && r@[i]@
                    == self.objects.m()[r@[i]@.id]@ && r@[i]@.version < u64::MAX - 1,
            forall|i: int|
                0 <= i < refs@.len() ==> has_object_id(r@, (#[trigger] refs@[i]).0),
    {
        let n = refs.len();
        let mut out: Vec<Object> = Vec::new();
        let mut i: usize = 0;
        while i < n
            invariant
                self.wf(),
                self.inputs_exact(refs@),
                self.versions_have_headroom(refs@),
                n == refs@.len(),
                i <= n,
                forall|p: int, q: int|
                    0 <= p < q < out@.len() ==> (#[trigger] out@[p])@.id != (
                    #[trigger] out@[q])@.id,
                forall|p: int|
                    0 <= p < out@.len() ==> self.objects.m().contains_key(
                        (#[trigger] out@[p])@.id,
                    ) && out@[p]@ == self.objects.m()[out@[p]@.id]@ && out@[p]@.version < u64::MAX
                        - 1,
                forall|p: int| 0 <= p < i ==> has_object_id(out@, (#[trigger] refs@[p]).0),
            decreases n - i,
        {
            let ghost pre_out = out@;
            let id = refs[i].0;
            let mut seen: bool = false;
            let m = out.len();
            let mut j: usize = 0;
            while j < m
                invariant
                    m == out@.len(),
                    j <= m,
                    seen <==> exists|q: int| 0 <= q < j && (#[trigger] out@[q])@.id == id,
                decreases m - j,
            {
                if out[j].id == id {
                    proof {
                        assert(out@[j as int]@.id == id);
                    }
                    seen = true;
                }
                j = j + 1;
            }
            if !seen {
                match self.objects.get(id) {
                    Some(o) => {
                        let c = o.clone_object();
                        proof {
                            assert(refs@[i as int].1 < u64::MAX - 1);
                            assert(self.objects.m()[id]@.version == refs@[i as int].1);
                            self.objects.lemma_m_index(id);
                            assert(self.objects.m()[id]@.id == id);
                        }
                        out.push(c);
                        proof {
                            assert(out@[out@.len() - 1]@.id == id);
                        }
                    },
                    None => {
                        proof {
                            assert(false);
                        }
                    },
                }
            }
            proof {
                assert(forall|q: int| 0 <= q < pre_out.len() ==> out@[q] == pre_out[q]);
                assert(has_object_id(out@, id)) by {
                    if seen {
                        let q = choose|q: int|
                            0 <= q < pre_out.len() && (#[trigger] pre_out[q])@.id == id;
                        assert(out@[q]@.id == id);
                    } else {
                        assert(out@[out@.len() - 1]@.id == id);
                    }
                }
                assert forall|p: int|
                    0 <= p < i + 1 implies has_object_id(out@, (#[trigger] refs@[p]).0) by {
                    if p < i {
                        assert(has_object_id(pre_out, refs@[p].0));
                        let j = choose|j: int|
                            0 <= j < pre_out.len() && (#[trigger] pre_out[j])@.id == refs@[p].0;
                        assert(out@[j]@.id == refs@[p].0);
                    }
                }
            }
            i = i + 1;
        }
        out
    }

    /// The first reason to reject a certificate before executing it, if
    /// any, in check order: no quorum, then (for a certificate not yet
    /// executed here) inexact or version-exhausted inputs, then a gas
    /// payment that is no stored coin. An already-executed certificate
    /// passes: its recorded effects are simply returned again.
    pub open spec fn confirmation_checks(self, cert: crate::messages::CertifiedTransactionV) -> Option<
        SuiError,
    > {
        let refs = input_refs(cert.transaction.data);
        let gas = cert.transaction.data.gas_payment.0;
        if !valid_certificate(cert, self.committee) {
            Some(SuiError::CertificateRequiresQuorum)
        } else if self.signed_effects.m().contains_key(cert.transaction.digest()) {
            None
        } else if !self.inputs_exact(refs) || !self.versions_have_headroom(refs) {
            Some(SuiError::LockErrors)
        } else if !(self.objects.m().contains_key(gas) && self.objects.m()[gas]@.data is Coin) {
            Some(SuiError::InsufficientGas)
        } else {
            None
        }
    }

    /// The confirmation checks read only the committee, the object store
    /// and the recorded effects; locks and votes do not matter to them.
    pub proof fn lemma_confirmation_checks_congruent(
        s1: AuthorityState,
        s2: AuthorityState,
        cert: crate::messages::CertifiedTransactionV,
    )
        requires
            s1.committee == s2.committee,
            s1.objects == s2.objects,
            s1.signed_effects == s2.signed_effects,
        ensures
            s1.confirmation_checks(cert) == s2.confirmation_checks(cert),
    {
    }

    /// Every committed object state is stored under its id.
    #[verifier::opaque]
    pub open spec fn objects_reflect(self, committed: Seq<Object>) -> bool {
        forall|j: int|
            0 <= j < committed.len() ==> self.objects.m().contains_key(
                (#[trigger] committed[j])@.id,
            ) && self.objects.m()[committed[j]@.id]@ == committed[j]@
    }

    /// Every committed object state has its history entry under `digest`.
    #[verifier::opaque]
    pub open spec fn parents_record(self, committed: Seq<Object>, digest: TransactionDigest) -> bool {
        forall|j: int|
            0 <= j < committed.len() ==> Self::parent_of(
                self.parent_sync@,
                crate::objects::object_ref((#[trigger] committed[j])@),
            ) == Some(digest)
    }

    /// Every removed id is gone from the store.
    #[verifier::opaque]
    pub open spec fn removed_gone(self, removed: Seq<(u64, u64)>) -> bool {
        forall|j: int|
            0 <= j < removed.len() ==> !self.objects.m().contains_key((#[trigger] removed[j]).0)
    }

    /// Every removed id has its sentinel history entry under `digest`.
    #[verifier::opaque]
    pub open spec fn removed_parents(self, removed: Seq<(u64, u64)>, digest: TransactionDigest) -> bool {
        forall|j: int|
            0 <= j < removed.len() ==> Self::parent_of(
                self.parent_sync@,
                ((#[trigger] removed[j]).0, (removed[j].1 + 1) as u64, OBJECT_DIGEST_DELETED),
            ) == Some(digest)
    }

    /// The store and history reflect a transaction's effects: each
    /// mutated or created entry names a stored object at exactly that
    /// reference and owner, each deleted id is gone, and every entry's
    /// history records the transaction.
    #[verifier::opaque]
    pub open spec fn store_reflects_effects(
        self,
        e: crate::messages::TransactionEffectsV,
        digest: TransactionDigest,
    ) -> bool {
        &&& (forall|i: int|
            0 <= i < e.mutated.len() ==> {
                &&& self.objects.m().contains_key((#[trigger] e.mutated[i]).0.0)
                &&& crate::objects::object_ref(self.objects.m()[e.mutated[i].0.0]@)
                    == e.mutated[i].0
                &&& self.objects.m()[e.mutated[i].0.0]@.owner == e.mutated[i].1
                &&& Self::parent_of(self.parent_sync@, e.mutated[i].0) == Some(digest)
            })
        &&& (forall|i: int|
            0 <= i < e.created.len() ==> {
                &&& self.objects.m().contains_key((#[trigger] e.created[i]).0.0)
                &&& crate::objects::object_ref(self.objects.m()[e.created[i].0.0]@)
                    == e.created[i].0
                &&& self.objects.m()[e.created[i].0.0]@.owner == e.created[i].1
                &&& Self::parent_of(self.parent_sync@, e.created[i].0) == Some(digest)
            })
        &&& (forall|i: int|
            0 <= i < e.deleted.len() ==> !self.objects.m().contains_key((#[trigger] e.deleted[i]).0)
                && Self::parent_of(self.parent_sync@, e.deleted[i]) == Some(digest))
    }

    /// Dropping one unrelated object and appending one unrelated history
    /// entry preserves the committed objects' reflection.
    proof fn lemma_commit_preserved(
        pre: AuthorityState,
        post: AuthorityState,
        committed: Seq<Object>,
        digest: TransactionDigest,
        removed_id: u64,
        appended_ref: ObjectRef,
    )
        requires
            pre.objects_reflect(committed),
            pre.parents_record(committed, digest),
            forall|j: int| 0 <= j < committed.len() ==> (#[trigger] committed[j])@.id != removed_id,
            forall|k: u64|
                k != removed_id ==> ((#[trigger] post.objects.m().contains_key(k))
                    <==> pre.objects.m().contains_key(k)) && (pre.objects.m().contains_key(k)
                    ==> post.objects.m()[k] == pre.objects.m()[k]),
            post.parent_sync@ == pre.parent_sync@.push((appended_ref, digest)),
            appended_ref.0 == removed_id,
        ensures
            post.objects_reflect(committed),
            post.parents_record(committed, digest),
    {
        reveal(AuthorityState::objects_reflect);
        reveal(AuthorityState::parents_record);
        assert(post.parent_sync@.drop_last() =~= pre.parent_sync@);
        assert forall|j: int|
            0 <= j < committed.len() implies post.objects.m().contains_key(
            (#[trigger] committed[j])@.id,
        ) && post.objects.m()[committed[j]@.id]@ == committed[j]@ by {
            assert(committed[j]@.id != removed_id);
            assert(post.objects.m().contains_key(committed[j]@.id) <==> pre.objects.m().contains_key(
                committed[j]@.id,
            ));
        }
        assert forall|j: int|
            0 <= j < committed.len() implies Self::parent_of(
            post.parent_sync@,
            crate::objects::object_ref((#[trigger] committed[j])@),
        ) == Some(digest) by {
            assert(crate::objects::object_ref(committed[j]@).0 == committed[j]@.id);
            assert(crate::objects::object_ref(committed[j]@) != (appended_ref.0, appended_ref.1,
            appended_ref.2));
        }
    }

    /// The store reflects the effects once the committed objects are
    /// stored and the deleted ids dropped, entry by entry.
    proof fn lemma_lift_effects(
        s: AuthorityState,
        ts: crate::temporary_store::AuthorityTemporaryStore,
        committed: Seq<Object>,
        keys: Seq<u64>,
        removed: Seq<(u64, u64)>,
        eff: crate::messages::TransactionEffectsV,
        digest: TransactionDigest,
    )
        requires
            eff.mutated == ts.effects_mutated(),
            eff.created == ts.effects_created(),
            eff.deleted == ts.effects_deleted(),
            keys == ts.written.keys_seq(),
            committed.len() == keys.len(),
            forall|j: int|
                0 <= j < committed.len() ==> (#[trigger] committed[j])@ == ts.committed_object(
                    keys[j],
                ),
            removed == ts.deleted.pairs(),
            s.objects_reflect(committed),
            s.parents_record(committed, digest),
            s.removed_gone(removed),
            s.removed_parents(removed, digest),
        ensures
            s.store_reflects_effects(eff, digest),
    {
        reveal(AuthorityState::store_reflects_effects);
        reveal(AuthorityState::objects_reflect);
        reveal(AuthorityState::parents_record);
        reveal(AuthorityState::removed_gone);
        reveal(AuthorityState::removed_parents);
        assert forall|i: int|
            0 <= i < eff.mutated.len() implies {
            &&& s.objects.m().contains_key((#[trigger] eff.mutated[i]).0.0)
            &&& crate::objects::object_ref(s.objects.m()[eff.mutated[i].0.0]@) == eff.mutated[i].0
            &&& s.objects.m()[eff.mutated[i].0.0]@.owner == eff.mutated[i].1
            &&& Self::parent_of(s.parent_sync@, eff.mutated[i].0) == Some(digest)
        } by {
            ts.lemma_mutated_entry_origin(keys, i);
            let j = choose|j: int|
                0 <= j < keys.len() && ts.objects.m().contains_key(#[trigger] keys[j])
                    && ts.mutated_from(keys)[i] == ts.committed_entry(keys[j]);
            assert(committed[j]@ == ts.committed_object(keys[j]));
            assert(eff.mutated[i] == ts.committed_entry(keys[j]));
            assert(eff.mutated[i].0.0 == keys[j]);
            assert(s.objects.m()[keys[j]]@ == committed[j]@);
        }
        assert forall|i: int|
            0 <= i < eff.created.len() implies {
            &&& s.objects.m().contains_key((#[trigger] eff.created[i]).0.0)
            &&& crate::objects::object_ref(s.objects.m()[eff.created[i].0.0]@) == eff.created[i].0
            &&& s.objects.m()[eff.created[i].0.0]@.owner == eff.created[i].1
            &&& Self::parent_of(s.parent_sync@, eff.created[i].0) == Some(digest)
        } by {
            ts.lemma_created_entry_origin(keys, i);
            let j = choose|j: int|
                0 <= j < keys.len() && !ts.objects.m().contains_key(#[trigger] keys[j])
                    && ts.created_from(keys)[i] == ts.committed_entry(keys[j]);
            assert(committed[j]@ == ts.committed_object(keys[j]));
            assert(eff.created[i] == ts.committed_entry(keys[j]));
            assert(eff.created[i].0.0 == keys[j]);
            assert(s.objects.m()[keys[j]]@ == committed[j]@);
        }
        assert forall|i: int|
            0 <= i < eff.deleted.len() implies !s.objects.m().contains_key(
            (#[trigger] eff.deleted[i]).0,
        ) && Self::parent_of(s.parent_sync@, eff.deleted[i]) == Some(digest) by {
            assert(eff.deleted[i] == (removed[i].0, (removed[i].1 + 1) as u64,
            OBJECT_DIGEST_DELETED));
        }
    }

    /// Dropping one removed object and appending its sentinel entry
    /// extends the removed prefix by one.
    proof fn lemma_removed_step(
        pre: AuthorityState,
        post: AuthorityState,
        removed: Seq<(u64, u64)>,
        ri: int,
        digest: TransactionDigest,
        dref: ObjectRef,
    )
        requires
            0 <= ri < removed.len(),
            pre.removed_gone(removed.take(ri)),
            pre.removed_parents(removed.take(ri), digest),
            forall|j: int, j2: int|
                0 <= j < j2 < removed.len() ==> (#[trigger] removed[j]).0 != (
                #[trigger] removed[j2]).0,
            dref == (removed[ri].0, (removed[ri].1 + 1) as u64, OBJECT_DIGEST_DELETED),
            !post.objects.m().contains_key(removed[ri].0),
            forall|k: u64|
                k != removed[ri].0 ==> ((#[trigger] post.objects.m().contains_key(k))
                    <==> pre.objects.m().contains_key(k)),
            post.parent_sync@ == pre.parent_sync@.push((dref, digest)),
        ensures
            post.removed_gone(removed.take(ri + 1)),
            post.removed_parents(removed.take(ri + 1), digest),
    {
        reveal(AuthorityState::removed_gone);
        reveal(AuthorityState::removed_parents);
        assert(post.parent_sync@.drop_last() =~= pre.parent_sync@);
        assert forall|j: int|
            0 <= j < ri + 1 implies !post.objects.m().contains_key(
            (#[trigger] removed.take(ri + 1)[j]).0,
        ) by {
            assert(removed.take(ri + 1)[j] == removed[j]);
            if j < ri {
                assert(removed.take(ri)[j] == removed[j]);
                assert(removed[j].0 != removed[ri].0);
                assert(post.objects.m().contains_key(removed[j].0) <==> pre.objects.m().contains_key(
                    removed[j].0,
                ));
            }
        }
        assert forall|j: int|
            0 <= j < ri + 1 implies Self::parent_of(
            post.parent_sync@,
            (
                (#[trigger] removed.take(ri + 1)[j]).0,
                (removed.take(ri + 1)[j].1 + 1) as u64,
                OBJECT_DIGEST_DELETED,
            ),
        ) == Some(digest) by {
            assert(removed.take(ri + 1)[j] == removed[j]);
            if j < ri {
                assert(removed.take(ri)[j] == removed[j]);
                assert(removed[j].0 != dref.0);
            }
        }
    }

    /// Store every committed object state and append its history entry.
    #[verifier::rlimit(100)]
    #[verifier::spinoff_prover]
    fn commit_written(
        &mut self,
        committed: &Vec<Object>,
        keys: Ghost<Seq<u64>>,
        digest: TransactionDigest,
    )
        requires
            old(self).wf(),
            committed@.len() == keys@.len(),
            forall|j: int|
                0 <= j < committed@.len() ==> (#[trigger] committed@[j])@.version < u64::MAX,
            forall|j: int| 0 <= j < committed@.len() ==> (#[trigger] committed@[j])@.id == keys@[j],
            forall|j: int, j2: int| 0 <= j < j2 < keys@.len() ==> keys@[j] != keys@[j2],
        ensures
            final(self).wf(),
            final(self).name == old(self).name,
            final(self).committee == old(self).committee,
            final(self).signed_transactions == old(self).signed_transactions,
            final(self).certificates == old(self).certificates,
            final(self).signed_effects == old(self).signed_effects,
            final(self).objects_reflect(committed@),
            final(self).parents_record(committed@, digest),
    {
        proof {
            reveal(AuthorityState::objects_reflect);
            reveal(AuthorityState::parents_record);
            assert(self.objects_reflect(committed@.take(0)));
            assert(self.parents_record(committed@.take(0), digest));
        }
        let nc = committed.len();
        let mut ci: usize = 0;
        while ci < nc
            invariant
                self.wf(),
                self.name == old(self).name,
                self.committee == old(self).committee,
                self.signed_transactions == old(self).signed_transactions,
                self.certificates == old(self).certificates,
                self.signed_effects == old(self).signed_effects,
                nc == committed@.len(),
                nc == keys@.len(),
                ci <= nc,
                forall|j: int|
                    0 <= j < committed@.len() ==> (#[trigger] committed@[j])@.version < u64::MAX,
                forall|j: int|
                    0 <= j < committed@.len() ==> (#[trigger] committed@[j])@.id == keys@[j],
                forall|j: int, j2: int| 0 <= j < j2 < keys@.len() ==> keys@[j] != keys@[j2],
                self.objects_reflect(committed@.take(ci as int)),
                self.parents_record(committed@.take(ci as int), digest),
            decreases nc - ci,
        {
            let obj = committed[ci].clone_object();
            let oref = obj.compute_object_reference();
            let ghost pre_state = *self;
            self.store_object(obj);
            let ghost pre_parent = self.parent_sync@;
            self.parent_sync.push((oref, digest));
            proof {
                assert(self.parent_sync@.drop_last() =~= pre_parent);
                assert(self.parent_sync@.last() == (oref, digest));
                assert(self.objects_reflect(committed@.take(ci + 1))) by {
                    reveal(AuthorityState::objects_reflect);
                    assert forall|j: int|
                        0 <= j < ci + 1 implies self.objects.m().contains_key(
                        (#[trigger] committed@.take(ci + 1)[j])@.id,
                    ) && self.objects.m()[committed@.take(ci + 1)[j]@.id]@ == committed@.take(
                        ci + 1,
                    )[j]@ by {
                        assert(committed@.take(ci + 1)[j] == committed@[j]);
                        if j < ci {
                            assert(committed@.take(ci as int)[j] == committed@[j]);
                            assert(committed@[j]@.id != committed@[ci as int]@.id);
                            assert(self.objects.m().contains_key(committed@[j]@.id)
                                <==> pre_state.objects.m().contains_key(committed@[j]@.id));
                        }
                    }
                }
                assert(self.parents_record(committed@.take(ci + 1), digest)) by {
                    reveal(AuthorityState::parents_record);
                    assert forall|j: int|
                        0 <= j < ci + 1 implies Self::parent_of(
                        self.parent_sync@,
                        crate::objects::object_ref((#[trigger] committed@.take(ci + 1)[j])@),
                    ) == Some(digest) by {
                        assert(committed@.take(ci + 1)[j] == committed@[j]);
                        if j < ci {
                            assert(committed@.take(ci as int)[j] == committed@[j]);
                            assert(crate::objects::object_ref(committed@[j]@).0
                                == committed@[j]@.id);
                            assert(oref.0 == committed@[ci as int]@.id);
                            assert(crate::objects::object_ref(committed@[j]@) != oref);
                        } else {
                            assert(oref == crate::objects::object_ref(committed@[ci as int]@));
                        }
                    }
                }
            }
            ci = ci + 1;
        }
        proof {
            assert(committed@.take(nc as int) =~= committed@);
        }
    }

    /// Drop one deleted object and append its sentinel history entry.
    #[verifier::rlimit(100)]
    #[verifier::spinoff_prover]
    fn drop_one(
        &mut self,
        id: u64,
        v: u64,
        digest: TransactionDigest,
        committed: Ghost<Seq<Object>>,
        removed: Ghost<Seq<(u64, u64)>>,
        ri: Ghost<int>,
    )
        requires
            old(self).wf(),
            0 <= ri@ < removed@.len(),
            removed@[ri@] == (id, v),
            v < u64::MAX,
            forall|j: int| 0 <= j < committed@.len() ==> (#[trigger] committed@[j])@.id != id,
            forall|j: int, j2: int|
                0 <= j < j2 < removed@.len() ==> (#[trigger] removed@[j]).0 != (
                #[trigger] removed@[j2]).0,
            old(self).objects_reflect(committed@),
            old(self).parents_record(committed@, digest),
            old(self).removed_gone(removed@.take(ri@)),
            old(self).removed_parents(removed@.take(ri@), digest),
        ensures
            final(self).wf(),
            final(self).name == old(self).name,
            final(self).committee == old(self).committee,
            final(self).signed_transactions == old(self).signed_transactions,
            final(self).certificates == old(self).certificates,
            final(self).signed_effects == old(self).signed_effects,
            final(self).objects_reflect(committed@),
            final(self).parents_record(committed@, digest),
            final(self).removed_gone(removed@.take(ri@ + 1)),
            final(self).removed_parents(removed@.take(ri@ + 1), digest),
    {
        let ghost pre_state = *self;
        self.remove_object(id);
        let ghost pre_parent = self.parent_sync@;
        let dref = (id, v + 1, OBJECT_DIGEST_DELETED);
        self.parent_sync.push((dref, digest));
        proof {
            assert(self.parent_sync@.drop_last() =~= pre_parent);
            assert forall|k: u64| k != id implies ((#[trigger] self.objects.m().contains_key(k))
                <==> pre_state.objects.m().contains_key(k)) by {}
            assert forall|k: u64|
                k != id && pre_state.objects.m().contains_key(k) implies #[trigger] self.objects.m()[k]
                == pre_state.objects.m()[k] by {}
            Self::lemma_commit_preserved(pre_state, *self, committed@, digest, dref.0, dref);
            Self::lemma_removed_step(pre_state, *self, removed@, ri@, digest, dref);
        }
    }

    /// Drop every deleted object and append its sentinel history entry.
    #[verifier::rlimit(100)]
    #[verifier::spinoff_prover]
    fn commit_deleted(
        &mut self,
        removed: &Vec<(u64, u64)>,
        committed: Ghost<Seq<Object>>,
        digest: TransactionDigest,
    )
        requires
            old(self).wf(),
            forall|j: int| 0 <= j < removed@.len() ==> (#[trigger] removed@[j]).1 < u64::MAX,
            forall|j: int, j2: int|
                0 <= j < committed@.len() && 0 <= j2 < removed@.len() ==> (
                #[trigger] committed@[j])@.id != (#[trigger] removed@[j2]).0,
            forall|j: int, j2: int|
                0 <= j < j2 < removed@.len() ==> (#[trigger] removed@[j]).0 != (
                #[trigger] removed@[j2]).0,
            old(self).objects_reflect(committed@),
            old(self).parents_record(committed@, digest),
        ensures
            final(self).wf(),
            final(self).name == old(self).name,
            final(self).committee == old(self).committee,
            final(self).signed_transactions == old(self).signed_transactions,
            final(self).certificates == old(self).certificates,
            final(self).signed_effects == old(self).signed_effects,
            final(self).objects_reflect(committed@),
            final(self).parents_record(committed@, digest),
            final(self).removed_gone(removed@),
            final(self).removed_parents(removed@, digest),
    {
        proof {
            reveal(AuthorityState::removed_gone);
            reveal(AuthorityState::removed_parents);
            assert(self.removed_gone(removed@.take(0)));
            assert(self.removed_parents(removed@.take(0), digest));
        }
        let nd = removed.len();
        let mut ri: usize = 0;
        while ri < nd
            invariant
                self.wf(),
                self.name == old(self).name,
                self.committee == old(self).committee,
                self.signed_transactions == old(self).signed_transactions,
                self.certificates == old(self).certificates,
                self.signed_effects == old(self).signed_effects,
                nd == removed@.len(),
                ri <= nd,
                forall|j: int| 0 <= j < removed@.len() ==> (#[trigger] removed@[j]).1 < u64::MAX,
                forall|j: int, j2: int|
                    0 <= j < committed@.len() && 0 <= j2 < removed@.len() ==> (
                    #[trigger] committed@[j])@.id != (#[trigger] removed@[j2]).0,
                forall|j: int, j2: int|
                    0 <= j < j2 < removed@.len() ==> (#[trigger] removed@[j]).0 != (
                    #[trigger] removed@[j2]).0,
                self.objects_reflect(committed@),
                self.parents_record(committed@, digest),
                self.removed_gone(removed@.take(ri as int)),
                self.removed_parents(removed@.take(ri as int), digest),
            decreases nd - ri,
        {
            let (id, v) = removed[ri];
            proof {
                assert forall|j: int|
                    0 <= j < committed@.len() implies (#[trigger] committed@[j])@.id != id by {
                    assert(committed@[j]@.id != removed@[ri as int].0);
                }
            }
            self.drop_one(id, v, digest, committed, Ghost(removed@), Ghost(ri as int));
            ri = ri + 1;
        }
        proof {
            assert(removed@.take(nd as int) =~= removed@);
        }
    }

    /// Recording certificates and effects does not disturb what the
    /// object store and the history reflect.
    proof fn lemma_reflect_frame(
        pre: AuthorityState,
        post: AuthorityState,
        eff: crate::messages::TransactionEffectsV,
        digest: TransactionDigest,
    )
        requires
            pre.store_reflects_effects(eff, digest),
            post.objects == pre.objects,
            post.parent_sync == pre.parent_sync,
        ensures
            post.store_reflects_effects(eff, digest),
    {
        reveal(AuthorityState::store_reflects_effects);
    }

    /// Commit a finished overlay: store every committed object, drop every
    /// deleted one, and append the history entries, so that the store
    /// reflects the overlay's effects.
    #[verifier::rlimit(100)]
    #[verifier::spinoff_prover]
    fn commit_overlay(
        &mut self,
        committed: &Vec<Object>,
        removed: &Vec<(u64, u64)>,
        keys: Ghost<Seq<u64>>,
        ts: Ghost<crate::temporary_store::AuthorityTemporaryStore>,
        eff: Ghost<crate::messages::TransactionEffectsV>,
        digest: TransactionDigest,
    )
        requires
            old(self).wf(),
            committed@.len() == keys@.len(),
            forall|j: int|
                0 <= j < committed@.len() ==> (#[trigger] committed@[j])@.version < u64::MAX,
            forall|j: int| 0 <= j < committed@.len() ==> (#[trigger] committed@[j])@.id == keys@[j],
            forall|j: int, j2: int| 0 <= j < j2 < keys@.len() ==> keys@[j] != keys@[j2],
            forall|j: int| 0 <= j < removed@.len() ==> (#[trigger] removed@[j]).1 < u64::MAX,
            forall|j: int, j2: int|
                0 <= j < keys@.len() && 0 <= j2 < removed@.len() ==> (#[trigger] removed@[j2]).0
                    != #[trigger] keys@[j],
            forall|j: int, j2: int|
                0 <= j < j2 < removed@.len() ==> (#[trigger] removed@[j]).0 != (
                #[trigger] removed@[j2]).0,
            eff@.mutated == ts@.effects_mutated(),
            eff@.created == ts@.effects_created(),
            eff@.deleted == ts@.effects_deleted(),
            keys@ == ts@.written.keys_seq(),
            forall|j: int|
                0 <= j < committed@.len() ==> (#[trigger] committed@[j])@ == ts@.committed_object(
                    keys@[j],
                ),
            removed@ == ts@.deleted.pairs(),
        ensures
            final(self).wf(),
            final(self).name == old(self).name,
            final(self).committee == old(self).committee,
            final(self).signed_transactions == old(self).signed_transactions,
            final(self).certificates == old(self).certificates,
            final(self).signed_effects == old(self).signed_effects,
            final(self).store_reflects_effects(eff@, digest),
    {
        self.commit_written(committed, keys, digest);
        proof {
            assert forall|j: int, j2: int|
                0 <= j < committed@.len() && 0 <= j2 < removed@.len() implies (
            #[trigger] committed@[j])@.id != (#[trigger] removed@[j2]).0 by {
                assert(committed@[j]@.id == keys@[j]);
            }
        }
        self.commit_deleted(removed, Ghost(committed@), digest);
        proof {
            Self::lemma_lift_effects(*self, ts@, committed@, keys@, removed@, eff@, digest);
        }
    }

    /// Execute a valid certificate against the store: run its transaction
    /// through the engine over a fresh overlay, commit the overlay's
    /// outcome, and record certificate and counter-signed effects. The
    /// checks decide, in order; a certificate passing them is always
    /// executed. An already-executed certificate returns the recorded
    /// effects without touching anything (idempotence).
    #[verifier::rlimit(100)]
    #[verifier::spinoff_prover]
    pub fn handle_confirmation_transaction(&mut self, confirmation: &ConfirmationTransaction) -> (r:
        Result<TransactionInfoResponse, SuiError>)
        requires
            old(self).wf(),
        ensures
            final(self).wf(),
            final(self).name == old(self).name,
            final(self).committee == old(self).committee,
            match old(self).confirmation_checks(confirmation.certificate@) {
                Some(e) => r == Err::<TransactionInfoResponse, SuiError>(e) && *final(self) == *old(self),
                None => r is Ok,
            },
            forall|k: u64|
                #[trigger] old(self).signed_effects.m().contains_key(k) ==> final(self).signed_effects.m().contains_key(k) && final(self).signed_effects.m()[k] == old(self).signed_effects.m()[k],
            match r {
                Err(e) => *final(self) == *old(self),
                Ok(resp) => {
                    let digest = confirmation.certificate@.transaction.digest();
                    &&& valid_certificate(confirmation.certificate@, old(self).committee)
                    &&& resp@.signed_effects is Some
                    &&& resp@.signed_effects->Some_0.effects.transaction_digest == digest
                    &&& resp@.signed_effects->Some_0.auth_signature.authority == old(self).name
                    &&& crate::messages::signature_valid(
                        resp@.signed_effects->Some_0.auth_signature.signature,
                        old(self).name,
                        crate::messages::digest_of_effects(resp@.signed_effects->Some_0.effects),
                    )
                    &&& final(self).signed_effects.m().contains_key(digest)
                    &&& final(self).signed_effects.m()[digest]@ == resp@.signed_effects->Some_0
                    &&& (forall|k: u64|
                        #![trigger final(self).signed_effects.m().contains_key(k)]
                        k != digest ==> (final(self).signed_effects.m().contains_key(k) <==> old(self).signed_effects.m().contains_key(k)) && (old(self).signed_effects.m().contains_key(k) ==> final(self).signed_effects.m()[k]
                            == old(self).signed_effects.m()[k]))
                    &&& (old(self).signed_effects.m().contains_key(digest) ==> *final(self) == *old(self) && resp@.signed_effects->Some_0 == old(self).signed_effects.m()[digest]@)
                    &&& (!old(self).signed_effects.m().contains_key(digest) ==> final(self).store_reflects_effects(resp@.signed_effects->Some_0.effects, digest))
                },
            },
    {
        let cert = &confirmation.certificate;
        if !check_certificate(cert, &self.committee) {
            return Err(SuiError::CertificateRequiresQuorum);
        }
        let digest = cert.transaction.digest();
        if self.signed_effects.contains_key(digest) {
            proof {
                self.signed_effects.lemma_m_index(digest);
            }
            return Ok(self.make_transaction_info(digest));
        }
        self.execute_certificate(cert, digest)
    }

    /// Run a valid, not yet executed certificate: the remaining input
    /// checks, the engine over a fresh overlay, the commit, and the
    /// record of certificate and counter-signed effects.
    #[verifier::rlimit(100)]
    #[verifier::spinoff_prover]
    fn execute_certificate(&mut self, cert: &CertifiedTransaction, digest: TransactionDigest) -> (r:
        Result<TransactionInfoResponse, SuiError>)
        requires
            old(self).wf(),
            valid_certificate(cert@, old(self).committee),
            digest == cert@.transaction.digest(),
            !old(self).signed_effects.m().contains_key(digest),
        ensures
            final(self).wf(),
            final(self).name == old(self).name,
            final(self).committee == old(self).committee,
            match old(self).confirmation_checks(cert@) {
                Some(e) => r == Err::<TransactionInfoResponse, SuiError>(e) && *final(self) == *old(self),
                None => r is Ok,
            },
            forall|k: u64|
                #[trigger] old(self).signed_effects.m().contains_key(k) ==> final(self).signed_effects.m().contains_key(k) && final(self).signed_effects.m()[k] == old(self).signed_effects.m()[k],
            match r {
                Err(e) => *final(self) == *old(self),
                Ok(resp) => {
                    &&& resp@.signed_effects is Some
                    &&& resp@.signed_effects->Some_0.effects.transaction_digest == digest
                    &&& resp@.signed_effects->Some_0.auth_signature.authority == old(self).name
                    &&& crate::messages::signature_valid(
                        resp@.signed_effects->Some_0.auth_signature.signature,
                        old(self).name,
                        crate::messages::digest_of_effects(resp@.signed_effects->Some_0.effects),
                    )
                    &&& final(self).signed_effects.m().contains_key(digest)
                    &&& final(self).signed_effects.m()[digest]@ == resp@.signed_effects->Some_0
                    &&& (forall|k: u64|
                        #![trigger final(self).signed_effects.m().contains_key(k)]
                        k != digest ==> (final(self).signed_effects.m().contains_key(k) <==> old(self).signed_effects.m().contains_key(k)) && (old(self).signed_effects.m().contains_key(k) ==> final(self).signed_effects.m()[k]
                            == old(self).signed_effects.m()[k]))
                    &&& final(self).store_reflects_effects(resp@.signed_effects->Some_0.effects, digest)
                },
            },
    {
        let refs = Self::collect_input_refs(&cert.transaction.data);
        if !self.check_inputs_exact(&refs) {
            return Err(SuiError::LockErrors);
        }
        if !self.check_versions_headroom(&refs) {
            return Err(SuiError::LockErrors);
        }
        let gas_id = cert.transaction.data.gas_payment.0;
        let gas_is_coin = match self.objects.get(gas_id) {
            Some(o) => match &o.data {
                Data::Coin { .. } => true,
                _ => false,
            },
            None => false,
        };
        if !gas_is_coin {
            return Err(SuiError::InsufficientGas);
        }
        // Dependencies: the transactions that produced the inputs.
        let mut deps: Vec<TransactionDigest> = Vec::new();
        let nr = refs.len();
        let mut di: usize = 0;
        while di < nr
            invariant
                nr == refs@.len(),
                di <= nr,
            decreases nr - di,
        {
            match self.parent(&refs[di]) {
                Some(d) => {
                    deps.push(d);
                },
                None => {},
            }
            di = di + 1;
        }
        // Seed the overlay and execute.
        let inputs = self.collect_input_objects(&refs);
        let ghost ginputs = inputs@;
        let mut ts = crate::temporary_store::AuthorityTemporaryStore::seed(inputs);
        proof {
            assert(ts.objects.m().contains_key(gas_id)) by {
                assert(refs@[refs@.len() - 1] == cert.transaction.data@.gas_payment);
                assert(has_object_id(ginputs, gas_id));
                let j = choose|j: int|
                    0 <= j < ginputs.len() && (#[trigger] ginputs[j])@.id == gas_id;
                assert(ts.objects.m().contains_key(ginputs[j]@.id));
            }
            assert(ts.objects.m()[gas_id]@ == self.objects.m()[gas_id]@);
            assert forall|i: int|
                0 <= i < cert.transaction@.data.kinds.len() implies ((
            #[trigger] cert.transaction@.data.kinds[i]) matches SingleTransactionKindV::Transfer(t)
                ==> ts.objects.m().contains_key(t.object_ref.0)) by {
                if cert.transaction@.data.kinds[i] is Transfer {
                    Self::lemma_transfer_ref_in_inputs(cert.transaction@.data.kinds, i);
                    let t = cert.transaction@.data.kinds[i]->Transfer_0;
                    let j = choose|j: int|
                        0 <= j < kinds_input_refs(cert.transaction@.data.kinds).len()
                            && kinds_input_refs(cert.transaction@.data.kinds)[j] == t.object_ref;
                    assert(refs@[j] == t.object_ref);
                    assert(has_object_id(ginputs, t.object_ref.0));
                    let q = choose|q: int|
                        0 <= q < ginputs.len() && (#[trigger] ginputs[q])@.id == t.object_ref.0;
                    assert(ts.objects.m().contains_key(ginputs[q]@.id));
                }
            }
        }
        let executor = crate::executor::BasicsExecutor {  };
        let effects = match crate::execution_engine::execute_transaction_to_effects(
            &mut ts,
            &cert.transaction,
            digest,
            deps,
            &executor,
        ) {
            Ok(e) => e,
            Err(_) => {
                proof {
                    assert(false);
                }
                return Err(SuiError::LockErrors);
            },
        };
        proof {
            assert forall|k: u64| #[trigger] ts.objects.m().contains_key(k) implies ts.objects.m()[k]@.version < u64::MAX - 1 by {
                let i = choose|i: int|
                    0 <= i < ginputs.len() && (#[trigger] ginputs[i])@.id == k;
                assert(ts.objects.m()[ginputs[i]@.id]@ == ginputs[i]@);
            }
        }
        let resp = self.finish_execution(&ts, cert, effects, digest);
        Ok(resp)
    }

    /// Shape facts of a finished overlay: the committed objects carry
    /// their keys at versions with room, and the deleted entries are
    /// distinct and disjoint from the written keys.
    #[verifier::rlimit(100)]
    #[verifier::spinoff_prover]
    proof fn lemma_overlay_shape(
        ts: crate::temporary_store::AuthorityTemporaryStore,
        committed: Seq<Object>,
        keys: Seq<u64>,
        removed: Seq<(u64, u64)>,
    )
        requires
            ts.wf(),
            forall|k: u64|
                #[trigger] ts.objects.m().contains_key(k) ==> ts.objects.m()[k]@.version
                    < u64::MAX - 1,
            keys == ts.written.keys_seq(),
            committed.len() == keys.len(),
            forall|j: int|
                0 <= j < committed.len() ==> (#[trigger] committed[j])@ == ts.committed_object(
                    keys[j],
                ),
            removed == ts.deleted.pairs(),
        ensures
            forall|j: int| 0 <= j < committed.len() ==> (#[trigger] committed[j])@.version < u64::MAX,
            forall|j: int| 0 <= j < committed.len() ==> (#[trigger] committed[j])@.id == keys[j],
            forall|j: int, j2: int| 0 <= j < j2 < keys.len() ==> keys[j] != keys[j2],
            forall|j: int| 0 <= j < removed.len() ==> (#[trigger] removed[j]).1 < u64::MAX,
            forall|j: int, j2: int|
                0 <= j < keys.len() && 0 <= j2 < removed.len() ==> (#[trigger] removed[j2]).0
                    != #[trigger] keys[j],
            forall|j: int, j2: int|
                0 <= j < j2 < removed.len() ==> (#[trigger] removed[j]).0 != (
                #[trigger] removed[j2]).0,
    {
        ts.written.lemma_view();
        ts.deleted.lemma_view();
        ts.written.lemma_pairs_distinct();
        ts.deleted.lemma_pairs_distinct();
        assert forall|j: int|
            0 <= j < committed.len() implies (#[trigger] committed[j])@.version < u64::MAX by {
            let key = keys[j];
            assert(committed[j]@ == ts.committed_object(key));
            if ts.objects.m().contains_key(key) {
                assert(ts.objects.m()[key]@.version < u64::MAX - 1);
            }
        }
        assert forall|j: int|
            0 <= j < removed.len() implies (#[trigger] removed[j]).1 < u64::MAX by {
            let k = removed[j].0;
            assert(ts.deleted.m().contains_key(k) && ts.deleted.m()[k] == removed[j].1);
            assert(ts.objects.m().contains_key(k));
            assert(ts.deleted.m()[k] == ts.objects.m()[k]@.version);
        }
        assert forall|j: int, j2: int|
            0 <= j < keys.len() && 0 <= j2 < removed.len() implies (#[trigger] removed[j2]).0
            != #[trigger] keys[j] by {
            assert(ts.deleted.m().contains_key(removed[j2].0));
            assert(ts.written.m().contains_key(keys[j])) by {
                assert(ts.written.keys_seq().contains(keys[j])) by {
                    assert(ts.written.keys_seq()[j] == keys[j]);
                }
            }
        }
        assert forall|j: int, j2: int|
            0 <= j < j2 < removed.len() implies (#[trigger] removed[j]).0 != (
        #[trigger] removed[j2]).0 by {
            assert(removed[j] == ts.deleted.pairs()[j]);
            assert(removed[j2] == ts.deleted.pairs()[j2]);
        }
    }

    /// Commit a finished overlay and record its outcome: write every
    /// committed object, drop every deleted one, append the history
    /// entries, and record certificate and counter-signed effects.
    #[verifier::rlimit(100)]
    #[verifier::spinoff_prover]
    fn finish_execution(
        &mut self,
        ts: &crate::temporary_store::AuthorityTemporaryStore,
        cert: &CertifiedTransaction,
        effects: crate::messages::TransactionEffects,
        digest: TransactionDigest,
    ) -> (resp: TransactionInfoResponse)
        requires
            old(self).wf(),
            !old(self).signed_effects.m().contains_key(digest),
            ts.wf(),
            forall|k: u64|
                #[trigger] ts.objects.m().contains_key(k) ==> ts.objects.m()[k]@.version
                    < u64::MAX - 1,
            digest == cert@.transaction.digest(),
            effects@.transaction_digest == digest,
            effects@.mutated == ts.effects_mutated(),
            effects@.created == ts.effects_created(),
            effects@.deleted == ts.effects_deleted(),
        ensures
            final(self).wf(),
            final(self).name == old(self).name,
            final(self).committee == old(self).committee,
            forall|k: u64|
                #[trigger] old(self).signed_effects.m().contains_key(k) ==> final(self).signed_effects.m().contains_key(k) && final(self).signed_effects.m()[k] == old(self).signed_effects.m()[k],
            resp@.signed_effects is Some,
            resp@.signed_effects->Some_0.effects == effects@,
            resp@.signed_effects->Some_0.auth_signature.authority == old(self).name,
            crate::messages::signature_valid(
                resp@.signed_effects->Some_0.auth_signature.signature,
                old(self).name,
                crate::messages::digest_of_effects(resp@.signed_effects->Some_0.effects),
            ),
            final(self).signed_effects.m().contains_key(digest),
            final(self).signed_effects.m()[digest]@ == resp@.signed_effects->Some_0,
            forall|k: u64|
                #![trigger final(self).signed_effects.m().contains_key(k)]
                k != digest ==> (final(self).signed_effects.m().contains_key(k) <==> old(self).signed_effects.m().contains_key(k)) && (old(self).signed_effects.m().contains_key(k) ==> final(self).signed_effects.m()[k]
                    == old(self).signed_effects.m()[k]),
            final(self).store_reflects_effects(effects@, digest),
    {
        // Commit the overlay: write every committed object, drop every
        // deleted one, and record the history entries.
        let committed = ts.committed_objects();
        let ghost keys = ts.written.keys_seq();
        let removed = ts.deleted_entries();
        proof {
            ts.written.lemma_pairs_distinct();
            assert(committed@.len() == keys.len());
            assert forall|j: int|
                0 <= j < committed@.len() implies (#[trigger] committed@[j])@ == ts.committed_object(
                keys[j],
            ) by {}
            Self::lemma_overlay_shape(*ts, committed@, keys, removed@);
        }
        let ghost eff = effects@;
        self.commit_overlay(&committed, &removed, Ghost(keys), Ghost(*ts), Ghost(eff), digest);
        let ghost after_commit = *self;
        let resp = self.record_execution(cert, effects, digest);
        proof {
            Self::lemma_reflect_frame(after_commit, *self, eff, digest);
        }
        resp
    }

    /// Record the certificate and the counter-signed effects, and build
    /// the response that hands the recorded effects back.
    #[verifier::rlimit(100)]
    #[verifier::spinoff_prover]
    fn record_execution(
        &mut self,
        cert: &CertifiedTransaction,
        effects: crate::messages::TransactionEffects,
        digest: TransactionDigest,
    ) -> (resp: TransactionInfoResponse)
        requires
            old(self).wf(),
            digest == cert@.transaction.digest(),
            effects@.transaction_digest == digest,
        ensures
            final(self).wf(),
            final(self).name == old(self).name,
            final(self).committee == old(self).committee,
            final(self).objects == old(self).objects,
            final(self).parent_sync == old(self).parent_sync,
            resp@.signed_effects is Some,
            resp@.signed_effects->Some_0.effects == effects@,
            resp@.signed_effects->Some_0.auth_signature.authority == old(self).name,
            crate::messages::signature_valid(
                resp@.signed_effects->Some_0.auth_signature.signature,
                old(self).name,
                crate::messages::digest_of_effects(resp@.signed_effects->Some_0.effects),
            ),
            final(self).signed_effects.m().contains_key(digest),
            final(self).signed_effects.m()[digest]@ == resp@.signed_effects->Some_0,
            forall|k: u64|
                #![trigger final(self).signed_effects.m().contains_key(k)]
                k != digest ==> (final(self).signed_effects.m().contains_key(k) <==> old(self).signed_effects.m().contains_key(k)) && (old(self).signed_effects.m().contains_key(k) ==> final(self).signed_effects.m()[k]
                    == old(self).signed_effects.m()[k]),
    {
        self.certificates.insert(digest, cert.clone_certified());
        proof {
            self.certificates.lemma_view();
            assert forall|i: int|
                0 <= i < self.certificates.pairs().len() implies (
            #[trigger] self.certificates.pairs()[i]).1@.transaction.digest()
                == self.certificates.pairs()[i].0 by {
                let k = self.certificates.pairs()[i].0;
                assert(self.certificates.m()[k] == self.certificates.pairs()[i].1);
                if k != digest {
                    old(self).certificates.lemma_m_index(k);
                }
            }
        }
        let effects_digest = crate::messages::digest_of_effects_exec(&effects);
        let se = SignedTransactionEffects {
            effects,
            auth_signature: crate::messages::AuthoritySignInfo {
                epoch: self.committee.epoch(),
                authority: self.name,
                signature: crate::messages::Signature {
                    signer: self.name,
                    signed_digest: effects_digest,
                },
            },
        };
        self.signed_effects.insert(digest, se.clone_signed_effects());
        proof {
            self.signed_effects.lemma_view();
            assert forall|i: int|
                0 <= i < self.signed_effects.pairs().len() implies {
                let v = (#[trigger] self.signed_effects.pairs()[i]).1@;
                &&& v.effects.transaction_digest == self.signed_effects.pairs()[i].0
                &&& v.auth_signature.authority == self.name
                &&& crate::messages::signature_valid(
                    v.auth_signature.signature,
                    self.name,
                    crate::messages::digest_of_effects(v.effects),
                )
            } by {
                let k = self.signed_effects.pairs()[i].0;
                assert(self.signed_effects.m()[k] == self.signed_effects.pairs()[i].1);
                if k != digest {
                    old(self).signed_effects.lemma_m_index(k);
                }
            }
        }
        self.make_transaction_info(digest)
    }


    /// A live object carries exactly this reference.
    pub open spec fn holds_ref(self, r: ObjectRef) -> bool {
        &&& self.objects.m().contains_key(r.0)
        &&& self.objects.m()[r.0]@.version == r.1
        &&& object_digest(self.objects.m()[r.0]@) == r.2
    }

    /// References of every live object the address owns, in store order.
    pub fn account_objects(&self, address: u64) -> (r: Vec<(ObjectRef, Owner)>)
        requires
            self.wf(),
        ensures
            forall|j: int|
                0 <= j < r@.len() ==> self.holds_ref((#[trigger] r@[j]).0) && r@[j].1
                    == Owner::AddressOwner(address) && self.objects.m()[r@[j].0.0]@.owner
                    == Owner::AddressOwner(address),
            forall|i: int|
                0 <= i < self.objects.pairs().len() ==> ((
                #[trigger] self.objects.pairs()[i]).1@.owner == Owner::AddressOwner(address)
                    ==> has_ref(r@, object_digest_ref(self.objects.pairs()[i].1@))),
    {
        proof {
            self.objects.lemma_view();
        }
        let n = self.objects.len();
        let mut out: Vec<(ObjectRef, Owner)> = Vec::new();
        let mut i: usize = 0;
        while i < n
            invariant
                self.wf(),
                n == self.objects.pairs().len(),
                i <= n,
                forall|j: int|
                    0 <= j < out@.len() ==> self.holds_ref((#[trigger] out@[j]).0) && out@[j].1
                        == Owner::AddressOwner(address) && self.objects.m()[out@[j].0.0]@.owner
                        == Owner::AddressOwner(address),
                forall|p: int|
                    0 <= p < i ==> ((#[trigger] self.objects.pairs()[p]).1@.owner
                        == Owner::AddressOwner(address) ==> has_ref(
                        out@,
                        object_digest_ref(self.objects.pairs()[p].1@),
                    )),
            decreases n - i,
        {
            let ghost pre_out = out@;
            let o = self.objects.value_at(i);
            let matches_owner = match o.owner {
                Owner::AddressOwner(a) => a == address,
                _ => false,
            };
            if matches_owner {
                let oref = o.compute_object_reference();
                proof {
                    self.objects.lemma_m_index(self.objects.pairs()[i as int].0);
                    assert(self.objects.m().contains_key(self.objects.pairs()[i as int].0));
                    assert(self.objects.pairs()[i as int].1@.id == self.objects.pairs()[i as int].0);
                }
                out.push((oref, o.owner));
                proof {
                    assert(out@[out@.len() - 1].0 == object_digest_ref(
                        self.objects.pairs()[i as int].1@,
                    ));
                }
            }
            proof {
                assert(forall|q: int| 0 <= q < pre_out.len() ==> out@[q] == pre_out[q]);
                assert forall|p: int|
                    0 <= p < i + 1 implies ((#[trigger] self.objects.pairs()[p]).1@.owner
                    == Owner::AddressOwner(address) ==> has_ref(
                    out@,
                    object_digest_ref(self.objects.pairs()[p].1@),
                )) by {
                    if p < i {
                        if self.objects.pairs()[p].1@.owner == Owner::AddressOwner(address) {
                            assert(has_ref(pre_out, object_digest_ref(self.objects.pairs()[p].1@)));
                            let j = choose|j: int|
                                0 <= j < pre_out.len() && (#[trigger] pre_out[j]).0
                                    == object_digest_ref(self.objects.pairs()[p].1@);
                            assert(out@[j].0 == object_digest_ref(self.objects.pairs()[p].1@));
                        }
                    } else {
                        if self.objects.pairs()[p].1@.owner == Owner::AddressOwner(address) {
                            assert(out@[out@.len() - 1].0 == object_digest_ref(
                                self.objects.pairs()[p].1@,
                            ));
                        }
                    }
                }
            }
            i = i + 1;
        }
        out
    }

    /// The certificate recorded under one transaction digest.
    pub fn read_certificate(&self, digest: TransactionDigest) -> (r: Option<CertifiedTransaction>)
        requires
            self.wf(),
        ensures
            match r {
                Some(c) => self.certificates.m().contains_key(digest) && c@
                    == self.certificates.m()[digest]@,
                None => !self.certificates.m().contains_key(digest),
            },
    {
        match self.certificates.get(digest) {
            Some(c) => Some(c.clone_certified()),
            None => None,
        }
    }

    /// The latest recorded history entry for one object id, if any:
    /// the entry with the highest version.
    pub open spec fn latest_parent(s: Seq<(ObjectRef, TransactionDigest)>, id: ObjectId) -> Option<
        (ObjectRef, TransactionDigest),
    >
        decreases s.len(),
    {
        if s.len() == 0 {
            None
        } else {
            let rest = Self::latest_parent(s.drop_last(), id);
            if s.last().0.0 == id {
                match rest {
                    Some(e) => if s.last().0.1 >= e.0.1 {
                        Some(s.last())
                    } else {
                        rest
                    },
                    None => Some(s.last()),
                }
            } else {
                rest
            }
        }
    }

    /// The transaction that produced one exact object reference, if
    /// recorded.
    pub open spec fn parent_of(s: Seq<(ObjectRef, TransactionDigest)>, object_ref: ObjectRef) -> Option<
        TransactionDigest,
    >
        decreases s.len(),
    {
        if s.len() == 0 {
            None
        } else if s.last().0 == object_ref {
            Some(s.last().1)
        } else {
            Self::parent_of(s.drop_last(), object_ref)
        }
    }

    /// The transaction recorded as having produced `object_ref`.
    pub fn parent(&self, object_ref: &ObjectRef) -> (r: Option<TransactionDigest>)
        ensures
            r == Self::parent_of(self.parent_sync@, *object_ref),
    {
        let n = self.parent_sync.len();
        proof {
            assert(self.parent_sync@.take(n as int) =~= self.parent_sync@);
        }
        let mut i: usize = n;
        while i > 0
            invariant
                n == self.parent_sync@.len(),
                i <= n,
                Self::parent_of(self.parent_sync@, *object_ref) == Self::parent_of(
                    self.parent_sync@.take(i as int),
                    *object_ref,
                ),
            decreases i,
        {
            proof {
                assert(self.parent_sync@.take(i as int).drop_last() =~= self.parent_sync@.take(
                    i - 1,
                ));
                assert(self.parent_sync@.take(i as int).last() == self.parent_sync@[i - 1]);
            }
            let entry = self.parent_sync[i - 1];
            if entry.0.0 == object_ref.0 && entry.0.1 == object_ref.1 && entry.0.2 == object_ref.2 {
                return Some(entry.1);
            }
            i = i - 1;
        }
        proof {
            assert(self.parent_sync@.take(0) =~= Seq::<(ObjectRef, TransactionDigest)>::empty());
        }
        None
    }

    /// The latest history entry for one object id.
    pub fn get_latest_parent_entry(&self, id: ObjectId) -> (r: Result<
        Option<(ObjectRef, TransactionDigest)>,
        SuiError,
    >)
        ensures
            r == Ok::<_, SuiError>(Self::latest_parent(self.parent_sync@, id)),
    {
        let n = self.parent_sync.len();
        let mut best: Option<(ObjectRef, TransactionDigest)> = None;
        let mut i: usize = 0;
        while i < n
            invariant
                n == self.parent_sync@.len(),
                i <= n,
                best == Self::latest_parent(self.parent_sync@.take(i as int), id),
            decreases n - i,
        {
            proof {
                assert(self.parent_sync@.take(i + 1).drop_last() =~= self.parent_sync@.take(
                    i as int,
                ));
                assert(self.parent_sync@.take(i + 1).last() == self.parent_sync@[i as int]);
            }
            let entry = self.parent_sync[i];
            if entry.0.0 == id {
                best = match best {
                    Some(e) => if entry.0.1 >= e.0.1 {
                        Some(entry)
                    } else {
                        Some(e)
                    },
                    None => Some(entry),
                };
            }
            i = i + 1;
        }
        proof {
            assert(self.parent_sync@.take(n as int) =~= self.parent_sync@);
        }
        Ok(best)
    }

    /// How many history entries one object id has.
    pub fn get_parent_iterator(&self, id: ObjectId) -> (r: Vec<(ObjectRef, TransactionDigest)>)
        ensures
            forall|i: int|
                0 <= i < r@.len() ==> (#[trigger] r@[i]).0.0 == id && self.parent_sync@.contains(
                    r@[i],
                ),
    {
        let n = self.parent_sync.len();
        let mut out: Vec<(ObjectRef, TransactionDigest)> = Vec::new();
        let mut i: usize = 0;
        while i < n
            invariant
                n == self.parent_sync@.len(),
                i <= n,
                forall|j: int|
                    0 <= j < out@.len() ==> (#[trigger] out@[j]).0.0 == id
                        && self.parent_sync@.contains(out@[j]),
            decreases n - i,
        {
            let entry = self.parent_sync[i];
            if entry.0.0 == id {
                proof {
                    assert(self.parent_sync@[i as int] == entry);
                }
                out.push(entry);
            }
            i = i + 1;
        }
        out
    }
}

} // verus!
