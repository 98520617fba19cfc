//! The execution engine: applies a certified transaction's operations
//! against a temporary overlay, rolls the overlay back on failure,
//! marks every mutable input mutated, and charges gas.
//!
//! Calls and publishes go through the opaque `MoveExecutor`, a black box
//! that may read the overlay and reports either mutations to apply or a
//! failure; everything the engine guarantees holds for every executor.

use crate::base::{
    deduct_balance, deduct_balance_exec, mix, mix_exec, sat_add, sat_add_exec, ObjectId,
    SuiAddress, SuiError, TransactionDigest, GENESIS_DIGEST,
};
use crate::messages::{
    ExecutionFailureKind, ExecutionStatus, GasCostSummary, MoveCall, MoveModulePublish,
    SingleTransactionKind, SingleTransactionKindV, Transaction, TransactionEffects,
};
use crate::objects::{Data, DataV, Object, Owner};
use crate::temporary_store::AuthorityTemporaryStore;
use vstd::prelude::*;

verus! {

/// Gas units charged for a native transfer operation.
pub const TRANSFER_GAS_COST: u64 = 10;

/// Per-execution context handed to the executor: the sender, the
/// transaction digest, and a counter from which fresh ids are minted.
pub struct TxContext {
    pub sender: SuiAddress,
    pub digest: TransactionDigest,
    pub ids_created: u64,
}

/// Id minted for the `count`-th object a transaction creates.
pub open spec fn fresh_object_id(digest: TransactionDigest, count: u64) -> ObjectId {
    mix(mix(digest, 0x1D), count)
}

impl TxContext {
    pub fn new(sender: SuiAddress, digest: TransactionDigest) -> (r: TxContext)
        ensures
            r.sender == sender,
            r.digest == digest,
            r.ids_created == 0,
    {
        TxContext { sender, digest, ids_created: 0 }
    }

    /// Mint a fresh object id, derived from the transaction digest and
    /// the running counter.
    pub fn fresh_id(&mut self) -> (r: ObjectId)
        ensures
            r == fresh_object_id(old(self).digest, old(self).ids_created),
            final(self).digest == old(self).digest,
            final(self).sender == old(self).sender,
            final(self).ids_created == vstd::wrapping::u64_specs::wrapping_add(
                old(self).ids_created,
                1,
            ),
    {
        let id = mix_exec(mix_exec(self.digest, 0x1D), self.ids_created);
        self.ids_created = self.ids_created.wrapping_add(1);
        id
    }
}

/// One mutation the executor asks the engine to apply to the overlay.
pub enum StoreOp {
    /// Write this object state (created if its id is no input).
    Write(Object),
    /// Delete the input object with this id.
    Delete(ObjectId),
}

/// The opaque Move executor: given the overlay and a call or a publish,
/// it either returns the mutations to apply together with the gas units
/// it metered, or fails, still reporting the units consumed.
pub trait MoveExecutor {
    fn execute(
        &self,
        store: &AuthorityTemporaryStore,
        call: &MoveCall,
        ctx: &mut TxContext,
    ) -> Result<(Vec<StoreOp>, u64), u64>
        requires
            store.wf(),
    ;

    fn publish(
        &self,
        store: &AuthorityTemporaryStore,
        publish: &MoveModulePublish,
        ctx: &mut TxContext,
    ) -> Result<(Vec<StoreOp>, u64), u64>
        requires
            store.wf(),
    ;
}

/// Every operation is a transfer of an address-owned input.
pub open spec fn all_transfers_owned(
    ts: AuthorityTemporaryStore,
    kinds: Seq<SingleTransactionKindV>,
) -> bool {
    forall|i: int|
        0 <= i < kinds.len() ==> ((#[trigger] kinds[i])
            matches SingleTransactionKindV::Transfer(t) && ts.objects.m().contains_key(
            t.object_ref.0,
        ) && ts.objects.m()[t.object_ref.0]@.owner is AddressOwner)
}

/// The overlay's pending tables after applying the executor's
/// mutations in order.
pub open spec fn ops_applied(
    written: Map<u64, Object>,
    deleted: Map<u64, u64>,
    objects: crate::vecmap::VecMap<Object>,
    ops: Seq<StoreOp>,
) -> (Map<u64, Object>, Map<u64, u64>)
    decreases ops.len(),
{
    if ops.len() == 0 {
        (written, deleted)
    } else {
        let prev = ops_applied(written, deleted, objects, ops.drop_last());
        match ops.last() {
            StoreOp::Write(o) => (prev.0.insert(o@.id, o), prev.1.remove(o@.id)),
            StoreOp::Delete(id) => if objects.m().contains_key(id) {
                (prev.0.remove(id), prev.1.insert(id, objects.m()[id]@.version))
            } else {
                prev
            },
        }
    }
}

/// Reassign an owned object to `recipient` and record the write; fails
/// on an object that is not address-owned.
pub fn transfer(
    temporary_store: &mut AuthorityTemporaryStore,
    object: Object,
    recipient: SuiAddress,
) -> (r: Result<(), ExecutionFailureKind>)
    requires
        old(temporary_store).wf(),
    ensures
        final(temporary_store).wf(),
        final(temporary_store).objects == old(temporary_store).objects,
        final(temporary_store).active_inputs == old(temporary_store).active_inputs,
        match r {
            Ok(_) => {
                &&& object@.owner is AddressOwner
                &&& final(temporary_store).written.m().contains_key(object@.id)
                &&& final(temporary_store).written.m()[object@.id]@ == (crate::objects::ObjectV {
                    owner: Owner::AddressOwner(recipient),
                    ..object@
                })
            },
            Err(k) => {
                &&& k == ExecutionFailureKind::TransferUnowned
                &&& !(object@.owner is AddressOwner)
                &&& *final(temporary_store) == *old(temporary_store)
            },
        },
{
    match object.owner {
        Owner::AddressOwner(_) => {
            let mut object = object;
            object.owner = Owner::AddressOwner(recipient);
            temporary_store.write_object(object);
            Ok(())
        },
        _ => Err(ExecutionFailureKind::TransferUnowned),
    }
}

/// Apply the executor's mutations to the overlay. A delete of an id that
/// is no input of the execution is ignored.
fn apply_ops(temporary_store: &mut AuthorityTemporaryStore, ops: &Vec<StoreOp>)
    requires
        old(temporary_store).wf(),
    ensures
        final(temporary_store).wf(),
        final(temporary_store).objects == old(temporary_store).objects,
        final(temporary_store).active_inputs == old(temporary_store).active_inputs,
        ({
            let m = ops_applied(
                old(temporary_store).written.m(),
                old(temporary_store).deleted.m(),
                old(temporary_store).objects,
                ops@,
            );
            &&& final(temporary_store).deleted.m() == m.1
            &&& (forall|kk: u64|
                #[trigger] final(temporary_store).written.m().contains_key(kk)
                    <==> m.0.contains_key(kk))
            &&& (forall|kk: u64|
                #[trigger] m.0.contains_key(kk) ==> final(temporary_store).written.m()[kk]@
                    == m.0[kk]@)
        }),
{
    let n = ops.len();
    let mut i: usize = 0;
    while i < n
        invariant
            temporary_store.wf(),
            temporary_store.objects == old(temporary_store).objects,
            temporary_store.active_inputs == old(temporary_store).active_inputs,
            n == ops@.len(),
            i <= n,
            ({
                let m = ops_applied(
                    old(temporary_store).written.m(),
                    old(temporary_store).deleted.m(),
                    old(temporary_store).objects,
                    ops@.take(i as int),
                );
                &&& temporary_store.deleted.m() == m.1
                &&& (forall|kk: u64|
                    #[trigger] temporary_store.written.m().contains_key(kk)
                        <==> m.0.contains_key(kk))
                &&& (forall|kk: u64|
                    #[trigger] m.0.contains_key(kk) ==> temporary_store.written.m()[kk]@
                        == m.0[kk]@)
            }),
        decreases n - i,
    {
        proof {
            assert(ops@.take(i + 1).drop_last() =~= ops@.take(i as int));
            assert(ops@.take(i + 1).last() == ops@[i as int]);
        }
        let ghost mpre = ops_applied(
            old(temporary_store).written.m(),
            old(temporary_store).deleted.m(),
            old(temporary_store).objects,
            ops@.take(i as int),
        );
        match &ops[i] {
            StoreOp::Write(o) => {
                temporary_store.write_object(o.clone_object());
                proof {
                    let m = ops_applied(
                        old(temporary_store).written.m(),
                        old(temporary_store).deleted.m(),
                        old(temporary_store).objects,
                        ops@.take(i + 1),
                    );
                    assert(m.0 == mpre.0.insert(o@.id, *o) && m.1 == mpre.1.remove(o@.id));
                    assert(temporary_store.deleted.m() =~= m.1);
                }
            },
            StoreOp::Delete(id) => {
                if temporary_store.objects.contains_key(*id) {
                    temporary_store.delete_object(*id);
                    proof {
                        assert(temporary_store.deleted.m() =~= ops_applied(
                            old(temporary_store).written.m(),
                            old(temporary_store).deleted.m(),
                            old(temporary_store).objects,
                            ops@.take(i + 1),
                        ).1);
                    }
                }
            },
        }
        i = i + 1;
    }
    proof {
        assert(ops@.take(n as int) =~= ops@);
    }
}

/// Compute the storage gas charged for the overlay's pending writes.
fn compute_storage_cost(ts: &AuthorityTemporaryStore) -> (r: u64)
    requires
        ts.wf(),
    ensures
        r == ts.storage_cost_of(),
{
    let n = ts.written.len();
    let mut acc: u64 = 0;
    let mut i: usize = 0;
    while i < n
        invariant
            ts.wf(),
            n == ts.written.pairs().len(),
            i <= n,
            acc == AuthorityTemporaryStore::sum_sizes(ts.written.pairs().take(i as int)),
        decreases n - i,
    {
        proof {
            assert(ts.written.pairs().take(i + 1).drop_last() =~= ts.written.pairs().take(i as int));
        }
        let o = ts.written.value_at(i);
        acc = sat_add_exec(acc, o.data.storage_size());
        i = i + 1;
    }
    proof {
        assert(ts.written.pairs().take(n as int) =~= ts.written.pairs());
    }
    acc
}

/// Compute the input footprint of the keys of one overlay table.
fn compute_input_sizes(ts: &AuthorityTemporaryStore, keys: &Vec<u64>) -> (r: u64)
    requires
        ts.wf(),
    ensures
        r == ts.sum_input_sizes(keys@),
{
    let n = keys.len();
    let mut acc: u64 = 0;
    let mut i: usize = 0;
    while i < n
        invariant
            ts.wf(),
            n == keys@.len(),
            i <= n,
            acc == ts.sum_input_sizes(keys@.take(i as int)),
        decreases n - i,
    {
        proof {
            assert(keys@.take(i + 1).drop_last() =~= keys@.take(i as int));
            assert(keys@.take(i + 1).last() == keys@[i as int]);
        }
        let sz = match ts.objects.get(keys[i]) {
            Some(o) => o.data.storage_size(),
            None => 0,
        };
        acc = sat_add_exec(acc, sz);
        i = i + 1;
    }
    proof {
        assert(keys@.take(n as int) =~= keys@);
    }
    acc
}

/// Compute the storage rebate for the overlay: the input footprint of
/// every mutated or deleted input.
fn compute_rebate(ts: &AuthorityTemporaryStore) -> (r: u64)
    requires
        ts.wf(),
    ensures
        r == ts.rebate_of(),
{
    let wkeys = ts.written.keys();
    let dkeys = ts.deleted.keys();
    let a = compute_input_sizes(ts, &wkeys);
    let b = compute_input_sizes(ts, &dkeys);
    sat_add_exec(a, b)
}

/// Execute a transaction's operations over a freshly seeded overlay and
/// charge gas; see the module description for the guarantees.
///
/// Whatever the executor does:
/// - every active input ends marked mutated or deleted;
/// - the gas object is rewritten from its input state with exactly
///   `computation + storage - rebate` deducted (clamped to `u64`);
/// - the storage figures of the returned summary match the overlay;
/// - an operation failure rolls every write back, so each written object
///   equals its input state and nothing is deleted (the gas balance is
///   the one exception);
/// - gas charging fails exactly when `computation + storage` exceeds the
///   transaction's gas budget, and that failure does not roll back.
pub fn execute_transaction<E: MoveExecutor>(
    temporary_store: &mut AuthorityTemporaryStore,
    transaction: &Transaction,
    gas_object_id: ObjectId,
    tx_ctx: &mut TxContext,
    executor: &E,
) -> (r: ExecutionStatus)
    requires
        old(temporary_store).wf(),
        old(temporary_store).written.pairs().len() == 0,
        old(temporary_store).deleted.pairs().len() == 0,
        old(temporary_store).objects.m().contains_key(gas_object_id),
        old(temporary_store).objects.m()[gas_object_id]@.data is Coin,
        forall|i: int|
            0 <= i < transaction@.data.kinds.len() ==> ((
            #[trigger] transaction@.data.kinds[i]) matches SingleTransactionKindV::Transfer(t)
                ==> old(temporary_store).objects.m().contains_key(t.object_ref.0)),
    ensures
        final(temporary_store).wf(),
        final(temporary_store).objects == old(temporary_store).objects,
        final(temporary_store).active_inputs == old(temporary_store).active_inputs,
        forall|i: int|
            0 <= i < old(temporary_store).active_inputs@.len() ==> final(temporary_store).written.m().contains_key((#[trigger] old(temporary_store).active_inputs@[i]).0)
                || final(temporary_store).deleted.m().contains_key(
                old(temporary_store).active_inputs@[i].0,
            ),
        final(temporary_store).written.m().contains_key(gas_object_id),
        ({
            let g = final(temporary_store).written.m()[gas_object_id]@;
            let old_g = old(temporary_store).objects.m()[gas_object_id]@;
            let cost = r.gas_cost_spec();
            &&& g.id == gas_object_id
            &&& g.owner == old_g.owner
            &&& g.version == old_g.version
            &&& g.data == (DataV::Coin {
                balance: deduct_balance(
                    old_g.data->Coin_balance,
                    sat_add(cost.computation_cost, cost.storage_cost),
                    cost.storage_rebate,
                ),
            })
        }),
        r.gas_cost_spec().storage_cost == final(temporary_store).storage_cost_of(),
        r.gas_cost_spec().storage_rebate == final(temporary_store).rebate_of(),
        (r matches ExecutionStatus::Failure { error, .. } && error
            == ExecutionFailureKind::InsufficientGas) ==> sat_add(
            r.gas_cost_spec().computation_cost,
            r.gas_cost_spec().storage_cost,
        ) > transaction@.data.gas_budget,
        r is Success ==> sat_add(
            r.gas_cost_spec().computation_cost,
            r.gas_cost_spec().storage_cost,
        ) <= transaction@.data.gas_budget,
        (r matches ExecutionStatus::Failure { error, .. } && error
            != ExecutionFailureKind::InsufficientGas) ==> {
            &&& final(temporary_store).deleted.pairs().len() == 0
            &&& forall|k: u64|
                #[trigger] final(temporary_store).written.m().contains_key(k) ==> old(temporary_store).objects.m().contains_key(k) && (k != gas_object_id ==> final(temporary_store).written.m()[k]@ == old(temporary_store).objects.m()[k]@)
        },
        (r matches ExecutionStatus::Failure { error, .. } && error
            == ExecutionFailureKind::TransferUnowned) ==> exists|i: int|
            0 <= i < transaction@.data.kinds.len() && ((#[trigger] transaction@.data.kinds[i])
                matches SingleTransactionKindV::Transfer(t) && old(
                temporary_store,
            ).objects.m().contains_key(t.object_ref.0) && !(old(
                temporary_store,
            ).objects.m()[t.object_ref.0]@.owner is AddressOwner)),
        all_transfers_owned(*old(temporary_store), transaction@.data.kinds) ==> (r is Success || (
        r matches ExecutionStatus::Failure { error, .. } && error
            == ExecutionFailureKind::InsufficientGas)),
{
    proof {
        temporary_store.objects.lemma_m_index(gas_object_id);
    }
    let gas_input: Object = match temporary_store.objects.get(gas_object_id) {
        Some(o) => o.clone_object(),
        None => {
            proof {
                assert(false);
            }
            Object::with_id_owner_for_testing(0, 0)
        },
    };
    let old_balance: u64 = match &gas_input.data {
        Data::Coin { balance } => *balance,
        _ => {
            proof {
                assert(false);
            }
            0
        },
    };

    let n = transaction.data.kinds.len();
    let mut computation: u64 = 0;
    let mut failure: Option<ExecutionFailureKind> = None;
    let mut i: usize = 0;
    while i < n
        invariant
            temporary_store.wf(),
            temporary_store.objects == old(temporary_store).objects,
            temporary_store.active_inputs == old(temporary_store).active_inputs,
            forall|j: int|
                0 <= j < transaction@.data.kinds.len() ==> ((
                #[trigger] transaction@.data.kinds[j]) matches SingleTransactionKindV::Transfer(t)
                    ==> old(temporary_store).objects.m().contains_key(t.object_ref.0)),
            n == transaction.data.kinds@.len(),
            i <= n,
            failure matches Some(k) ==> k != ExecutionFailureKind::InsufficientGas,
            failure == Some(ExecutionFailureKind::TransferUnowned) ==> exists|j: int|
                0 <= j < transaction@.data.kinds.len() && ((#[trigger] transaction@.data.kinds[j])
                    matches SingleTransactionKindV::Transfer(t) && old(
                    temporary_store,
                ).objects.m().contains_key(t.object_ref.0) && !(old(
                    temporary_store,
                ).objects.m()[t.object_ref.0]@.owner is AddressOwner)),
            all_transfers_owned(*old(temporary_store), transaction@.data.kinds) ==> failure
                is None,
        decreases n - i,
    {
        if failure.is_none() {
            let step: Result<u64, (ExecutionFailureKind, u64)> = match &transaction.data.kinds[i] {
                SingleTransactionKind::Transfer(t) => {
                    proof {
                        assert(transaction@.data.kinds[i as int]
                            matches SingleTransactionKindV::Transfer(tv) && tv == *t);
                    }
                    let obj = match temporary_store.objects.get(t.object_ref.0) {
                        Some(o) => o.clone_object(),
                        None => {
                            proof {
                                assert(false);
                            }
                            Object::with_id_owner_for_testing(0, 0)
                        },
                    };
                    match transfer(temporary_store, obj, t.recipient) {
                        Ok(_) => Ok(TRANSFER_GAS_COST),
                        Err(k) => {
                            proof {
                                assert(transaction@.data.kinds[i as int]
                                    matches SingleTransactionKindV::Transfer(tv) && old(
                                    temporary_store,
                                ).objects.m().contains_key(tv.object_ref.0) && !(old(
                                    temporary_store,
                                ).objects.m()[tv.object_ref.0]@.owner is AddressOwner));
                            }
                            Err((k, TRANSFER_GAS_COST))
                        },
                    }
                },
                SingleTransactionKind::Call(c) => {
                    match executor.execute(temporary_store, c, tx_ctx) {
                        Ok((ops, units)) => {
                            apply_ops(temporary_store, &ops);
                            Ok(units)
                        },
                        Err(units) => Err((ExecutionFailureKind::MoveAbort, units)),
                    }
                },
                SingleTransactionKind::Publish(p) => {
                    match executor.publish(temporary_store, p, tx_ctx) {
                        Ok((ops, units)) => {
                            apply_ops(temporary_store, &ops);
                            Ok(units)
                        },
                        Err(units) => Err((ExecutionFailureKind::MoveAbort, units)),
                    }
                },
            };
            match step {
                Ok(units) => {
                    computation = sat_add_exec(computation, units);
                },
                Err((kind, units)) => {
                    computation = sat_add_exec(computation, units);
                    failure = Some(kind);
                },
            }
        }
        i = i + 1;
    }

    if failure.is_some() {
        // Roll back every write of the failed execution.
        temporary_store.reset();
    }
    temporary_store.ensure_active_inputs_mutated();

    // Stage the gas object from its input state, so the overlay's
    // storage figures account for it before the balance moves.
    temporary_store.write_object(gas_input.clone_object());

    let storage_cost = compute_storage_cost(temporary_store);
    let storage_rebate = compute_rebate(temporary_store);

    let charge_failed = sat_add_exec(computation, storage_cost) > transaction.data.gas_budget;
    if charge_failed {
        failure = Some(ExecutionFailureKind::InsufficientGas);
    }

    let summary = GasCostSummary {
        computation_cost: computation,
        storage_cost,
        storage_rebate,
    };
    let gas_used = sat_add_exec(summary.computation_cost, summary.storage_cost);
    let new_balance = deduct_balance_exec(old_balance, gas_used, summary.storage_rebate);
    let ghost staged = *temporary_store;
    let gas_final = Object {
        id: gas_input.id,
        version: gas_input.version,
        owner: gas_input.owner,
        data: Data::Coin { balance: new_balance },
    };
    proof {
        assert(staged.written.m().contains_key(gas_object_id));
        assert(!staged.deleted.m().contains_key(gas_object_id));
        assert(staged.written.m()[gas_object_id]@.data is Coin);
    }
    temporary_store.write_object(gas_final);
    proof {
        staged.written.lemma_view();
        let i = choose|i: int|
            0 <= i < staged.written.pairs().len() && (#[trigger] staged.written.pairs()[i]).0
                == gas_object_id && temporary_store.written.pairs() == staged.written.pairs().update(
                i,
                (gas_object_id, gas_final),
            );
        assert(staged.written.m()[staged.written.pairs()[i].0] == staged.written.pairs()[i].1);
        assert(staged.written.pairs()[i].1@.data is Coin);
        assert forall|j: int|
            0 <= j < temporary_store.written.pairs().len() implies (
        #[trigger] temporary_store.written.pairs()[j]).1@.data.storage_size()
            == staged.written.pairs()[j].1@.data.storage_size() by {
            if j == i {
                assert(temporary_store.written.pairs()[j].1 == gas_final);
            } else {
                assert(temporary_store.written.pairs()[j] == staged.written.pairs()[j]);
            }
        }
        lemma_rewrite_same_size(staged, *temporary_store, gas_object_id);
    }

    match failure {
        None => ExecutionStatus::Success { gas_cost: summary },
        Some(error) => ExecutionStatus::Failure { gas_cost: summary, error },
    }
}

/// Re-writing an already written key with data of the same storage
/// footprint leaves the overlay's storage cost and rebate unchanged.
proof fn lemma_rewrite_same_size(
    pre: AuthorityTemporaryStore,
    post: AuthorityTemporaryStore,
    k: u64,
)
    requires
        post.objects == pre.objects,
        post.deleted.keys_seq() == pre.deleted.keys_seq(),
        post.written.keys_seq() == pre.written.keys_seq(),
        post.written.pairs().len() == pre.written.pairs().len(),
        forall|i: int|
            0 <= i < post.written.pairs().len() ==> (#[trigger] post.written.pairs()[i]).1@.data.storage_size()
                == pre.written.pairs()[i].1@.data.storage_size(),
    ensures
        post.storage_cost_of() == pre.storage_cost_of(),
        post.rebate_of() == pre.rebate_of(),
{
    lemma_sum_sizes_congruent(pre.written.pairs(), post.written.pairs());
    lemma_sum_input_sizes_congruent(pre, post, pre.written.keys_seq());
    lemma_sum_input_sizes_congruent(pre, post, pre.deleted.keys_seq());
}

/// Pair sequences with elementwise equal storage footprints have the
/// same storage-cost sum.
proof fn lemma_sum_sizes_congruent(a: Seq<(u64, Object)>, b: Seq<(u64, Object)>)
    requires
        a.len() == b.len(),
        forall|i: int|
            0 <= i < a.len() ==> (#[trigger] a[i]).1@.data.storage_size()
                == b[i].1@.data.storage_size(),
    ensures
        AuthorityTemporaryStore::sum_sizes(a) == AuthorityTemporaryStore::sum_sizes(b),
    decreases a.len(),
{
    if a.len() > 0 {
        lemma_sum_sizes_congruent(a.drop_last(), b.drop_last());
    }
}

/// The input-footprint sum depends only on the inputs and the keys.
proof fn lemma_sum_input_sizes_congruent(
    pre: AuthorityTemporaryStore,
    post: AuthorityTemporaryStore,
    keys: Seq<u64>,
)
    requires
        post.objects == pre.objects,
    ensures
        post.sum_input_sizes(keys) == pre.sum_input_sizes(keys),
    decreases keys.len(),
{
    if keys.len() > 0 {
        lemma_sum_input_sizes_congruent(pre, post, keys.drop_last());
    }
}

/// Execute a certified transaction's payload to its effects: run the
/// operations, then package the overlay's outcome, the status, the gas
/// entry and the dependency list (genesis removed) as effects.
pub fn execute_transaction_to_effects<E: MoveExecutor>(
    temporary_store: &mut AuthorityTemporaryStore,
    transaction: &Transaction,
    transaction_digest: TransactionDigest,
    transaction_dependencies: Vec<TransactionDigest>,
    executor: &E,
) -> (r: Result<TransactionEffects, SuiError>)
    requires
        old(temporary_store).wf(),
        old(temporary_store).written.pairs().len() == 0,
        old(temporary_store).deleted.pairs().len() == 0,
        old(temporary_store).objects.m().contains_key(transaction@.data.gas_payment.0),
        old(temporary_store).objects.m()[transaction@.data.gas_payment.0]@.data is Coin,
        forall|i: int|
            0 <= i < transaction@.data.kinds.len() ==> ((
            #[trigger] transaction@.data.kinds[i]) matches SingleTransactionKindV::Transfer(t)
                ==> old(temporary_store).objects.m().contains_key(t.object_ref.0)),
    ensures
        r is Ok,
        final(temporary_store).wf(),
        final(temporary_store).objects == old(temporary_store).objects,
        final(temporary_store).active_inputs == old(temporary_store).active_inputs,
        ({
            let e = r->Ok_0@;
            let ts = *final(temporary_store);
            let gas_object_id = transaction@.data.gas_payment.0;
            &&& e.transaction_digest == transaction_digest
            &&& e.created == ts.effects_created()
            &&& e.mutated == ts.effects_mutated()
            &&& e.deleted == ts.effects_deleted()
            &&& e.gas_object == ts.committed_entry(gas_object_id)
            &&& crate::waypoint::sorted_strict(e.dependencies)
            &&& e.dependencies.to_set() == transaction_dependencies@.to_set().remove(
                GENESIS_DIGEST,
            )
            &&& ts.written.m().contains_key(gas_object_id)
            &&& (forall|i: int|
                0 <= i < old(temporary_store).active_inputs@.len() ==> ts.written.m().contains_key(
                    (#[trigger] old(temporary_store).active_inputs@[i]).0,
                ) || ts.deleted.m().contains_key(old(temporary_store).active_inputs@[i].0))
            &&& ({
                let g = ts.written.m()[gas_object_id]@;
                let old_g = old(temporary_store).objects.m()[gas_object_id]@;
                let cost = e.status.gas_cost_spec();
                &&& g.id == gas_object_id
                &&& g.owner == old_g.owner
                &&& g.version == old_g.version
                &&& g.data == (DataV::Coin {
                    balance: deduct_balance(
                        old_g.data->Coin_balance,
                        sat_add(cost.computation_cost, cost.storage_cost),
                        cost.storage_rebate,
                    ),
                })
            })
            &&& e.status.gas_cost_spec().storage_cost == ts.storage_cost_of()
            &&& e.status.gas_cost_spec().storage_rebate == ts.rebate_of()
            &&& (e.status is Success ==> sat_add(
                e.status.gas_cost_spec().computation_cost,
                e.status.gas_cost_spec().storage_cost,
            ) <= transaction@.data.gas_budget)
            &&& ((e.status matches ExecutionStatus::Failure { error, .. } && error
                == ExecutionFailureKind::TransferUnowned) ==> exists|i: int|
                0 <= i < transaction@.data.kinds.len() && ((
                #[trigger] transaction@.data.kinds[i])
                    matches SingleTransactionKindV::Transfer(t) && old(
                    temporary_store,
                ).objects.m().contains_key(t.object_ref.0) && !(old(
                    temporary_store,
                ).objects.m()[t.object_ref.0]@.owner is AddressOwner)))
            &&& (all_transfers_owned(*old(temporary_store), transaction@.data.kinds) ==> (e.status
                is Success || (e.status matches ExecutionStatus::Failure { error, .. } && error
                == ExecutionFailureKind::InsufficientGas)))
            &&& ((e.status matches ExecutionStatus::Failure { error, .. } && error
                != ExecutionFailureKind::InsufficientGas) ==> {
                &&& ts.deleted.pairs().len() == 0
                &&& forall|k: u64|
                    #[trigger] ts.written.m().contains_key(k) ==> old(temporary_store).objects.m().contains_key(k) && (k != gas_object_id ==> ts.written.m()[k]@
                        == old(temporary_store).objects.m()[k]@)
            })
        }),
{
    let mut tx_ctx = TxContext::new(transaction.data.sender, transaction_digest);
    let gas_object_id = transaction.data.gas_payment.0;
    let status = execute_transaction(
        temporary_store,
        transaction,
        gas_object_id,
        &mut tx_ctx,
        executor,
    );

    // A sorted set of dependencies; the synthetic genesis digest never
    // counts as a real one.
    let mut deps: Vec<TransactionDigest> = Vec::new();
    let nd = transaction_dependencies.len();
    let mut i: usize = 0;
    while i < nd
        invariant
            nd == transaction_dependencies@.len(),
            i <= nd,
            crate::waypoint::sorted_strict(deps@),
            deps@.to_set() == transaction_dependencies@.take(i as int).to_set().remove(
                GENESIS_DIGEST,
            ),
        decreases nd - i,
    {
        let d = transaction_dependencies[i];
        let ghost pre = deps@.to_set();
        if d != GENESIS_DIGEST {
            crate::waypoint::insert_sorted(&mut deps, d);
        }
        proof {
            let tpre = transaction_dependencies@.take(i as int);
            let tpost = transaction_dependencies@.take(i + 1);
            assert(tpost.to_set() =~= tpre.to_set().insert(transaction_dependencies@[i as int]))
                by {
                assert forall|y: u64| tpost.to_set().contains(y) implies tpre.to_set().insert(
                    transaction_dependencies@[i as int],
                ).contains(y) by {
                    let j = choose|j: int| 0 <= j < tpost.len() && #[trigger] tpost[j] == y;
                    if j < i {
                        assert(tpre[j] == y);
                    }
                }
                assert forall|y: u64|
                    tpre.to_set().insert(transaction_dependencies@[i as int]).contains(
                        y,
                    ) implies tpost.to_set().contains(y) by {
                    if y == transaction_dependencies@[i as int] {
                        assert(tpost[i as int] == y);
                    } else {
                        let j = choose|j: int| 0 <= j < tpre.len() && #[trigger] tpre[j] == y;
                        assert(tpost[j] == y);
                    }
                }
            }
            assert(deps@.to_set() =~= tpost.to_set().remove(GENESIS_DIGEST));
        }
        i = i + 1;
    }
    proof {
        assert(transaction_dependencies@.take(nd as int) =~= transaction_dependencies@);
    }

    let effects = temporary_store.to_effects(transaction_digest, deps, status, gas_object_id);
    Ok(effects)
}

} // verus!
