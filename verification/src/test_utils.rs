//! Deterministic constructors for states, transactions and certificates,
//! used by the test suites and by in-process deployments: genesis
//! packages, single-authority states, transfer and call transactions.

use crate::authority::AuthorityState;
use crate::base::{ObjectId, ObjectRef, SuiAddress, SuiError};
use crate::committee::Committee;
use crate::executor::{
    FN_CREATE, FN_DELETE, FN_SET_VALUE, FN_TRANSFER, ID_MODULE, OBJECT_BASICS_MODULE,
};
use crate::messages::{
    CertifiedTransaction, ConfirmationTransaction, MoveCall, SignatureAggregator,
    SignedTransaction, Signature, SingleTransactionKind, Transaction, TransactionData,
    TransactionInfoResponse, Transfer,
};
use crate::committee::quorum_threshold_spec;
use crate::objects::{object_ref, Object, ObjectV, Owner};
use crate::vecmap::VecMap;
use vstd::prelude::*;

verus! {

/// Id of the genesis package object.
pub const GENESIS_PACKAGE_ID: u64 = 7;

/// Gas budget the test transactions carry.
pub const MAX_GAS: u64 = 10000;

/// The genesis package objects: one immutable package publishing the
/// identity and basics modules.
pub fn clone_genesis_packages() -> (r: Vec<Object>)
    ensures
        r@.len() == 1,
        r@[0]@.data is Package,
        r@[0]@.id == GENESIS_PACKAGE_ID,
        r@[0]@.version < u64::MAX,
{
    let mut modules: Vec<u64> = Vec::new();
    modules.push(ID_MODULE);
    modules.push(OBJECT_BASICS_MODULE);
    let mut out: Vec<Object> = Vec::new();
    out.push(Object::package_for_testing(GENESIS_PACKAGE_ID, 1, modules));
    out
}

/// Whether an object is a package publishing the module.
fn package_publishes(o: &Object, module: u64) -> (r: bool)
    ensures
        r == (o@.data is Package && o@.data->Package_modules.contains(module)),
{
    match &o.data {
        crate::objects::Data::Package { modules } => {
            let m = modules.len();
            let mut j: usize = 0;
            while j < m
                invariant
                    m == modules@.len(),
                    j <= m,
                    o@.data == (crate::objects::DataV::Package { modules: modules@ }),
                    forall|q2: int| 0 <= q2 < j ==> modules@[q2] != module,
                decreases m - j,
            {
                if modules[j] == module {
                    proof {
                        assert(modules@.contains(module)) by {
                            assert(modules@[j as int] == module);
                        }
                    }
                    return true;
                }
                j = j + 1;
            }
            proof {
                if modules@.contains(module) {
                    let q2 = choose|q2: int| 0 <= q2 < modules@.len() && modules@[q2] == module;
                    assert(false);
                }
            }
            false
        },
        _ => false,
    }
}

/// The reference of the first genesis package that publishes `module`.
pub fn get_genesis_package_by_module(genesis_objects: &Vec<Object>, module: u64) -> (r: Option<
    ObjectRef,
>)
    ensures
        r matches Some(q) ==> exists|i: int|
            0 <= i < genesis_objects@.len() && q == object_ref((#[trigger] genesis_objects@[i])@)
                && genesis_objects@[i]@.data is Package
                && genesis_objects@[i]@.data->Package_modules.contains(module) && (forall|p: int|
                0 <= p < i ==> !((#[trigger] genesis_objects@[p])@.data is Package
                    && genesis_objects@[p]@.data->Package_modules.contains(module))),
        r is None ==> forall|i: int|
            0 <= i < genesis_objects@.len() ==> !((#[trigger] genesis_objects@[i])@.data is Package
                && genesis_objects@[i]@.data->Package_modules.contains(module)),
{
    let n = genesis_objects.len();
    let mut i: usize = 0;
    while i < n
        invariant
            n == genesis_objects@.len(),
            i <= n,
            forall|p: int|
                0 <= p < i ==> !((#[trigger] genesis_objects@[p])@.data is Package
                    && genesis_objects@[p]@.data->Package_modules.contains(module)),
        decreases n - i,
    {
        let o = &genesis_objects[i];
        if package_publishes(o, module) {
            return Some(o.compute_object_reference());
        }
        i = i + 1;
    }
    None
}

/// A committee of one: this authority with weight one.
pub fn singleton_committee(name: u64) -> (r: Committee)
    ensures
        r.wf(),
        r.spec_epoch() == 0,
        r.weights().contains_key(name),
        r.weight_of(name) == 1,
        r.spec_total_votes() == 1,
{
    let mut rights: VecMap<u64> = VecMap::new();
    rights.insert(name, 1);
    proof {
        rights.lemma_view();
        assert(rights.pairs().len() == 1);
        assert(rights.pairs()[0] == (name, 1u64));
        assert(crate::committee::sum_weights(rights.pairs()) == 1) by {
            assert(rights.pairs().drop_last() =~= Seq::<(u64, u64)>::empty());
            assert(crate::vecmap::sum_pair_values(rights.pairs().drop_last()) == 0);
            assert(crate::vecmap::sum_pair_values(rights.pairs()) == 1);
        }
    }
    match Committee::new(0, rights) {
        Ok(c) => {
            proof {
                assert(c.weights().contains_key(name));
            }
            c
        },
        Err(_) => {
            proof {
                assert(false);
            }
            Committee { epoch: 0, voting_rights: VecMap::new(), total_votes: 0 }
        },
    }
}

/// A fresh single-authority state preloaded with the genesis packages.
pub fn init_state(name: u64) -> (r: AuthorityState)
    ensures
        r.wf(),
        r.name == name,
        r.committee.spec_epoch() == 0,
        r.committee.weight_of(name) == 1,
        r.committee.spec_total_votes() == 1,
        r.objects.m().contains_key(GENESIS_PACKAGE_ID),
        r.objects.m()[GENESIS_PACKAGE_ID]@.data is Package,
{
    let committee = singleton_committee(name);
    let mut state = AuthorityState::new(committee, name);
    let mut packages = clone_genesis_packages();
    let p = match packages.pop() {
        Some(p) => p,
        None => {
            proof {
                assert(false);
            }
            Object::with_id_owner_for_testing(0, 0)
        },
    };
    state.insert_genesis_object(p);
    state
}

/// A fresh state holding one default-gas object per (owner, id) pair.
pub fn init_state_with_ids(name: u64, objects: Vec<(SuiAddress, ObjectId)>) -> (r: AuthorityState)
    requires
        forall|i: int, j: int|
            0 <= i < j < objects@.len() ==> (#[trigger] objects@[i]).1 != (
            #[trigger] objects@[j]).1,
        forall|i: int| 0 <= i < objects@.len() ==> (#[trigger] objects@[i]).1 != GENESIS_PACKAGE_ID,
    ensures
        r.wf(),
        r.name == name,
        r.committee.spec_epoch() == 0,
        r.committee.weight_of(name) == 1,
        r.committee.spec_total_votes() == 1,
        r.objects.m().contains_key(GENESIS_PACKAGE_ID),
        r.objects.m()[GENESIS_PACKAGE_ID]@.data is Package,
        forall|i: int|
            0 <= i < objects@.len() ==> r.objects.m().contains_key((#[trigger] objects@[i]).1)
                && r.objects.m()[objects@[i].1]@ == (ObjectV {
                id: objects@[i].1,
                version: 0,
                owner: Owner::AddressOwner(objects@[i].0),
                data: crate::objects::DataV::Coin {
                    balance: crate::objects::GAS_VALUE_FOR_TESTING,
                },
            }),
{
    let mut state = init_state(name);
    let n = objects.len();
    let mut i: usize = 0;
    while i < n
        invariant
            state.wf(),
            state.name == name,
            state.committee.spec_epoch() == 0,
            state.committee.weight_of(name) == 1,
            state.committee.spec_total_votes() == 1,
            state.objects.m().contains_key(GENESIS_PACKAGE_ID),
            state.objects.m()[GENESIS_PACKAGE_ID]@.data is Package,
            n == objects@.len(),
            i <= n,
            forall|p: int| 0 <= p < objects@.len() ==> (#[trigger] objects@[p]).1 != GENESIS_PACKAGE_ID,
            forall|p: int, q: int|
                0 <= p < q < objects@.len() ==> (#[trigger] objects@[p]).1 != (
                #[trigger] objects@[q]).1,
            forall|p: int|
                0 <= p < i ==> state.objects.m().contains_key((#[trigger] objects@[p]).1)
                    && state.objects.m()[objects@[p].1]@ == (ObjectV {
                    id: objects@[p].1,
                    version: 0,
                    owner: Owner::AddressOwner(objects@[p].0),
                    data: crate::objects::DataV::Coin {
                        balance: crate::objects::GAS_VALUE_FOR_TESTING,
                    },
                }),
        decreases n - i,
    {
        let (address, id) = objects[i];
        let ghost pre = state;
        state.insert_genesis_object(Object::with_id_owner_for_testing(id, address));
        proof {
            assert forall|p: int|
                0 <= p < i + 1 implies state.objects.m().contains_key((#[trigger] objects@[p]).1)
                && state.objects.m()[objects@[p].1]@ == (ObjectV {
                id: objects@[p].1,
                version: 0,
                owner: Owner::AddressOwner(objects@[p].0),
                data: crate::objects::DataV::Coin {
                    balance: crate::objects::GAS_VALUE_FOR_TESTING,
                },
            }) by {
                if p < i {
                    assert(objects@[p].1 != objects@[i as int].1);
                    assert(state.objects.m().contains_key(objects@[p].1)
                        <==> pre.objects.m().contains_key(objects@[p].1));
                }
            }
        }
        i = i + 1;
    }
    state
}

/// A fresh state holding the given objects.
pub fn init_state_with_objects(name: u64, objects: Vec<Object>) -> (r: AuthorityState)
    requires
        forall|i: int| 0 <= i < objects@.len() ==> (#[trigger] objects@[i])@.version < u64::MAX,
        forall|i: int, j: int|
            0 <= i < j < objects@.len() ==> (#[trigger] objects@[i])@.id != (
            #[trigger] objects@[j])@.id,
        forall|i: int|
            0 <= i < objects@.len() ==> (#[trigger] objects@[i])@.id != GENESIS_PACKAGE_ID,
    ensures
        r.wf(),
        r.name == name,
        forall|i: int|
            0 <= i < objects@.len() ==> r.objects.m().contains_key((#[trigger] objects@[i])@.id)
                && r.objects.m()[objects@[i]@.id]@ == objects@[i]@,
{
    let mut state = init_state(name);
    let n = objects.len();
    let mut i: usize = 0;
    while i < n
        invariant
            state.wf(),
            state.name == name,
            n == objects@.len(),
            i <= n,
            forall|j: int| 0 <= j < objects@.len() ==> (#[trigger] objects@[j])@.version < u64::MAX,
            forall|p: int, q: int|
                0 <= p < q < objects@.len() ==> (#[trigger] objects@[p])@.id != (
                #[trigger] objects@[q])@.id,
            forall|p: int|
                0 <= p < i ==> state.objects.m().contains_key((#[trigger] objects@[p])@.id)
                    && state.objects.m()[objects@[p]@.id]@ == objects@[p]@,
        decreases n - i,
    {
        state.insert_genesis_object(objects[i].clone_object());
        i = i + 1;
    }
    state
}

/// A fresh state holding one default-gas object.
pub fn init_state_with_object_id(name: u64, address: SuiAddress, object: ObjectId) -> (r:
    AuthorityState)
    requires
        object != GENESIS_PACKAGE_ID,
    ensures
        r.wf(),
        r.name == name,
        r.objects.m().contains_key(object),
{
    let mut v: Vec<(SuiAddress, ObjectId)> = Vec::new();
    v.push((address, object));
    let r = init_state_with_ids(name, v);
    proof {
        assert(v@[0] == (address, object));
        assert(r.objects.m().contains_key(v@[0].1));
    }
    r
}

/// Pair a payload with the signer's signature.
pub fn to_transaction(data: TransactionData, signer: u64) -> (r: Transaction)
    ensures
        r@.data == data@,
        r@.tx_signature == (Signature {
            signer,
            signed_digest: crate::messages::digest_of_data(data@),
        }),
        signer == data@.sender ==> r@.signature_ok(),
{
    let signature = Signature::new(&data, signer);
    Transaction::new(data, signature)
}

/// A signed transfer of one object, paying gas from another.
pub fn init_transfer_transaction(
    sender: SuiAddress,
    secret: u64,
    recipient: SuiAddress,
    object_ref: ObjectRef,
    gas_object_ref: ObjectRef,
) -> (r: Transaction)
    ensures
        r@.data.sender == sender,
        r@.data.gas_payment == gas_object_ref,
        r@.data.gas_budget == MAX_GAS,
        r@.data.kinds == seq![
            crate::messages::SingleTransactionKindV::Transfer(
                Transfer { recipient, object_ref },
            ),
        ],
        secret == sender ==> r@.signature_ok(),
{
    let mut kinds: Vec<SingleTransactionKind> = Vec::new();
    kinds.push(SingleTransactionKind::Transfer(Transfer { recipient, object_ref }));
    proof {
        assert(kinds.deep_view() =~= seq![
            crate::messages::SingleTransactionKindV::Transfer(
                Transfer { recipient, object_ref },
            ),
        ]);
    }
    let data = TransactionData { kinds, sender, gas_payment: gas_object_ref, gas_budget: MAX_GAS };
    to_transaction(data, secret)
}

/// A certificate over a transfer, carrying this authority's own vote;
/// the vote alone certifies whenever the authority's weight reaches the
/// quorum threshold, as on a singleton committee.
pub fn init_certified_transfer_transaction(
    sender: SuiAddress,
    secret: u64,
    recipient: SuiAddress,
    object_ref: ObjectRef,
    gas_object_ref: ObjectRef,
    authority_state: &AuthorityState,
) -> (r: Result<CertifiedTransaction, SuiError>)
    requires
        authority_state.wf(),
    ensures
        r matches Ok(c) ==> {
            &&& crate::messages::valid_certificate(c@, authority_state.committee)
            &&& c@.transaction.data.sender == sender
            &&& c@.transaction.data.gas_payment == gas_object_ref
            &&& c@.transaction.data.gas_budget == MAX_GAS
            &&& c@.transaction.data.kinds == seq![
                crate::messages::SingleTransactionKindV::Transfer(
                    Transfer { recipient, object_ref },
                ),
            ]
            &&& c@.signatures.len() == 1
            &&& c@.signatures[0].0 == authority_state.name
        },
        secret == sender && authority_state.committee.weight_of(authority_state.name) as int
            >= quorum_threshold_spec(authority_state.committee.spec_total_votes() as int) ==> r
            is Ok,
{
    let transfer_transaction = init_transfer_transaction(
        sender,
        secret,
        recipient,
        object_ref,
        gas_object_ref,
    );
    let vote = SignedTransaction::new(
        authority_state.committee.epoch(),
        transfer_transaction.clone_transaction(),
        authority_state.name,
    );
    let mut builder = match SignatureAggregator::try_new(
        transfer_transaction,
        &authority_state.committee,
    ) {
        Ok(b) => b,
        Err(e) => {
            return Err(e);
        },
    };
    match builder.append(vote.auth_signature.authority, vote.auth_signature.signature) {
        Ok(Some(cert)) => {
            proof {
                crate::messages::lemma_valid_certificate_congruent(
                    builder.committee,
                    authority_state.committee,
                    cert@,
                );
            }
            Ok(cert)
        },
        Ok(None) => Err(SuiError::CertificateRequiresQuorum),
        Err(e) => Err(e),
    }
}

/// Submit a transaction to one authority, certify its vote, and execute
/// the certificate there. The authority's admissibility checks decide
/// the submission; a vote that alone reaches the quorum threshold (as
/// on a singleton committee) certifies, and the certificate executes
/// unless the input versions have no headroom left.
#[verifier::rlimit(100)]
pub fn send_and_confirm_transaction(authority: &mut AuthorityState, transaction: Transaction) -> (r:
    Result<TransactionInfoResponse, SuiError>)
    requires
        old(authority).wf(),
    ensures
        final(authority).wf(),
        final(authority).name == old(authority).name,
        final(authority).committee == old(authority).committee,
        match old(authority).transaction_checks(transaction@) {
            Some(e) => r == Err::<TransactionInfoResponse, SuiError>(e) && *final(authority)
                == *old(authority),
            None => {
                let digest = transaction@.digest();
                let w = old(authority).committee.weight_of(old(authority).name) as int;
                let quorum = quorum_threshold_spec(
                    old(authority).committee.spec_total_votes() as int,
                );
                &&& (w == 0 ==> r == Err::<TransactionInfoResponse, SuiError>(
                    SuiError::UnknownSigner,
                ))
                &&& (0 < w < quorum ==> r == Err::<TransactionInfoResponse, SuiError>(
                    SuiError::CertificateRequiresQuorum,
                ))
                &&& (w >= quorum && (old(authority).versions_have_headroom(
                    crate::authority::input_refs(transaction@.data),
                ) || old(authority).signed_effects.m().contains_key(digest)) ==> r is Ok)
                &&& (r matches Ok(resp) ==> resp@.signed_effects is Some
                    && resp@.signed_effects->Some_0.effects.transaction_digest == digest
                    && final(authority).signed_effects.m().contains_key(digest)
                    && final(authority).signed_effects.m()[digest]@
                    == resp@.signed_effects->Some_0)
            },
        },
{
    let ghost txv = transaction@;
    let response = match authority.handle_transaction(&transaction) {
        Ok(r) => r,
        Err(e) => {
            return Err(e);
        },
    };
    let vote = match response.signed_transaction {
        Some(v) => v,
        None => {
            proof {
                assert(false);
            }
            return Err(SuiError::LockErrors);
        },
    };
    let mut builder = match SignatureAggregator::try_new(transaction, &authority.committee) {
        Ok(b) => b,
        Err(e) => {
            proof {
                assert(false);
            }
            return Err(e);
        },
    };
    let certificate = match builder.append(
        vote.auth_signature.authority,
        vote.auth_signature.signature,
    ) {
        Ok(Some(c)) => c,
        Ok(None) => {
            return Err(SuiError::CertificateRequiresQuorum);
        },
        Err(e) => {
            proof {
                assert(builder.append_checks(
                    vote@.auth_signature.authority,
                    vote@.auth_signature.signature,
                ) is Some);
            }
            return Err(e);
        },
    };
    proof {
        crate::messages::lemma_valid_certificate_congruent(
            builder.committee,
            authority.committee,
            certificate@,
        );
        AuthorityState::lemma_confirmation_checks_congruent(
            *authority,
            *old(authority),
            certificate@,
        );
        assert(old(authority).inputs_exact(crate::authority::input_refs(txv.data)));
    }
    authority.handle_confirmation_transaction(&ConfirmationTransaction::new(certificate))
}

/// A call transaction against one module's function.
pub fn call_data(
    sender: SuiAddress,
    package: ObjectRef,
    module: u64,
    function: u64,
    object_arguments: Vec<ObjectRef>,
    pure_arguments: Vec<Vec<u8>>,
    gas_object_ref: ObjectRef,
) -> (r: TransactionData)
    ensures
        r@.sender == sender,
        r@.gas_payment == gas_object_ref,
{
    let mut kinds: Vec<SingleTransactionKind> = Vec::new();
    kinds.push(
        SingleTransactionKind::Call(
            MoveCall {
                package,
                module,
                function,
                type_arguments: Vec::new(),
                object_arguments,
                shared_object_arguments: Vec::new(),
                pure_arguments,
            },
        ),
    );
    TransactionData { kinds, sender, gas_payment: gas_object_ref, gas_budget: MAX_GAS }
}

/// A signed transaction that creates a basics object with the given
/// contents for `dest`.
pub fn crate_object_move_transaction(
    src: SuiAddress,
    secret: u64,
    dest: SuiAddress,
    value: u64,
    framework_obj_ref: ObjectRef,
    gas_object_ref: ObjectRef,
) -> (r: Transaction)
    ensures
        r@.data.sender == src,
        secret == src ==> r@.signature_ok(),
{
    let mut pure: Vec<Vec<u8>> = Vec::new();
    pure.push(u64_to_le_bytes(value));
    pure.push(u64_to_le_bytes(dest));
    to_transaction(
        call_data(src, framework_obj_ref, OBJECT_BASICS_MODULE, FN_CREATE, Vec::new(), pure, gas_object_ref),
        secret,
    )
}

/// A signed transaction that hands a basics object to `dest`.
pub fn transfer_object_move_transaction(
    src: SuiAddress,
    secret: u64,
    dest: SuiAddress,
    object_ref: ObjectRef,
    framework_obj_ref: ObjectRef,
    gas_object_ref: ObjectRef,
) -> (r: Transaction)
    ensures
        r@.data.sender == src,
        secret == src ==> r@.signature_ok(),
{
    let mut args: Vec<ObjectRef> = Vec::new();
    args.push(object_ref);
    let mut pure: Vec<Vec<u8>> = Vec::new();
    pure.push(u64_to_le_bytes(dest));
    to_transaction(
        call_data(src, framework_obj_ref, OBJECT_BASICS_MODULE, FN_TRANSFER, args, pure, gas_object_ref),
        secret,
    )
}

/// A signed transaction that deletes a basics object.
pub fn delete_object_move_transaction(
    src: SuiAddress,
    secret: u64,
    object_ref: ObjectRef,
    framework_obj_ref: ObjectRef,
    gas_object_ref: ObjectRef,
) -> (r: Transaction)
    ensures
        r@.data.sender == src,
        secret == src ==> r@.signature_ok(),
{
    let mut args: Vec<ObjectRef> = Vec::new();
    args.push(object_ref);
    to_transaction(
        call_data(src, framework_obj_ref, OBJECT_BASICS_MODULE, FN_DELETE, args, Vec::new(), gas_object_ref),
        secret,
    )
}

/// A signed transaction that overwrites a basics object's contents.
pub fn set_object_move_transaction(
    src: SuiAddress,
    secret: u64,
    object_ref: ObjectRef,
    value: u64,
    framework_obj_ref: ObjectRef,
    gas_object_ref: ObjectRef,
) -> (r: Transaction)
    ensures
        r@.data.sender == src,
        secret == src ==> r@.signature_ok(),
{
    let mut args: Vec<ObjectRef> = Vec::new();
    args.push(object_ref);
    let mut pure: Vec<Vec<u8>> = Vec::new();
    pure.push(u64_to_le_bytes(value));
    to_transaction(
        call_data(src, framework_obj_ref, OBJECT_BASICS_MODULE, FN_SET_VALUE, args, pure, gas_object_ref),
        secret,
    )
}


/// Build, certify against the authority's committee, and execute one
/// call of a published module's function.
pub fn call_move(
    authority: &mut AuthorityState,
    gas_object_id: ObjectId,
    sender: SuiAddress,
    sender_key: u64,
    package: ObjectRef,
    module: u64,
    function: u64,
    object_arg_ids: Vec<ObjectId>,
    pure_args: Vec<Vec<u8>>,
) -> (r: Result<crate::messages::TransactionEffects, SuiError>)
    requires
        old(authority).wf(),
    ensures
        final(authority).wf(),
        final(authority).name == old(authority).name,
        final(authority).committee == old(authority).committee,
        r matches Ok(e) ==> final(authority).signed_effects.m().contains_key(
            e@.transaction_digest,
        ) && final(authority).signed_effects.m()[e@.transaction_digest]@.effects == e@,
{
    let gas_ref = match authority.get_object(gas_object_id) {
        Ok(Some(o)) => o.compute_object_reference(),
        _ => {
            return Err(SuiError::ObjectNotFound);
        },
    };
    let mut object_args: Vec<ObjectRef> = Vec::new();
    let n = object_arg_ids.len();
    let mut i: usize = 0;
    while i < n
        invariant
            authority.wf(),
            authority.name == old(authority).name,
            authority.committee == old(authority).committee,
            n == object_arg_ids@.len(),
            i <= n,
        decreases n - i,
    {
        match authority.get_object(object_arg_ids[i]) {
            Ok(Some(o)) => {
                object_args.push(o.compute_object_reference());
            },
            _ => {
                return Err(SuiError::ObjectNotFound);
            },
        }
        i = i + 1;
    }
    let data = call_data(sender, package, module, function, object_args, pure_args, gas_ref);
    let tx = to_transaction(data, sender_key);
    let resp = match send_and_confirm_transaction(authority, tx) {
        Ok(r) => r,
        Err(e) => {
            return Err(e);
        },
    };
    match resp.signed_effects {
        Some(se) => Ok(se.effects),
        None => Err(SuiError::LockErrors),
    }
}

/// Call a function of the genesis basics module.
pub fn call_framework_code(
    authority: &mut AuthorityState,
    gas_object_id: ObjectId,
    sender: SuiAddress,
    sender_key: u64,
    function: u64,
    object_arg_ids: Vec<ObjectId>,
    pure_args: Vec<Vec<u8>>,
) -> (r: Result<crate::messages::TransactionEffects, SuiError>)
    requires
        old(authority).wf(),
    ensures
        final(authority).wf(),
        final(authority).name == old(authority).name,
        final(authority).committee == old(authority).committee,
        r matches Ok(e) ==> final(authority).signed_effects.m().contains_key(
            e@.transaction_digest,
        ) && final(authority).signed_effects.m()[e@.transaction_digest]@.effects == e@,
{
    let packages = clone_genesis_packages();
    let package_ref = match get_genesis_package_by_module(&packages, OBJECT_BASICS_MODULE) {
        Some(p) => p,
        None => {
            return Err(SuiError::DependentPackageNotFound);
        },
    };
    call_move(
        authority,
        gas_object_id,
        sender,
        sender_key,
        package_ref,
        OBJECT_BASICS_MODULE,
        function,
        object_arg_ids,
        pure_args,
    )
}

/// Create one basics object owned by the sender.
pub fn create_move_object(
    authority: &mut AuthorityState,
    gas_object_id: ObjectId,
    sender: SuiAddress,
    sender_key: u64,
) -> (r: Result<crate::messages::TransactionEffects, SuiError>)
    requires
        old(authority).wf(),
    ensures
        final(authority).wf(),
        final(authority).name == old(authority).name,
        final(authority).committee == old(authority).committee,
        r matches Ok(e) ==> final(authority).signed_effects.m().contains_key(
            e@.transaction_digest,
        ) && final(authority).signed_effects.m()[e@.transaction_digest]@.effects == e@,
{
    let mut pure: Vec<Vec<u8>> = Vec::new();
    pure.push(u64_to_le_bytes(16));
    pure.push(u64_to_le_bytes(sender));
    call_framework_code(authority, gas_object_id, sender, sender_key, FN_CREATE, Vec::new(), pure)
}

/// Little-endian encoding of a 64-bit value.
pub fn u64_to_le_bytes(v: u64) -> (r: Vec<u8>)
    ensures
        r@.len() == 8,
        crate::executor::le8(r@) == v,
{
    let mut out: Vec<u8> = Vec::new();
    out.push((v & 0xFF) as u8);
    out.push(((v >> 8u64) & 0xFF) as u8);
    out.push(((v >> 16u64) & 0xFF) as u8);
    out.push(((v >> 24u64) & 0xFF) as u8);
    out.push(((v >> 32u64) & 0xFF) as u8);
    out.push(((v >> 40u64) & 0xFF) as u8);
    out.push(((v >> 48u64) & 0xFF) as u8);
    out.push(((v >> 56u64) & 0xFF) as u8);
    proof {
        assert(crate::executor::le8(out@) == (((v & 0xFF) as u8) as u64) | ((((v >> 8u64)
            & 0xFF) as u8) as u64) << 8 | ((((v >> 16u64) & 0xFF) as u8) as u64) << 16 | ((((v
            >> 24u64) & 0xFF) as u8) as u64) << 24 | ((((v >> 32u64) & 0xFF) as u8) as u64) << 32
            | ((((v >> 40u64) & 0xFF) as u8) as u64) << 40 | ((((v >> 48u64) & 0xFF) as u8) as u64)
            << 48 | ((((v >> 56u64) & 0xFF) as u8) as u64) << 56);
        assert((((v & 0xFF) as u8) as u64) | ((((v >> 8u64) & 0xFF) as u8) as u64) << 8 | ((((v
            >> 16u64) & 0xFF) as u8) as u64) << 16 | ((((v >> 24u64) & 0xFF) as u8) as u64) << 24
            | ((((v >> 32u64) & 0xFF) as u8) as u64) << 32 | ((((v >> 40u64) & 0xFF) as u8) as u64)
            << 40 | ((((v >> 48u64) & 0xFF) as u8) as u64) << 48 | ((((v >> 56u64)
            & 0xFF) as u8) as u64) << 56 == v) by (bit_vector);
    }
    out
}

} // verus!
