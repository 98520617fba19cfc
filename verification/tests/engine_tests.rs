use sui_core::base::{deduct_balance_exec, sat_add_exec, SuiError};
use sui_core::committee::Committee;
use sui_core::execution_engine::{
    execute_transaction_to_effects, transfer, TxContext, TRANSFER_GAS_COST,
};
use sui_core::executor::{u64_from_le_bytes, BasicsExecutor};
use sui_core::messages::{
    ExecutionFailureKind, ExecutionStatus, SignatureAggregator, Signature, SingleTransactionKind,
    Transaction, TransactionData, Transfer,
};
use sui_core::objects::{Data, Object, Owner, GAS_VALUE_FOR_TESTING};
use sui_core::temporary_store::AuthorityTemporaryStore;
use sui_core::test_utils::{init_transfer_transaction, to_transaction, u64_to_le_bytes, MAX_GAS};
use sui_core::vecmap::VecMap;

fn committee_of(weights: &[(u64, u64)]) -> Committee {
    let mut rights = VecMap::new();
    for (n, w) in weights {
        rights.insert(*n, *w);
    }
    Committee::new(0, rights).unwrap()
}

#[test]
fn committee_thresholds_follow_the_formula() {
    // W = 4: quorum = floor(8/3)+1 = 3, validity = floor(4/3)+1 = 2.
    let c4 = committee_of(&[(1, 1), (2, 1), (3, 1), (4, 1)]);
    assert_eq!(c4.total_votes(), 4);
    assert_eq!(c4.quorum_threshold(), 3);
    assert_eq!(c4.validity_threshold(), 2);
    // Byzantine bound at W = 4: quorum + validity - 1 == 4 <= W and
    // W < quorum + 2 * validity - 1 == 6.
    assert!(c4.quorum_threshold() + c4.validity_threshold() - 1 <= 4);
    assert!(4 < c4.quorum_threshold() + 2 * c4.validity_threshold() - 1);

    // W = 7: quorum = floor(14/3)+1 = 5, validity = floor(7/3)+1 = 3.
    let c7 = committee_of(&[(1, 3), (2, 2), (3, 1), (4, 1)]);
    assert_eq!(c7.total_votes(), 7);
    assert_eq!(c7.quorum_threshold(), 5);
    assert_eq!(c7.validity_threshold(), 3);
}

#[test]
fn committee_rejects_bad_weight_tables() {
    let empty: VecMap<u64> = VecMap::new();
    assert!(matches!(
        Committee::new(0, empty),
        Err(SuiError::InvalidCommittee)
    ));
    let mut zero = VecMap::new();
    zero.insert(1, 0);
    assert!(matches!(
        Committee::new(0, zero),
        Err(SuiError::InvalidCommittee)
    ));
}

#[test]
fn signature_aggregator_rejects_bad_signers() {
    let committee = committee_of(&[(1, 1), (2, 1), (3, 1), (4, 1)]);
    let sender = 900u64;
    let tx = init_transfer_transaction(sender, sender, 901, (1, 0, 0), (2, 0, 0));
    let digest = tx.digest();
    let mut agg = SignatureAggregator::try_new(tx, &committee).unwrap();

    // A signature over the wrong digest is rejected.
    let bad = Signature {
        signer: 1,
        signed_digest: digest.wrapping_add(1),
    };
    assert!(matches!(agg.append(1, bad), Err(SuiError::InvalidSignature)));

    // A signer outside the committee is rejected.
    let foreign = Signature {
        signer: 77,
        signed_digest: digest,
    };
    assert!(matches!(agg.append(77, foreign), Err(SuiError::UnknownSigner)));

    // The same authority cannot sign twice.
    let s1 = Signature {
        signer: 1,
        signed_digest: digest,
    };
    assert!(matches!(agg.append(1, s1), Ok(None)));
    assert!(matches!(agg.append(1, s1), Err(SuiError::DuplicateSigner)));

    // The third distinct signature reaches the quorum of three.
    let s2 = Signature {
        signer: 2,
        signed_digest: digest,
    };
    let s3 = Signature {
        signer: 3,
        signed_digest: digest,
    };
    assert!(matches!(agg.append(2, s2), Ok(None)));
    let cert = agg.append(3, s3).unwrap().unwrap();
    assert_eq!(cert.signatures.len(), 3);
}

fn coin(id: u64, owner: u64, balance: u64) -> Object {
    Object::with_id_owner_gas_for_testing(id, 0, owner, balance)
}

#[test]
fn rollback_keeps_the_store_except_gas() {
    // Three operations; the second fails because its object is not
    // address-owned. All writes roll back; the inputs are re-marked
    // mutated unchanged by content; only the gas balance moves.
    let sender = 800u64;
    let o1 = coin(61, sender, 5);
    let o2 = Object {
        id: 62,
        version: 0,
        owner: Owner::Shared,
        data: Data::Coin { balance: 5 },
    };
    let o3 = coin(63, sender, 5);
    let gas = coin(64, sender, GAS_VALUE_FOR_TESTING);
    let r1 = o1.compute_object_reference();
    let r2 = o2.compute_object_reference();
    let r3 = o3.compute_object_reference();
    let gr = gas.compute_object_reference();

    let kinds = vec![
        SingleTransactionKind::Transfer(Transfer {
            recipient: 801,
            object_ref: r1,
        }),
        SingleTransactionKind::Transfer(Transfer {
            recipient: 801,
            object_ref: r2,
        }),
        SingleTransactionKind::Transfer(Transfer {
            recipient: 801,
            object_ref: r3,
        }),
    ];
    let data = TransactionData {
        kinds,
        sender,
        gas_payment: gr,
        gas_budget: MAX_GAS,
    };
    let tx = to_transaction(data, sender);
    let digest = tx.digest();

    let inputs = vec![o1, o2, o3, gas];
    let mut ts = AuthorityTemporaryStore::seed(inputs);
    let effects = execute_transaction_to_effects(
        &mut ts,
        &tx,
        digest,
        vec![],
        &BasicsExecutor {},
    )
    .unwrap();

    // The first transfer succeeded and was rolled back; the second
    // failed; the third never ran.
    let error = match effects.status {
        ExecutionStatus::Failure { error, .. } => error,
        _ => panic!("expected a failure"),
    };
    assert_eq!(error, ExecutionFailureKind::TransferUnowned);

    // Nothing was deleted; every written object carries its input state
    // except the gas balance.
    assert_eq!(effects.deleted.len(), 0);
    assert_eq!(effects.created.len(), 0);
    let w1 = ts.written.get(61).unwrap();
    assert_eq!(w1.owner, Owner::AddressOwner(sender));
    assert!(matches!(w1.data, Data::Coin { balance: 5 }));
    let w3 = ts.written.get(63).unwrap();
    assert_eq!(w3.owner, Owner::AddressOwner(sender));

    // Gas: two transfers were attempted before the failure stopped the
    // run, so the computation charge is exactly two transfer fees, and
    // the rolled-back overlay's storage charge cancels with its rebate.
    let cost = match effects.status {
        ExecutionStatus::Failure { gas_cost, .. } => gas_cost,
        _ => unreachable!(),
    };
    assert_eq!(cost.computation_cost, 2 * TRANSFER_GAS_COST);
    assert_eq!(cost.storage_cost, cost.storage_rebate);
    let wg = ts.written.get(64).unwrap();
    match wg.data {
        Data::Coin { balance } => {
            assert_eq!(balance, GAS_VALUE_FOR_TESTING - 2 * TRANSFER_GAS_COST)
        }
        _ => panic!("gas must stay a coin"),
    }

    // Conservative mutation marking: all three address-owned inputs
    // appear mutated, each one version past its input. The shared
    // object is no owned input and stays untouched.
    assert_eq!(effects.mutated.len(), 3);
    for (r, _) in &effects.mutated {
        let old_version = match r.0 {
            61 => r1.1,
            63 => r3.1,
            64 => gr.1,
            _ => panic!("unexpected id"),
        };
        assert_eq!(r.1, old_version + 1);
    }
    let _ = r2;
}

#[test]
fn successful_transfer_charges_exact_gas() {
    let sender = 810u64;
    let o1 = coin(71, sender, 5);
    let gas = coin(72, sender, GAS_VALUE_FOR_TESTING);
    let r1 = o1.compute_object_reference();
    let gr = gas.compute_object_reference();
    let data = TransactionData {
        kinds: vec![SingleTransactionKind::Transfer(Transfer {
            recipient: 811,
            object_ref: r1,
        })],
        sender,
        gas_payment: gr,
        gas_budget: MAX_GAS,
    };
    let tx = to_transaction(data, sender);
    let digest = tx.digest();
    let mut ts = AuthorityTemporaryStore::seed(vec![o1, gas]);
    let effects =
        execute_transaction_to_effects(&mut ts, &tx, digest, vec![], &BasicsExecutor {}).unwrap();
    let cost = match effects.status {
        ExecutionStatus::Success { gas_cost } => gas_cost,
        _ => panic!("expected success"),
    };
    // One transfer, two coins written (8 bytes each), both refunded.
    assert_eq!(cost.computation_cost, TRANSFER_GAS_COST);
    assert_eq!(cost.storage_cost, 16);
    assert_eq!(cost.storage_rebate, 16);
    // The recipient owns the object in the effects.
    assert_eq!(effects.mutated.len(), 2);
    let transferred = effects.mutated.iter().find(|(r, _)| r.0 == 71).unwrap();
    assert_eq!(transferred.1, Owner::AddressOwner(811));
}

#[test]
fn transfer_rejects_unowned_objects() {
    let gas = coin(73, 820, GAS_VALUE_FOR_TESTING);
    let mut ts = AuthorityTemporaryStore::seed(vec![gas]);
    let package = Object::package_for_testing(74, 1, vec![9]);
    let r = transfer(&mut ts, package, 821);
    assert_eq!(r.unwrap_err(), ExecutionFailureKind::TransferUnowned);
}

#[test]
fn gas_arithmetic_saturates_and_balances() {
    assert_eq!(sat_add_exec(u64::MAX, 5), u64::MAX);
    assert_eq!(sat_add_exec(2, 5), 7);
    assert_eq!(deduct_balance_exec(100, 30, 10), 80);
    assert_eq!(deduct_balance_exec(10, 30, 5), 0);
    assert_eq!(deduct_balance_exec(u64::MAX, 0, 10), u64::MAX);
}

#[test]
fn le_bytes_round_trip() {
    for v in [0u64, 1, 0xFF, 0x1234_5678_9ABC_DEF0, u64::MAX] {
        let bytes = u64_to_le_bytes(v);
        assert_eq!(u64_from_le_bytes(&bytes), Some(v));
        assert_eq!(bytes, v.to_le_bytes().to_vec());
        assert_eq!(bcs::to_bytes(&v).unwrap(), bytes);
    }
    assert_eq!(u64_from_le_bytes(&vec![1, 2, 3]), None);
}

#[test]
fn fresh_ids_differ_per_creation() {
    let mut ctx = TxContext::new(1, 42);
    let a = ctx.fresh_id();
    let b = ctx.fresh_id();
    assert_ne!(a, b);
}

#[test]
fn transaction_digest_depends_on_content() {
    let sender = 830u64;
    let t1 = init_transfer_transaction(sender, sender, 831, (1, 0, 9), (2, 0, 9));
    let t2 = init_transfer_transaction(sender, sender, 832, (1, 0, 9), (2, 0, 9));
    assert_ne!(t1.digest(), t2.digest());
    let t3 = init_transfer_transaction(sender, sender, 831, (1, 0, 9), (2, 0, 9));
    assert_eq!(t1.digest(), t3.digest());
}

#[test]
fn bad_signature_is_detected() {
    let sender = 840u64;
    let data = TransactionData {
        kinds: vec![],
        sender,
        gas_payment: (1, 0, 0),
        gas_budget: 10,
    };
    let good = to_transaction(data, sender);
    assert!(good.signature_ok());
    let forged = Transaction {
        data: good.data.clone_data(),
        tx_signature: Signature {
            signer: 841,
            signed_digest: good.digest(),
        },
    };
    assert!(!forged.signature_ok());
}
