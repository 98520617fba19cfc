use sui_core::authority_aggregator::{
    authority_genesis_objects, init_local_authorities, AuthorityAggregator,
};
use sui_core::base::SuiError;
use sui_core::broadcast::{
    quorum_map_then_reduce_with_timeout, CollectingReducer, Completion, CountingReducer,
    EarlyEndReducer, FailingReducer,
};
use sui_core::messages::{CertifiedTransaction, ConfirmationTransaction, SignatureAggregator};
use sui_core::objects::Object;
use sui_core::test_utils::{
    clone_genesis_packages, crate_object_move_transaction, delete_object_move_transaction,
    get_genesis_package_by_module, transfer_object_move_transaction,
};

fn completions(n: u64, at: u64) -> Vec<Completion<u64>> {
    (1..=n)
        .map(|a| Completion {
            at,
            authority: a,
            result: Ok(0),
        })
        .collect()
}

#[test]
fn test_map_reducer() {
    let authorities = init_local_authorities(authority_genesis_objects(4, vec![]));
    let committee = &authorities.committee;

    // Reducer errors get propagated up.
    let res = quorum_map_then_reduce_with_timeout(
        committee,
        &FailingReducer {},
        0u64,
        completions(4, 0),
        1000,
    );
    assert!(matches!(res, Err(SuiError::TooManyIncorrectAuthorities)));

    // Mapper errors do not get propagated up; the reducer counts them.
    let failures: Vec<Completion<u64>> = (1..=4u64)
        .map(|a| Completion {
            at: 0,
            authority: a,
            result: Err(SuiError::TooManyIncorrectAuthorities),
        })
        .collect();
    let res =
        quorum_map_then_reduce_with_timeout(committee, &CountingReducer {}, 0u64, failures, 1000);
    assert_eq!(Ok(4), res);

    // Early end.
    let res = quorum_map_then_reduce_with_timeout(
        committee,
        &EarlyEndReducer { limit: 2 },
        0u64,
        completions(4, 0),
        1000,
    );
    assert_eq!(Ok(3), res);

    // The global timeout yields the accumulator, not an error, when no
    // completion arrives in time.
    let res = quorum_map_then_reduce_with_timeout(
        committee,
        &FailingReducer {},
        0u64,
        completions(4, 600_000),
        10,
    );
    assert_eq!(Ok(0), res);

    // The per-call timeout cuts off a straggler: after three fast
    // completions the reducer shortens the wait, and the fourth arrives
    // too late to be folded.
    let bad_auth = 4u64;
    let mut late = completions(3, 1);
    late.push(Completion {
        at: 600_000,
        authority: bad_auth,
        result: Ok(0),
    });
    let res = quorum_map_then_reduce_with_timeout(
        committee,
        &CollectingReducer {
            shorten_after: 3,
            remaining_wait: 10,
        },
        (0u64, 0u64),
        late,
        10 * 60_000,
    );
    let (count, mask) = res.unwrap();
    assert_eq!(count, 3);
    assert!(mask & (1 << bad_auth) == 0);
}

fn client_count(authorities: &AuthorityAggregator) -> usize {
    authorities.authority_clients.len()
}

fn extract_cert(
    authorities: &AuthorityAggregator,
    digest: u64,
) -> CertifiedTransaction {
    let mut tx = None;
    let mut votes = vec![];
    for (name, client) in &authorities.authority_clients {
        if let Ok(resp) = client.state.handle_transaction_info_request(digest) {
            if let Some(signed) = resp.signed_transaction {
                votes.push((*name, signed.auth_signature.signature));
                tx = Some(signed.transaction);
            }
        }
    }
    let transaction = tx.unwrap();
    let mut builder =
        SignatureAggregator::try_new(transaction, &authorities.committee).unwrap();
    let mut cert = None;
    for (name, sig) in votes {
        if let Ok(Some(c)) = builder.append(name, sig) {
            cert = Some(c);
            break;
        }
    }
    cert.unwrap()
}

#[test]
fn test_get_all_owned_objects() {
    let addr1 = 9001u64;
    let addr2 = 9002u64;
    let gas_object1 = Object::with_id_owner_for_testing(41, addr1);
    let gas_ref_1 = gas_object1.compute_object_reference();
    let gas_object2 = Object::with_id_owner_for_testing(42, addr2);
    let genesis_objects = authority_genesis_objects(
        4,
        vec![gas_object1.clone_object(), gas_object2.clone_object()],
    );
    let mut authorities = init_local_authorities(genesis_objects);
    assert_eq!(client_count(&authorities), 4);

    let framework_obj_ref =
        get_genesis_package_by_module(&clone_genesis_packages(), 101).unwrap();
    let create1 =
        crate_object_move_transaction(addr1, addr1, addr1, 100, framework_obj_ref, gas_ref_1);

    // Submit to three authorities, but not the fourth.
    for i in 0..3 {
        authorities.authority_clients[i]
            .1
            .state
            .handle_transaction(&create1)
            .unwrap();
    }

    let cert1 = extract_cert(&authorities, create1.digest());

    // Before the certificate executes anywhere, only the gas object of
    // addr1 is known.
    let (owned_object, _) = authorities.get_all_owned_objects(addr1, 10_000).unwrap();
    assert_eq!(1, owned_object.len());
    assert!(owned_object.iter().any(|(r, _)| *r == gas_ref_1));

    // Execute the certificate at the first authority: it now reports the
    // created object and a fresh gas version, while the others still
    // report the stale gas version.
    let effects = authorities.authority_clients[0]
        .1
        .state
        .handle_confirmation_transaction(&ConfirmationTransaction::new(cert1.clone_certified()))
        .unwrap()
        .signed_effects
        .unwrap()
        .effects;
    let (owned_object, _) = authorities.get_all_owned_objects(addr1, 10_000).unwrap();
    assert_eq!(3, owned_object.len());
    assert!(owned_object.iter().any(|(r, _)| *r == effects.gas_object.0));
    assert!(owned_object.iter().any(|(r, _)| *r == effects.created[0].0));
    let created_ref = effects.created[0].0;

    // Execute at the remaining authorities.
    for i in 1..4 {
        authorities.authority_clients[i]
            .1
            .state
            .handle_confirmation_transaction(&ConfirmationTransaction::new(
                cert1.clone_certified(),
            ))
            .unwrap();
    }

    // Delete the created object through three authorities.
    let gas_ref_del = authorities.authority_clients[0]
        .1
        .state
        .get_object(41)
        .unwrap()
        .unwrap()
        .compute_object_reference();
    let delete1 =
        delete_object_move_transaction(addr1, addr1, created_ref, framework_obj_ref, gas_ref_del);
    for i in 0..3 {
        authorities.authority_clients[i]
            .1
            .state
            .handle_transaction(&delete1)
            .unwrap();
    }
    let cert2 = extract_cert(&authorities, delete1.digest());
    authorities.authority_clients[0]
        .1
        .state
        .handle_confirmation_transaction(&ConfirmationTransaction::new(cert2.clone_certified()))
        .unwrap();

    // Some authorities know of the deletion, some do not: the union
    // holds the new gas, the not-yet-deleted object, and the older gas.
    let (owned_object, _) = authorities.get_all_owned_objects(addr1, 10_000).unwrap();
    assert_eq!(3, owned_object.len());

    // After everyone executes the deletion, only the gas remains.
    for i in 1..4 {
        authorities.authority_clients[i]
            .1
            .state
            .handle_confirmation_transaction(&ConfirmationTransaction::new(
                cert2.clone_certified(),
            ))
            .unwrap();
    }
    let (owned_object, _) = authorities.get_all_owned_objects(addr1, 10_000).unwrap();
    assert_eq!(1, owned_object.len());
}

#[test]
fn test_sync_all_owned_objects() {
    let addr1 = 9003u64;
    let addr2 = 9004u64;
    let gas_object1 = Object::with_id_owner_for_testing(43, addr1);
    let gas_object2 = Object::with_id_owner_for_testing(44, addr1);
    let genesis_objects = authority_genesis_objects(
        4,
        vec![gas_object1.clone_object(), gas_object2.clone_object()],
    );
    let mut authorities = init_local_authorities(genesis_objects);
    let framework_obj_ref =
        get_genesis_package_by_module(&clone_genesis_packages(), 101).unwrap();

    let gas_ref_1 = gas_object1.compute_object_reference();
    let create1 =
        crate_object_move_transaction(addr1, addr1, addr1, 100, framework_obj_ref, gas_ref_1);
    let gas_ref_2 = gas_object2.compute_object_reference();
    let create2 =
        crate_object_move_transaction(addr1, addr1, addr1, 101, framework_obj_ref, gas_ref_2);

    // Submit the first to authorities 0..3 and the second to 1..4.
    for i in 0..3 {
        authorities.authority_clients[i]
            .1
            .state
            .handle_transaction(&create1)
            .unwrap();
    }
    for i in 1..4 {
        authorities.authority_clients[i]
            .1
            .state
            .handle_transaction(&create2)
            .unwrap();
    }

    let cert1 = extract_cert(&authorities, create1.digest());
    let cert2 = extract_cert(&authorities, create2.digest());

    // Execute each certificate at a single authority only.
    let new_ref_1 = authorities.authority_clients[0]
        .1
        .state
        .handle_confirmation_transaction(&ConfirmationTransaction::new(cert1.clone_certified()))
        .unwrap()
        .signed_effects
        .unwrap()
        .effects
        .created[0]
        .0;
    let new_ref_2 = authorities.authority_clients[3]
        .1
        .state
        .handle_confirmation_transaction(&ConfirmationTransaction::new(cert2.clone_certified()))
        .unwrap()
        .signed_effects
        .unwrap()
        .effects
        .created[0]
        .0;

    // Stale and fresh versions coexist: two versions of each gas object
    // plus the two created objects.
    let (owned_object, _) = authorities.get_all_owned_objects(addr1, 10_000).unwrap();
    assert_eq!(6, owned_object.len());

    // After the sync every authority agrees on one version per object.
    let (owned_object, _) = authorities.sync_all_owned_objects(addr1, 10_000).unwrap();
    assert_eq!(4, owned_object.len());

    // A second sync is a no-op: the same set comes back.
    let (owned_again, _) = authorities.sync_all_owned_objects(addr1, 10_000).unwrap();
    let mut a: Vec<_> = owned_object.iter().map(|(r, _)| *r).collect();
    let mut b: Vec<_> = owned_again.iter().map(|(r, _)| *r).collect();
    a.sort();
    b.sort();
    assert_eq!(a, b);

    // Delete one created object and transfer the other away.
    let gas_ref_del = authorities.authority_clients[0]
        .1
        .state
        .get_object(43)
        .unwrap()
        .unwrap()
        .compute_object_reference();
    let delete1 =
        delete_object_move_transaction(addr1, addr1, new_ref_1, framework_obj_ref, gas_ref_del);
    let gas_ref_trans = authorities.authority_clients[0]
        .1
        .state
        .get_object(44)
        .unwrap()
        .unwrap()
        .compute_object_reference();
    let transfer1 = transfer_object_move_transaction(
        addr1,
        addr1,
        addr2,
        new_ref_2,
        framework_obj_ref,
        gas_ref_trans,
    );
    for i in 0..3 {
        authorities.authority_clients[i]
            .1
            .state
            .handle_transaction(&delete1)
            .unwrap();
        authorities.authority_clients[i]
            .1
            .state
            .handle_transaction(&transfer1)
            .unwrap();
    }
    let cert1 = extract_cert(&authorities, delete1.digest());
    let cert2 = extract_cert(&authorities, transfer1.digest());
    authorities.authority_clients[0]
        .1
        .state
        .handle_confirmation_transaction(&ConfirmationTransaction::new(cert1.clone_certified()))
        .unwrap();
    authorities.authority_clients[2]
        .1
        .state
        .handle_confirmation_transaction(&ConfirmationTransaction::new(cert2.clone_certified()))
        .unwrap();

    // After the sync, addr1 keeps exactly its two gas objects: one
    // object was deleted and one was handed to addr2.
    let (owned_object, _) = authorities.sync_all_owned_objects(addr1, 10_000).unwrap();
    assert_eq!(2, owned_object.len());
}

#[test]
fn test_process_transaction() {
    let addr1 = 9005u64;
    let gas_object1 = Object::with_id_owner_for_testing(45, addr1);
    let gas_object2 = Object::with_id_owner_for_testing(46, addr1);
    let genesis_objects = authority_genesis_objects(
        4,
        vec![gas_object1.clone_object(), gas_object2.clone_object()],
    );
    let mut authorities = init_local_authorities(genesis_objects);
    let framework_obj_ref =
        get_genesis_package_by_module(&clone_genesis_packages(), 101).unwrap();

    let gas_ref_1 = gas_object1.compute_object_reference();
    let create1 =
        crate_object_move_transaction(addr1, addr1, addr1, 100, framework_obj_ref, gas_ref_1);

    let cert = authorities.process_transaction(&create1, 10_000).unwrap();
    // A quorum of three signatures of the four suffices.
    assert_eq!(3, cert.signatures.len());
}

#[test]
fn test_process_transaction_quorum_not_reached() {
    let addr1 = 9007u64;
    let genesis_objects = authority_genesis_objects(4, vec![]);
    let mut authorities = init_local_authorities(genesis_objects);
    let framework_obj_ref =
        get_genesis_package_by_module(&clone_genesis_packages(), 101).unwrap();
    // The gas object exists nowhere, so no authority votes.
    let orphan = crate_object_move_transaction(
        addr1,
        addr1,
        addr1,
        100,
        framework_obj_ref,
        (5555, 0, 0),
    );
    match authorities.process_transaction(&orphan, 10_000) {
        Err(e) => assert_eq!(e, SuiError::QuorumNotReached),
        Ok(_) => panic!("no authority can vote for this transaction"),
    }
}

#[test]
fn test_process_certificate() {
    let addr1 = 9006u64;
    let gas_object1 = Object::with_id_owner_for_testing(47, addr1);
    let gas_object2 = Object::with_id_owner_for_testing(48, addr1);
    let genesis_objects = authority_genesis_objects(
        4,
        vec![gas_object1.clone_object(), gas_object2.clone_object()],
    );
    let mut authorities = init_local_authorities(genesis_objects);
    let framework_obj_ref =
        get_genesis_package_by_module(&clone_genesis_packages(), 101).unwrap();

    let gas_ref_1 = gas_object1.compute_object_reference();
    let create1 =
        crate_object_move_transaction(addr1, addr1, addr1, 100, framework_obj_ref, gas_ref_1);
    let cert1 = authorities.process_transaction(&create1, 10_000).unwrap();

    // Execute at one authority only, then drive the rest through the
    // aggregator, which catches the laggards up.
    let new_ref_1 = authorities.authority_clients[0]
        .1
        .state
        .handle_confirmation_transaction(&ConfirmationTransaction::new(cert1.clone_certified()))
        .unwrap()
        .signed_effects
        .unwrap()
        .effects
        .created[0]
        .0;
    assert_eq!(1, authorities.get_latest_sequence_number(new_ref_1.0));

    let gas_ref_set = authorities.authority_clients[0]
        .1
        .state
        .get_object(47)
        .unwrap()
        .unwrap()
        .compute_object_reference();
    let create2 = sui_core::test_utils::set_object_move_transaction(
        addr1,
        addr1,
        new_ref_1,
        100,
        framework_obj_ref,
        gas_ref_set,
    );
    // Submit the follow-up transaction through the aggregator; catching
    // up happens inside process_certificate.
    let cert2 = {
        // Authority 0 signs; the others must first catch up on cert1,
        // which process_certificate arranges.
        authorities.authority_clients[0]
            .1
            .state
            .handle_transaction(&create2)
            .unwrap();
        authorities
            .process_certificate(cert1.clone_certified(), 10_000)
            .unwrap();
        authorities.process_transaction(&create2, 10_000).unwrap()
    };
    let effects = authorities.process_certificate(cert2, 10_000).unwrap();
    assert!(matches!(
        effects.status,
        sui_core::messages::ExecutionStatus::Success { .. }
    ));
    // The object moved to its next version everywhere.
    assert_eq!(2, authorities.get_latest_sequence_number(new_ref_1.0));
    let (owned_object, _) = authorities.get_all_owned_objects(addr1, 10_000).unwrap();
    // Two gas objects and the created object.
    assert_eq!(3, owned_object.len());
}
