use sui_core::authority::AuthorityState;
use sui_core::base::{SuiError, OBJECT_DIGEST_DELETED};
use sui_core::executor::{FN_DELETE, FN_UPDATE};
use sui_core::limits::max_files_authority_tests;
use sui_core::messages::{
    compare_certified_transactions, compare_transaction_info_responses, ConfirmationTransaction,
    ExecutionStatus, ModuleDef, MoveModulePublish, SingleTransactionKind, Transaction,
    TransactionData,
};
use sui_core::objects::{Object, Owner};
use sui_core::test_utils::{
    call_framework_code, clone_genesis_packages, create_move_object,
    get_genesis_package_by_module, init_certified_transfer_transaction, init_state,
    init_state_with_ids, init_state_with_object_id, init_state_with_objects,
    init_transfer_transaction, send_and_confirm_transaction, to_transaction, u64_to_le_bytes,
    MAX_GAS,
};

const AUTH: u64 = 1;

fn dbg_addr(v: u64) -> u64 {
    1000 + v
}

#[test]
fn test_max_files_authority_tests() {
    assert!(max_files_authority_tests() >= 0);
}

#[test]
fn test_handle_transfer_transaction_bad_signature() {
    let sender = dbg_addr(1);
    let sender_key = sender;
    let recipient = dbg_addr(2);
    let object_id: u64 = 10;
    let gas_object_id: u64 = 11;
    let mut authority_state =
        init_state_with_ids(AUTH, vec![(sender, object_id), (sender, gas_object_id)]);
    let object = authority_state.get_object(object_id).unwrap().unwrap();
    let gas_object = authority_state.get_object(gas_object_id).unwrap().unwrap();
    let transfer_transaction = init_transfer_transaction(
        sender,
        sender_key,
        recipient,
        object.compute_object_reference(),
        gas_object.compute_object_reference(),
    );
    let unknown_key = dbg_addr(99);
    let bad_signature_transfer_transaction =
        to_transaction(transfer_transaction.data.clone_data(), unknown_key);
    assert!(authority_state
        .handle_transaction(&bad_signature_transfer_transaction)
        .is_err());

    let object = authority_state.get_object(object_id).unwrap().unwrap();
    assert!(authority_state
        .get_transaction_lock(&object.compute_object_reference())
        .unwrap()
        .is_none());

    assert!(authority_state
        .get_transaction_lock(&object.compute_object_reference())
        .unwrap()
        .is_none());
}

#[test]
fn test_handle_transfer_transaction_unknown_sender() {
    let sender = dbg_addr(1);
    let unknown_address = dbg_addr(40);
    let object_id: u64 = 12;
    let gas_object_id: u64 = 13;
    let recipient = dbg_addr(2);
    let mut authority_state =
        init_state_with_ids(AUTH, vec![(sender, object_id), (sender, gas_object_id)]);
    let object = authority_state.get_object(object_id).unwrap().unwrap();
    let gas_object = authority_state.get_object(gas_object_id).unwrap().unwrap();

    let unknown_sender_transfer_transaction = init_transfer_transaction(
        unknown_address,
        unknown_address,
        recipient,
        object.compute_object_reference(),
        gas_object.compute_object_reference(),
    );

    assert!(authority_state
        .handle_transaction(&unknown_sender_transfer_transaction)
        .is_err());

    let object = authority_state.get_object(object_id).unwrap().unwrap();
    assert!(authority_state
        .get_transaction_lock(&object.compute_object_reference())
        .unwrap()
        .is_none());

    assert!(authority_state
        .get_transaction_lock(&object.compute_object_reference())
        .unwrap()
        .is_none());
}

#[test]
fn test_handle_transfer_transaction_ok() {
    let sender = dbg_addr(1);
    let recipient = dbg_addr(2);
    let object_id: u64 = 14;
    let gas_object_id: u64 = 15;
    let mut authority_state =
        init_state_with_ids(AUTH, vec![(sender, object_id), (sender, gas_object_id)]);
    let object = authority_state.get_object(object_id).unwrap().unwrap();
    let gas_object = authority_state.get_object(gas_object_id).unwrap().unwrap();
    let transfer_transaction = init_transfer_transaction(
        sender,
        sender,
        recipient,
        object.compute_object_reference(),
        gas_object.compute_object_reference(),
    );

    let test_object = authority_state.get_object(object_id).unwrap().unwrap();

    // Check the initial state of the locks.
    assert!(authority_state
        .get_transaction_lock(&(object_id, 0, test_object.digest()))
        .unwrap()
        .is_none());
    assert!(authority_state
        .get_transaction_lock(&(object_id, 1, test_object.digest()))
        .is_err());

    let account_info = authority_state
        .handle_transaction(&transfer_transaction)
        .unwrap();

    let object = authority_state.get_object(object_id).unwrap().unwrap();
    let pending_confirmation = authority_state
        .get_transaction_lock(&object.compute_object_reference())
        .unwrap()
        .unwrap();
    let vote = account_info.signed_transaction.unwrap();
    assert_eq!(vote.transaction.digest(), pending_confirmation.transaction.digest());
    assert_eq!(vote.auth_signature, pending_confirmation.auth_signature);

    // Check the final state of the locks.
    let held = authority_state
        .get_transaction_lock(&(object_id, 0, object.digest()))
        .unwrap();
    assert!(held.is_some());
    assert_eq!(
        held.unwrap().transaction.digest(),
        transfer_transaction.digest()
    );
}

#[test]
fn test_transfer_package() {
    let sender = dbg_addr(1);
    let recipient = dbg_addr(2);
    let object_id: u64 = 16;
    let mut authority_state = init_state_with_ids(AUTH, vec![(sender, object_id)]);
    let gas_object = authority_state.get_object(object_id).unwrap().unwrap();
    let genesis_package_objects = clone_genesis_packages();
    let package_object_ref = get_genesis_package_by_module(&genesis_package_objects, 100).unwrap();
    // Trying to transfer the genesis package object, which is immutable.
    let transfer_transaction = init_transfer_transaction(
        sender,
        sender,
        recipient,
        package_object_ref,
        gas_object.compute_object_reference(),
    );
    let result = authority_state.handle_transaction(&transfer_transaction);
    match result {
        Err(e) => assert_eq!(e, SuiError::TransferUnownedError),
        Ok(_) => panic!("transferring a package must fail"),
    }
}

#[test]
fn test_immutable_gas() {
    let sender = dbg_addr(1);
    let recipient = dbg_addr(2);
    let mut_object_id: u64 = 17;
    let mut authority_state = init_state_with_ids(AUTH, vec![(sender, mut_object_id)]);
    let imm_object_id: u64 = 18;
    let imm_object = Object::immutable_with_id_for_testing(imm_object_id);
    authority_state.insert_genesis_object(imm_object.clone_object());
    let mut_object = authority_state.get_object(mut_object_id).unwrap().unwrap();
    let transfer_transaction = init_transfer_transaction(
        sender,
        sender,
        recipient,
        mut_object.compute_object_reference(),
        imm_object.compute_object_reference(),
    );
    let result = authority_state.handle_transaction(&transfer_transaction);
    match result {
        Err(e) => assert!(matches!(e, SuiError::InsufficientGas)),
        Ok(_) => panic!("immutable gas must be rejected"),
    }
}

#[test]
fn test_handle_transfer_transaction_double_spend() {
    let sender = dbg_addr(1);
    let recipient = dbg_addr(2);
    let object_id: u64 = 19;
    let gas_object_id: u64 = 20;
    let mut authority_state =
        init_state_with_ids(AUTH, vec![(sender, object_id), (sender, gas_object_id)]);
    let object = authority_state.get_object(object_id).unwrap().unwrap();
    let gas_object = authority_state.get_object(gas_object_id).unwrap().unwrap();
    let transfer_transaction = init_transfer_transaction(
        sender,
        sender,
        recipient,
        object.compute_object_reference(),
        gas_object.compute_object_reference(),
    );

    let signed_transaction = authority_state
        .handle_transaction(&transfer_transaction)
        .unwrap();
    // Calls to handlers are idempotent: the second call returns the same.
    let double_spend_signed_transaction = authority_state
        .handle_transaction(&transfer_transaction)
        .unwrap();
    assert!(compare_transaction_info_responses(
        &signed_transaction,
        &double_spend_signed_transaction
    ));
}

#[test]
fn test_conflicting_transaction_is_rejected() {
    let sender = dbg_addr(1);
    let object_id: u64 = 60;
    let gas_object_id: u64 = 61;
    let mut authority_state =
        init_state_with_ids(AUTH, vec![(sender, object_id), (sender, gas_object_id)]);
    let object = authority_state.get_object(object_id).unwrap().unwrap();
    let gas_object = authority_state.get_object(gas_object_id).unwrap().unwrap();
    let tx_a = init_transfer_transaction(
        sender,
        sender,
        dbg_addr(2),
        object.compute_object_reference(),
        gas_object.compute_object_reference(),
    );
    let tx_b = init_transfer_transaction(
        sender,
        sender,
        dbg_addr(3),
        object.compute_object_reference(),
        gas_object.compute_object_reference(),
    );
    authority_state.handle_transaction(&tx_a).unwrap();
    // The same inputs are already locked to the first transaction.
    match authority_state.handle_transaction(&tx_b) {
        Err(e) => assert_eq!(e, SuiError::ConflictingTransaction),
        Ok(_) => panic!("a second transaction over locked inputs must fail"),
    }
}

#[test]
fn test_handle_confirmation_transaction_unknown_sender() {
    let recipient = dbg_addr(2);
    let sender = dbg_addr(1);
    let mut authority_state = init_state(AUTH);

    let object = Object::with_id_owner_for_testing(21, dbg_addr(50));
    let gas_object = Object::with_id_owner_for_testing(22, dbg_addr(50));

    let certified_transfer_transaction = init_certified_transfer_transaction(
        sender,
        sender,
        recipient,
        object.compute_object_reference(),
        gas_object.compute_object_reference(),
        &authority_state,
    )
    .unwrap();

    assert!(authority_state
        .handle_confirmation_transaction(&ConfirmationTransaction::new(
            certified_transfer_transaction
        ))
        .is_err());
}

#[test]
fn test_handle_confirmation_transaction_receiver_equal_sender() {
    let address = dbg_addr(1);
    let object_id: u64 = 23;
    let gas_object_id: u64 = 24;
    let mut authority_state =
        init_state_with_ids(AUTH, vec![(address, object_id), (address, gas_object_id)]);
    let object = authority_state.get_object(object_id).unwrap().unwrap();
    let gas_object = authority_state.get_object(gas_object_id).unwrap().unwrap();

    let certified_transfer_transaction = init_certified_transfer_transaction(
        address,
        address,
        address,
        object.compute_object_reference(),
        gas_object.compute_object_reference(),
        &authority_state,
    )
    .unwrap();
    let response = authority_state
        .handle_confirmation_transaction(&ConfirmationTransaction::new(
            certified_transfer_transaction,
        ))
        .unwrap();
    assert!(matches!(
        response.signed_effects.unwrap().effects.status,
        ExecutionStatus::Success { .. }
    ));
    let account = authority_state.get_object(object_id).unwrap().unwrap();
    assert_eq!(1, account.version());

    assert!(authority_state
        .parent(&account.compute_object_reference())
        .is_some());
}

#[test]
fn test_handle_confirmation_transaction_ok() {
    let sender = dbg_addr(1);
    let recipient = dbg_addr(2);
    let object_id: u64 = 25;
    let gas_object_id: u64 = 26;
    let mut authority_state =
        init_state_with_ids(AUTH, vec![(sender, object_id), (sender, gas_object_id)]);
    let object = authority_state.get_object(object_id).unwrap().unwrap();
    let gas_object = authority_state.get_object(gas_object_id).unwrap().unwrap();

    let certified_transfer_transaction = init_certified_transfer_transaction(
        sender,
        sender,
        recipient,
        object.compute_object_reference(),
        gas_object.compute_object_reference(),
        &authority_state,
    )
    .unwrap();

    let old_account = authority_state.get_object(object_id).unwrap().unwrap();
    let next_sequence_number = old_account.version() + 1;

    let info = authority_state
        .handle_confirmation_transaction(&ConfirmationTransaction::new(
            certified_transfer_transaction.clone_certified(),
        ))
        .unwrap();
    assert!(matches!(
        info.signed_effects.as_ref().unwrap().effects.status,
        ExecutionStatus::Success { .. }
    ));
    // Key check: the ownership has changed.
    let new_account = authority_state.get_object(object_id).unwrap().unwrap();
    assert_eq!(new_account.owner, Owner::AddressOwner(recipient));
    assert_eq!(next_sequence_number, new_account.version());
    assert!(info.signed_transaction.is_none());
    let refx = authority_state
        .parent(&new_account.compute_object_reference())
        .unwrap();
    let certified_transaction = authority_state.read_certificate(refx).unwrap();
    // Valid since the authority's certificate set must not change.
    assert!(compare_certified_transactions(
        &certified_transaction,
        &certified_transfer_transaction
    ));

    // Check that locks are set and archived correctly.
    assert!(authority_state
        .get_transaction_lock(&(object_id, 0, old_account.digest()))
        .is_err());
    assert!(authority_state
        .get_transaction_lock(&(object_id, 1, new_account.digest()))
        .expect("Exists")
        .is_none());

    // Check that all the parents are returned.
    assert_eq!(authority_state.get_parent_iterator(object_id).len(), 1);
}

#[test]
fn test_handle_confirmation_transaction_idempotent() {
    let sender = dbg_addr(1);
    let recipient = dbg_addr(2);
    let object_id: u64 = 27;
    let gas_object_id: u64 = 28;
    let mut authority_state =
        init_state_with_ids(AUTH, vec![(sender, object_id), (sender, gas_object_id)]);
    let object = authority_state.get_object(object_id).unwrap().unwrap();
    let gas_object = authority_state.get_object(gas_object_id).unwrap().unwrap();

    let certified_transfer_transaction = init_certified_transfer_transaction(
        sender,
        sender,
        recipient,
        object.compute_object_reference(),
        gas_object.compute_object_reference(),
        &authority_state,
    )
    .unwrap();

    let info = authority_state
        .handle_confirmation_transaction(&ConfirmationTransaction::new(
            certified_transfer_transaction.clone_certified(),
        ))
        .unwrap();
    assert!(matches!(
        info.signed_effects.as_ref().unwrap().effects.status,
        ExecutionStatus::Success { .. }
    ));

    let info2 = authority_state
        .handle_confirmation_transaction(&ConfirmationTransaction::new(
            certified_transfer_transaction.clone_certified(),
        ))
        .unwrap();
    assert!(matches!(
        info2.signed_effects.as_ref().unwrap().effects.status,
        ExecutionStatus::Success { .. }
    ));

    // Valid because the authority state must not change the certificate.
    assert!(compare_transaction_info_responses(&info, &info2));

    // The transaction info request returns the same as well.
    let info3 = authority_state
        .handle_transaction_info_request(certified_transfer_transaction.digest())
        .unwrap();
    assert!(compare_transaction_info_responses(&info, &info3));
}

#[test]
fn test_handle_move_transaction() {
    let sender = dbg_addr(1);
    let gas_payment_object_id: u64 = 29;
    let mut authority_state = init_state_with_ids(AUTH, vec![(sender, gas_payment_object_id)]);

    let effects =
        create_move_object(&mut authority_state, gas_payment_object_id, sender, sender).unwrap();

    assert!(matches!(effects.status, ExecutionStatus::Success { .. }));
    assert_eq!(effects.created.len(), 1);
    assert_eq!(effects.mutated.len(), 1);

    let created_object_id = effects.created[0].0 .0;
    // The transaction must create an object with the expected owner and
    // start version.
    let created_obj = authority_state
        .get_object(created_object_id)
        .unwrap()
        .unwrap();
    assert_eq!(created_obj.owner, Owner::AddressOwner(sender));
    assert_eq!(created_obj.id(), created_object_id);
    assert_eq!(created_obj.version(), 1);
}

#[test]
fn test_move_call_mutable_object_not_mutated() {
    let sender = dbg_addr(1);
    let gas_object_id: u64 = 30;
    let mut authority_state = init_state_with_ids(AUTH, vec![(sender, gas_object_id)]);

    let effects =
        create_move_object(&mut authority_state, gas_object_id, sender, sender).unwrap();
    assert!(matches!(effects.status, ExecutionStatus::Success { .. }));
    assert_eq!((effects.created.len(), effects.mutated.len()), (1, 1));
    let (new_object_id1, seq1, _) = effects.created[0].0;

    let effects =
        create_move_object(&mut authority_state, gas_object_id, sender, sender).unwrap();
    assert!(matches!(effects.status, ExecutionStatus::Success { .. }));
    assert_eq!((effects.created.len(), effects.mutated.len()), (1, 1));
    let (new_object_id2, seq2, _) = effects.created[0].0;

    let effects = call_framework_code(
        &mut authority_state,
        gas_object_id,
        sender,
        sender,
        FN_UPDATE,
        vec![new_object_id1, new_object_id2],
        vec![],
    )
    .unwrap();
    assert!(matches!(effects.status, ExecutionStatus::Success { .. }));
    assert_eq!((effects.created.len(), effects.mutated.len()), (0, 3));
    // Both objects' versions move, though neither was touched by content.
    assert_eq!(
        authority_state
            .get_object(new_object_id1)
            .unwrap()
            .unwrap()
            .version(),
        seq1 + 1
    );
    assert_eq!(
        authority_state
            .get_object(new_object_id2)
            .unwrap()
            .unwrap()
            .version(),
        seq2 + 1
    );
}

#[test]
fn test_move_call_delete() {
    let sender = dbg_addr(1);
    let gas_object_id: u64 = 31;
    let mut authority_state = init_state_with_ids(AUTH, vec![(sender, gas_object_id)]);

    let effects =
        create_move_object(&mut authority_state, gas_object_id, sender, sender).unwrap();
    assert!(matches!(effects.status, ExecutionStatus::Success { .. }));
    assert_eq!((effects.created.len(), effects.mutated.len()), (1, 1));
    let (new_object_id1, _seq1, _) = effects.created[0].0;

    let effects =
        create_move_object(&mut authority_state, gas_object_id, sender, sender).unwrap();
    assert!(matches!(effects.status, ExecutionStatus::Success { .. }));
    assert_eq!((effects.created.len(), effects.mutated.len()), (1, 1));
    let (new_object_id2, _seq2, _) = effects.created[0].0;

    let effects = call_framework_code(
        &mut authority_state,
        gas_object_id,
        sender,
        sender,
        FN_UPDATE,
        vec![new_object_id1, new_object_id2],
        vec![],
    )
    .unwrap();
    assert!(matches!(effects.status, ExecutionStatus::Success { .. }));
    // All mutable inputs appear mutated even when untouched:
    // both objects and the gas object.
    assert_eq!((effects.created.len(), effects.mutated.len()), (0, 3));

    let effects = call_framework_code(
        &mut authority_state,
        gas_object_id,
        sender,
        sender,
        FN_DELETE,
        vec![new_object_id1],
        vec![],
    )
    .unwrap();
    assert!(matches!(effects.status, ExecutionStatus::Success { .. }));
    assert_eq!((effects.deleted.len(), effects.mutated.len()), (1, 1));
}

#[test]
fn test_get_latest_parent_entry() {
    let sender = dbg_addr(1);
    let gas_object_id: u64 = 32;
    let mut authority_state = init_state_with_ids(AUTH, vec![(sender, gas_object_id)]);

    let effects =
        create_move_object(&mut authority_state, gas_object_id, sender, sender).unwrap();
    let (new_object_id1, _seq1, _) = effects.created[0].0;

    let effects =
        create_move_object(&mut authority_state, gas_object_id, sender, sender).unwrap();
    let (new_object_id2, _seq2, _) = effects.created[0].0;

    let effects = call_framework_code(
        &mut authority_state,
        gas_object_id,
        sender,
        sender,
        FN_UPDATE,
        vec![new_object_id1, new_object_id2],
        vec![],
    )
    .unwrap();

    // The entry of the object to be deleted is returned.
    let (obj_ref, tx) = authority_state
        .get_latest_parent_entry(new_object_id1)
        .unwrap()
        .unwrap();
    assert_eq!(obj_ref.0, new_object_id1);
    assert_eq!(obj_ref.1, 2);
    assert_eq!(effects.transaction_digest, tx);

    let effects = call_framework_code(
        &mut authority_state,
        gas_object_id,
        sender,
        sender,
        FN_DELETE,
        vec![new_object_id1],
        vec![],
    )
    .unwrap();

    // The very first object id returns no entry.
    assert!(authority_state
        .get_latest_parent_entry(0)
        .unwrap()
        .is_none());

    // An unknown object id returns no entry either.
    assert!(authority_state
        .get_latest_parent_entry(987654)
        .unwrap()
        .is_none());

    // The gas object's latest entry carries its current version.
    let (obj_ref, tx) = authority_state
        .get_latest_parent_entry(gas_object_id)
        .unwrap()
        .unwrap();
    assert_eq!(obj_ref.0, gas_object_id);
    assert_eq!(obj_ref.1, 4);
    assert_eq!(effects.transaction_digest, tx);

    // The entry of the deleted object is returned with the sentinel.
    let (obj_ref, tx) = authority_state
        .get_latest_parent_entry(new_object_id1)
        .unwrap()
        .unwrap();
    assert_eq!(obj_ref.0, new_object_id1);
    assert_eq!(obj_ref.1, 3);
    assert_eq!(obj_ref.2, OBJECT_DIGEST_DELETED);
    assert_eq!(effects.transaction_digest, tx);
}

#[test]
fn test_account_state_ok() {
    let sender = dbg_addr(1);
    let object_id: u64 = 33;

    let authority_state = init_state_with_object_id(AUTH, sender, object_id);
    authority_state.get_object(object_id).unwrap().unwrap();
}

#[test]
fn test_account_state_unknown_account() {
    let sender = dbg_addr(1);
    let unknown_address: u64 = 99;
    let authority_state = init_state_with_object_id(AUTH, sender, 34);
    assert!(authority_state
        .get_object(unknown_address)
        .unwrap()
        .is_none());
}

#[test]
fn test_publish_module_no_dependencies_ok() {
    let sender = dbg_addr(1);
    let gas_payment_object_id: u64 = 35;
    let gas_balance = MAX_GAS;
    let gas_payment_object =
        Object::with_id_owner_gas_for_testing(gas_payment_object_id, 0, sender, gas_balance);
    let gas_payment_object_ref = gas_payment_object.compute_object_reference();
    let mut authority = init_state_with_objects(AUTH, vec![gas_payment_object]);

    let module = ModuleDef {
        name: 777,
        dependencies: vec![],
    };
    let data = TransactionData {
        kinds: vec![SingleTransactionKind::Publish(MoveModulePublish {
            modules: vec![module],
        })],
        sender,
        gas_payment: gas_payment_object_ref,
        gas_budget: MAX_GAS,
    };
    let transaction = to_transaction(data, sender);
    let response = send_and_confirm_transaction(&mut authority, transaction).unwrap();
    let effects = response.signed_effects.unwrap().effects;
    assert!(matches!(effects.status, ExecutionStatus::Success { .. }));
    assert!(response.certified_transaction.is_some());
    assert_eq!(effects.created.len(), 1);
}

#[test]
fn test_publish_non_existing_dependent_module() {
    let sender = dbg_addr(1);
    let gas_payment_object_id: u64 = 36;
    let gas_payment_object = Object::with_id_owner_for_testing(gas_payment_object_id, sender);
    let gas_payment_object_ref = gas_payment_object.compute_object_reference();
    let mut authority = init_state_with_objects(AUTH, vec![gas_payment_object]);

    // The declared dependency names no module of any stored package.
    let module = ModuleDef {
        name: 778,
        dependencies: vec![424242],
    };
    let data = TransactionData {
        kinds: vec![SingleTransactionKind::Publish(MoveModulePublish {
            modules: vec![module],
        })],
        sender,
        gas_payment: gas_payment_object_ref,
        gas_budget: MAX_GAS,
    };
    let transaction = to_transaction(data, sender);
    let response = authority.handle_transaction(&transaction);
    match response {
        Err(e) => assert_eq!(e, SuiError::DependentPackageNotFound),
        Ok(_) => panic!("unknown dependency must be rejected"),
    }
    // Gas was not charged.
    assert_eq!(
        authority
            .get_object(gas_payment_object_id)
            .unwrap()
            .unwrap()
            .version(),
        gas_payment_object_ref.1
    );
}

#[test]
fn test_publish_dependent_module_ok() {
    let sender = dbg_addr(1);
    let gas_payment_object_id: u64 = 37;
    let gas_payment_object = Object::with_id_owner_for_testing(gas_payment_object_id, sender);
    let mut authority = init_state_with_objects(AUTH, vec![gas_payment_object]);

    // The dependency names a module of the genesis package.
    let module = ModuleDef {
        name: 779,
        dependencies: vec![100],
    };
    let data = TransactionData {
        kinds: vec![SingleTransactionKind::Publish(MoveModulePublish {
            modules: vec![module],
        })],
        sender,
        gas_payment: authority
            .get_object(gas_payment_object_id)
            .unwrap()
            .unwrap()
            .compute_object_reference(),
        gas_budget: MAX_GAS,
    };
    let transaction = to_transaction(data, sender);
    let response = send_and_confirm_transaction(&mut authority, transaction).unwrap();
    let effects = response.signed_effects.unwrap().effects;
    assert!(matches!(effects.status, ExecutionStatus::Success { .. }));
    // The dependent module got published as a fresh package object.
    let created = effects.created[0].0 .0;
    assert!(authority.get_object(created).unwrap().is_some());
}
