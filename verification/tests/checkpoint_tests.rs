use sui_core::checkpoint::{CheckpointProposal, CheckpointStore};
use sui_core::waypoint::GlobalCheckpoint;

fn random_ckpoint_store() -> Vec<CheckpointStore> {
    (1u64..=4u64).map(CheckpointStore::open).collect()
}

#[test]
fn make_checkpoint_db() {
    let mut cps = random_ckpoint_store().pop().unwrap();

    let t1: u64 = 101;
    let t2: u64 = 102;
    let t3: u64 = 103;
    let t4: u64 = 104;
    let t5: u64 = 105;
    let t6: u64 = 106;

    cps.update_processed_transactions(&vec![(1, t1), (2, t2), (3, t3)])
        .unwrap();
    assert!(cps.checkpoint_contents.len() == 0);
    assert!(cps.extra_transactions.len() == 3);
    assert!(cps.unprocessed_transactions.len() == 0);

    assert!(cps.next_checkpoint_sequence() == 0);

    cps.update_new_checkpoint(0, &vec![t1, t2, t4, t5]).unwrap();
    assert!(cps.checkpoint_contents.get(0).unwrap().len() == 4);
    assert_eq!(cps.extra_transactions.len(), 1);
    assert!(cps.unprocessed_transactions.len() == 2);

    assert_eq!(cps.lowest_unprocessed_sequence(), 0);

    let (_cp_seq, tx_seq) = *cps.transactions_to_checkpoint.get(t4).unwrap();
    assert!(tx_seq >= u64::MAX / 2);

    assert!(cps.next_checkpoint_sequence() == 1);

    cps.update_processed_transactions(&vec![(4, t4), (5, t5), (6, t6)])
        .unwrap();
    assert!(cps.checkpoint_contents.get(0).unwrap().len() == 4);
    assert_eq!(cps.extra_transactions.len(), 2); // t3 & t6
    assert!(cps.unprocessed_transactions.len() == 0);

    assert_eq!(cps.lowest_unprocessed_sequence(), 1);

    let (_cp_seq, tx_seq) = *cps.transactions_to_checkpoint.get(t4).unwrap();
    assert_eq!(tx_seq, 4);
}

#[test]
fn make_proposals() {
    let mut test_objects = random_ckpoint_store();
    let mut cps4 = test_objects.pop().unwrap();
    let mut cps3 = test_objects.pop().unwrap();
    let mut cps2 = test_objects.pop().unwrap();
    let mut cps1 = test_objects.pop().unwrap();

    let t1: u64 = 201;
    let t2: u64 = 202;
    let t3: u64 = 203;
    let t4: u64 = 204;
    let t5: u64 = 205;

    cps1.update_processed_transactions(&vec![(1, t2), (2, t3)])
        .unwrap();

    cps2.update_processed_transactions(&vec![(1, t1), (2, t2)])
        .unwrap();

    cps3.update_processed_transactions(&vec![(1, t3), (2, t4)])
        .unwrap();

    cps4.update_processed_transactions(&vec![(1, t4), (2, t5)])
        .unwrap();

    let p1 = cps1.set_proposal().unwrap();
    let p2 = cps2.set_proposal().unwrap();
    let p3 = cps3.set_proposal().unwrap();

    let mut ckp_items: Vec<u64> = Vec::new();
    ckp_items.extend(p1.transactions().iter().cloned());
    ckp_items.extend(p2.transactions().iter().cloned());
    ckp_items.extend(p3.transactions().iter().cloned());
    ckp_items.sort();
    ckp_items.dedup();

    cps1.update_new_checkpoint(0, &ckp_items).unwrap();
    cps2.update_new_checkpoint(0, &ckp_items).unwrap();
    cps3.update_new_checkpoint(0, &ckp_items).unwrap();
    cps4.update_new_checkpoint(0, &ckp_items).unwrap();

    let mut unprocessed = cps4.unprocessed_transactions.keys();
    unprocessed.sort();
    assert_eq!(unprocessed, vec![t1, t2, t3]);

    let extra = cps4.extra_transactions.keys();
    assert_eq!(extra, vec![t5]);
}

#[test]
fn make_diffs() {
    let mut test_objects = random_ckpoint_store();
    let mut cps4 = test_objects.pop().unwrap();
    let mut cps3 = test_objects.pop().unwrap();
    let mut cps2 = test_objects.pop().unwrap();
    let mut cps1 = test_objects.pop().unwrap();

    let t1: u64 = 301;
    let t2: u64 = 302;
    let t3: u64 = 303;
    let t4: u64 = 304;
    let t5: u64 = 305;

    cps1.update_processed_transactions(&vec![(1, t2), (2, t3)])
        .unwrap();

    cps2.update_processed_transactions(&vec![(1, t1), (2, t2)])
        .unwrap();

    cps3.update_processed_transactions(&vec![(1, t3), (2, t4)])
        .unwrap();

    cps4.update_processed_transactions(&vec![(1, t4), (2, t5)])
        .unwrap();

    let p1 = cps1.set_proposal().unwrap();
    let p2 = cps2.set_proposal().unwrap();
    let p3 = cps3.set_proposal().unwrap();
    let p4 = cps4.set_proposal().unwrap();

    let diff12 = p1.diff_with(&p2);
    let diff23 = p2.diff_with(&p3);

    let mut global = GlobalCheckpoint::new(0);
    global.insert(diff12).unwrap();
    global.insert(diff23).unwrap();

    // P4's proposal was never inserted.
    let diff41 = p4.diff_with(&p1);
    let all_items4 = global
        .checkpoint_items(&diff41, p4.transactions())
        .unwrap();

    // P1's proposal seeded the structure.
    let diff12_again = p1.diff_with(&p2);
    let all_items1 = global
        .checkpoint_items(&diff12_again, p1.transactions())
        .unwrap();

    // All get the same set for the proposal.
    assert_eq!(all_items1, all_items4);
}

#[test]
fn diffs_insertion_order_is_irrelevant() {
    // The same four proposals reconciled along two different diff orders
    // and against two different bases give identical item lists.
    let mk = |name: u64, items: &[(u64, u64)]| -> CheckpointProposal {
        let mut cps = CheckpointStore::open(name);
        cps.update_processed_transactions(&items.to_vec()).unwrap();
        cps.set_proposal().unwrap()
    };
    let p1 = mk(1, &[(1, 402), (2, 403)]);
    let p2 = mk(2, &[(1, 401), (2, 402)]);
    let p3 = mk(3, &[(1, 403), (2, 404)]);

    let mut g1 = GlobalCheckpoint::new(0);
    g1.insert(p1.diff_with(&p2)).unwrap();
    g1.insert(p2.diff_with(&p3)).unwrap();

    let mut g2 = GlobalCheckpoint::new(0);
    g2.insert(p3.diff_with(&p2)).unwrap();
    g2.insert(p2.diff_with(&p1)).unwrap();

    let r1 = g1
        .checkpoint_items(&p1.diff_with(&p2), p1.transactions())
        .unwrap();
    let r2 = g2
        .checkpoint_items(&p2.diff_with(&p3), p2.transactions())
        .unwrap();
    assert_eq!(r1, r2);
    assert_eq!(r1, vec![401, 402, 403, 404]);
}

#[test]
fn unknown_diff_is_rejected() {
    let mk = |name: u64, items: &[(u64, u64)]| -> CheckpointProposal {
        let mut cps = CheckpointStore::open(name);
        cps.update_processed_transactions(&items.to_vec()).unwrap();
        cps.set_proposal().unwrap()
    };
    let p1 = mk(1, &[(1, 502)]);
    let p2 = mk(2, &[(1, 501)]);
    let p3 = mk(3, &[(1, 503)]);
    let p4 = mk(4, &[(1, 504)]);

    let mut g = GlobalCheckpoint::new(0);
    g.insert(p1.diff_with(&p2)).unwrap();
    // Neither side of this diff is connected to the structure.
    assert!(g.insert(p3.diff_with(&p4)).is_err());
}

#[test]
fn checkpoint_sequence_must_match() {
    let mut cps = CheckpointStore::open(9);
    cps.update_processed_transactions(&vec![(1, 601)]).unwrap();
    // The store expects checkpoint 0 first.
    assert!(cps.update_new_checkpoint(3, &vec![601]).is_err());
    assert!(cps.update_new_checkpoint(0, &vec![601]).is_ok());
    assert_eq!(cps.next_checkpoint_sequence(), 1);
}
