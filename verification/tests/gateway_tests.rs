//! End-to-end gateway scenarios against the local store: the transfer
//! commit pipeline, the double-spend lock conflict, response shaping for
//! split, merge and publish, object lookup, and account sync.

use sui_gateway::base_types::{
    AuthorityName, ObjectDigest, ObjectID, ObjectRef, SequenceNumber, SuiAddress,
};
use sui_gateway::committee::Committee;
use sui_gateway::crypto::KeyPair;
use sui_gateway::effects::{ExecutionStatus, TransactionEffects};
use sui_gateway::error::SuiError;
use sui_gateway::gateway::{GatewayState, TransactionResponse};
use sui_gateway::messages::{CertifiedTransaction, Transaction, TransactionData};
use sui_gateway::object::{Object, ObjectData, ObjectRead, Owner};
use sui_gateway::store::TemporaryStore;

fn addr(b: u8) -> SuiAddress {
    SuiAddress([b; 20])
}

fn id(b: u8) -> ObjectID {
    ObjectID([b; 20])
}

fn digest(b: u8) -> sui_gateway::base_types::TransactionDigest {
    sui_gateway::base_types::TransactionDigest([b; 32])
}

fn coin(b: u8, version: u64, owner: SuiAddress) -> Object {
    Object {
        id: id(b),
        version: SequenceNumber(version),
        owner: Owner::AddressOwner(owner),
        data: ObjectData::MoveValue { type_tag: b"Coin".to_vec(), contents: vec![b, b, b] },
        previous_transaction: digest(0),
    }
}

fn package(b: u8) -> Object {
    Object {
        id: id(b),
        version: SequenceNumber(1),
        owner: Owner::Immutable,
        data: ObjectData::Package { modules: vec![vec![b]] },
        previous_transaction: digest(0),
    }
}

fn committee_of_one() -> Committee {
    let kp = KeyPair::from_seed([77u8; 32]);
    Committee::new(vec![(AuthorityName(kp.public), 1)])
}

fn gateway_with(objects: Vec<Object>) -> GatewayState {
    let mut gw = GatewayState::new(committee_of_one());
    for o in objects {
        gw.store.insert_object_unsafe(o);
    }
    gw
}

fn empty_effects(tx_digest: sui_gateway::base_types::TransactionDigest) -> TransactionEffects {
    TransactionEffects {
        status: ExecutionStatus::Success { gas_used: 1, results: vec![] },
        transaction_digest: tx_digest,
        created: vec![],
        mutated: vec![],
        unwrapped: vec![],
        deleted: vec![],
        wrapped: vec![],
        gas_object: (
            (id(0), SequenceNumber(0), ObjectDigest([0; 32])),
            Owner::AddressOwner(addr(0)),
        ),
        events: vec![],
        dependencies: vec![],
    }
}

/// The transfer happy path: check, lock, execute (played here by the test),
/// commit, and shape. The store afterwards holds the new versions, the lock
/// is gone, and the parent history records the new references.
#[test]
fn a_transfer_commits_and_updates_the_mirror() {
    let sender_key = KeyPair::from_seed([1u8; 32]);
    let a = sender_key.address();
    let b = addr(66);
    let obj1 = coin(3, 3, a);
    let gas1 = coin(4, 7, a);
    let obj1_ref = obj1.compute_object_reference();
    let gas1_ref = gas1.compute_object_reference();
    let mut gw = gateway_with(vec![obj1.clone(), gas1.clone()]);

    let data = TransactionData::new_transfer(b, obj1_ref, a, gas1_ref);
    let tx = Transaction::from_data(data, &sender_key);
    let pairs = gw.check_transaction_input(&tx).unwrap();
    assert_eq!(pairs.len(), 2);
    let owned = GatewayState::owned_input_refs(&pairs);
    assert_eq!(owned.len(), 2);
    gw.lock_transaction(&owned, &tx).unwrap();

    // The executor's role: the object moves to B at the next version, the
    // gas returns to A at the next version.
    let obj1_new = coin_at(&obj1, 4, b);
    let gas1_new = coin_at(&gas1, 8, a);
    let obj1_new_ref = obj1_new.compute_object_reference();
    let gas1_new_ref = gas1_new.compute_object_reference();
    let temporary_store = TemporaryStore {
        written: vec![obj1_new, gas1_new],
        deleted: vec![],
        active_inputs: owned.clone(),
    };
    let certificate = CertifiedTransaction::new(tx);
    let mut effects = empty_effects(certificate.digest());
    effects.mutated = vec![
        (obj1_new_ref, Owner::AddressOwner(b)),
        (gas1_new_ref, Owner::AddressOwner(a)),
    ];
    effects.gas_object = (gas1_new_ref, Owner::AddressOwner(a));

    let committed = gw.commit_certificate(temporary_store, certificate, effects);
    let response = gw
        .shape_transaction_response(
            CertifiedTransaction::new(Transaction::from_data(
                TransactionData::new_transfer(b, obj1_ref, a, gas1_ref),
                &sender_key,
            )),
            committed,
            &(id(99), SequenceNumber(1), ObjectDigest([9; 32])),
        )
        .unwrap();
    assert!(matches!(response, TransactionResponse::EffectResponse(..)));

    // Post-state: new versions and owners are live.
    let live_obj1 = gw.store.get_object(&id(3)).unwrap();
    assert_eq!(live_obj1.version.0, 4);
    assert!(matches!(live_obj1.owner, Owner::AddressOwner(o) if o.0 == b.0));
    let live_gas = gw.store.get_object(&id(4)).unwrap();
    assert_eq!(live_gas.version.0, 8);
    // No locks remain on the consumed inputs.
    assert!(gw.store.get_lock(&obj1_ref).is_none());
    assert!(gw.store.get_lock(&gas1_ref).is_none());
    // The parent history has the new references.
    let latest = gw.store.get_latest_parent_entry(&id(3)).unwrap();
    assert_eq!(latest.0.1.0, 4);
}

fn coin_at(base: &Object, version: u64, owner: SuiAddress) -> Object {
    let mut o = base.clone();
    o.version = SequenceNumber(version);
    o.owner = Owner::AddressOwner(owner);
    o
}

/// Two transactions racing for one owned object: the first takes the lock,
/// the second fails fast with the conflicting digest and changes nothing.
#[test]
fn a_second_spend_of_a_locked_object_conflicts() {
    let sender_key = KeyPair::from_seed([1u8; 32]);
    let a = sender_key.address();
    let obj1 = coin(3, 3, a);
    let gas1 = coin(4, 7, a);
    let gas2 = coin(5, 2, a);
    let obj1_ref = obj1.compute_object_reference();
    let gas1_ref = gas1.compute_object_reference();
    let gas2_ref = gas2.compute_object_reference();
    let mut gw = gateway_with(vec![obj1, gas1, gas2]);

    let tx1 = Transaction::from_data(
        TransactionData::new_transfer(addr(66), obj1_ref, a, gas1_ref),
        &sender_key,
    );
    let tx2 = Transaction::from_data(
        TransactionData::new_transfer(addr(67), obj1_ref, a, gas2_ref),
        &sender_key,
    );
    gw.lock_transaction(&vec![obj1_ref, gas1_ref], &tx1).unwrap();
    let conflict = gw.lock_transaction(&vec![obj1_ref, gas2_ref], &tx2);
    match conflict {
        Err(SuiError::ObjectLockConflict { pending_transaction }) => {
            assert_eq!(pending_transaction.0, tx1.digest().0);
        },
        other => panic!("expected a lock conflict, got {:?}", other.is_ok()),
    }
    // Retrying the first transaction is idempotent.
    assert!(gw.lock_transaction(&vec![obj1_ref, gas1_ref], &tx1).is_ok());
}

fn framework_ref() -> ObjectRef {
    (id(200), SequenceNumber(1), ObjectDigest([200; 32]))
}

/// A split produces two mutated objects (the coin and the gas) and one new
/// coin per amount, owned by the signer, returned in effect order.
#[test]
fn a_split_response_carries_the_new_coins_in_effect_order() {
    let sender_key = KeyPair::from_seed([1u8; 32]);
    let a = sender_key.address();
    let c1 = coin(3, 3, a);
    let gas1 = coin(4, 7, a);
    let mut gw = gateway_with(vec![c1.clone(), gas1.clone()]);
    let data = gw
        .split_coin(a, id(3), &vec![10, 20, 30], id(4), 500, framework_ref())
        .unwrap();
    let tx = Transaction::from_data(data, &sender_key);
    let certificate = CertifiedTransaction::new(tx);

    // Post-execution state: the coin and gas advance, three coins appear.
    let new_coins = vec![coin(10, 1, a), coin(11, 1, a), coin(12, 1, a)];
    gw.store.insert_object_unsafe(coin_at(&c1, 4, a));
    gw.store.insert_object_unsafe(coin_at(&gas1, 8, a));
    for c in &new_coins {
        gw.store.insert_object_unsafe(c.clone());
    }
    let mut effects = empty_effects(certificate.digest());
    effects.mutated = vec![
        (gw.store.get_object(&id(3)).unwrap().compute_object_reference(), Owner::AddressOwner(a)),
        (gw.store.get_object(&id(4)).unwrap().compute_object_reference(), Owner::AddressOwner(a)),
    ];
    effects.created = new_coins
        .iter()
        .map(|c| (c.compute_object_reference(), Owner::AddressOwner(a)))
        .collect();

    let response = gw
        .shape_transaction_response(certificate, effects, &framework_ref())
        .unwrap();
    match response {
        TransactionResponse::SplitCoinResponse(split) => {
            assert_eq!(split.new_coins.len(), 3);
            assert_eq!(split.new_coins[0].id.0, [10; 20]);
            assert_eq!(split.new_coins[1].id.0, [11; 20]);
            assert_eq!(split.new_coins[2].id.0, [12; 20]);
            assert_eq!(split.updated_coin.version.0, 4);
            assert_eq!(split.updated_gas.version.0, 8);
        },
        _ => panic!("expected a split response"),
    }
}

/// A split whose created set does not match the requested amounts is an
/// inconsistent result.
#[test]
fn a_split_with_a_missing_coin_is_inconsistent() {
    let sender_key = KeyPair::from_seed([1u8; 32]);
    let a = sender_key.address();
    let c1 = coin(3, 3, a);
    let gas1 = coin(4, 7, a);
    let mut gw = gateway_with(vec![c1.clone(), gas1.clone()]);
    let data = gw
        .split_coin(a, id(3), &vec![10, 20, 30], id(4), 500, framework_ref())
        .unwrap();
    let tx = Transaction::from_data(data, &sender_key);
    let certificate = CertifiedTransaction::new(tx);
    let mut effects = empty_effects(certificate.digest());
    effects.mutated = vec![
        (c1.compute_object_reference(), Owner::AddressOwner(a)),
        (gas1.compute_object_reference(), Owner::AddressOwner(a)),
    ];
    // Only two coins created for three amounts.
    effects.created = vec![
        (coin(10, 1, a).compute_object_reference(), Owner::AddressOwner(a)),
        (coin(11, 1, a).compute_object_reference(), Owner::AddressOwner(a)),
    ];
    assert!(matches!(
        gw.shape_transaction_response(certificate, effects, &framework_ref()),
        Err(SuiError::InconsistentGatewayResult { .. })
    ));
}

/// A merge leaves two mutated objects: the surviving coin and the gas.
#[test]
fn a_merge_response_reads_the_surviving_coin_and_the_gas() {
    let sender_key = KeyPair::from_seed([1u8; 32]);
    let a = sender_key.address();
    let primary = coin(3, 3, a);
    let merged = coin(5, 2, a);
    let gas1 = coin(4, 7, a);
    let mut gw = gateway_with(vec![primary.clone(), merged, gas1.clone()]);
    let data = gw
        .merge_coins(a, id(3), id(5), id(4), 500, framework_ref())
        .unwrap();
    let tx = Transaction::from_data(data, &sender_key);
    let certificate = CertifiedTransaction::new(tx);
    gw.store.insert_object_unsafe(coin_at(&primary, 4, a));
    gw.store.insert_object_unsafe(coin_at(&gas1, 8, a));
    let mut effects = empty_effects(certificate.digest());
    effects.mutated = vec![
        (gw.store.get_object(&id(3)).unwrap().compute_object_reference(), Owner::AddressOwner(a)),
        (gw.store.get_object(&id(4)).unwrap().compute_object_reference(), Owner::AddressOwner(a)),
    ];
    let response = gw
        .shape_transaction_response(certificate, effects, &framework_ref())
        .unwrap();
    match response {
        TransactionResponse::MergeCoinResponse(merge) => {
            assert_eq!(merge.updated_coin.version.0, 4);
            assert_eq!(merge.updated_gas.version.0, 8);
        },
        _ => panic!("expected a merge response"),
    }
}

/// A publish leaves one mutated gas object and exactly one created package.
#[test]
fn a_publish_response_names_the_package_and_the_gas() {
    let sender_key = KeyPair::from_seed([1u8; 32]);
    let a = sender_key.address();
    let gas1 = coin(4, 7, a);
    let mut gw = gateway_with(vec![gas1.clone()]);
    let data = gw.publish(a, vec![vec![1, 2, 3]], gas1.compute_object_reference(), 500).unwrap();
    let tx = Transaction::from_data(data, &sender_key);
    let certificate = CertifiedTransaction::new(tx);

    let pkg = package(9);
    let pkg_ref = pkg.compute_object_reference();
    let created_value = coin(10, 1, a);
    gw.store.insert_object_unsafe(pkg);
    gw.store.insert_object_unsafe(created_value.clone());
    gw.store.insert_object_unsafe(coin_at(&gas1, 8, a));
    let gas_new_ref = gw.store.get_object(&id(4)).unwrap().compute_object_reference();
    let mut effects = empty_effects(certificate.digest());
    effects.mutated = vec![(gas_new_ref, Owner::AddressOwner(a))];
    effects.created = vec![
        (pkg_ref, Owner::Immutable),
        (created_value.compute_object_reference(), Owner::AddressOwner(a)),
    ];
    effects.gas_object = (gas_new_ref, Owner::AddressOwner(a));
    let response = gw
        .shape_transaction_response(certificate, effects, &framework_ref())
        .unwrap();
    match response {
        TransactionResponse::PublishResponse(publish) => {
            assert_eq!(publish.package.0.0, [9; 20]);
            assert_eq!(publish.created_objects.len(), 1);
            assert_eq!(publish.updated_gas.version.0, 8);
        },
        _ => panic!("expected a publish response"),
    }
}

#[test]
fn object_lookup_distinguishes_live_deleted_and_unknown() {
    let sender_key = KeyPair::from_seed([1u8; 32]);
    let a = sender_key.address();
    let obj1 = coin(3, 3, a);
    let obj1_ref = obj1.compute_object_reference();
    let gw = gateway_with(vec![obj1]);
    assert!(matches!(gw.get_object_info(id(3)), Ok(ObjectRead::Exists(..))));
    assert!(matches!(
        gw.get_object_info(id(42)),
        Ok(ObjectRead::NotExists(o)) if o.0 == [42; 20]
    ));
    // Delete the object through a commit: the lookup then reports the
    // tombstone from the parent history.
    let mut gw = gw;
    let tx = Transaction::from_data(
        TransactionData::new_transfer(addr(66), obj1_ref, a, obj1_ref),
        &sender_key,
    );
    let certificate = CertifiedTransaction::new(tx);
    let mut effects = empty_effects(certificate.digest());
    effects.deleted = vec![obj1_ref];
    let temporary_store = TemporaryStore {
        written: vec![],
        deleted: vec![obj1_ref],
        active_inputs: vec![],
    };
    gw.commit_certificate(temporary_store, certificate, effects);
    assert!(matches!(gw.get_object_info(id(3)), Ok(ObjectRead::Deleted(..))));
}

#[test]
fn account_sync_applies_objects_and_certificates() {
    let sender_key = KeyPair::from_seed([1u8; 32]);
    let a = sender_key.address();
    let mut gw = gateway_with(vec![]);
    let tx = Transaction::from_data(
        TransactionData::new_transfer(
            addr(66),
            coin(3, 3, a).compute_object_reference(),
            a,
            coin(4, 7, a).compute_object_reference(),
        ),
        &sender_key,
    );
    let cert = CertifiedTransaction::new(tx);
    let cert_digest = cert.digest();
    gw.apply_account_sync(vec![(coin(3, 3, a), Some(cert)), (coin(4, 7, a), None)]);
    assert!(gw.store.get_object(&id(3)).is_some());
    assert!(gw.store.get_object(&id(4)).is_some());
    assert!(gw.store.get_certificate(&cert_digest).is_some());
    let owned = gw.get_owned_objects(a);
    assert_eq!(owned.len(), 2);
}

#[test]
fn a_transfer_of_an_object_the_sender_does_not_own_is_rejected() {
    let sender_key = KeyPair::from_seed([1u8; 32]);
    let a = sender_key.address();
    let foreign = coin(3, 3, addr(77));
    let gas1 = coin(4, 7, a);
    let gw = gateway_with(vec![foreign.clone(), gas1.clone()]);
    let tx = Transaction::from_data(
        TransactionData::new_transfer(
            addr(66),
            foreign.compute_object_reference(),
            a,
            gas1.compute_object_reference(),
        ),
        &sender_key,
    );
    assert!(matches!(
        gw.check_transaction_input(&tx),
        Err(SuiError::IncorrectSigner)
    ));
}

#[test]
fn a_stale_input_reference_is_rejected() {
    let sender_key = KeyPair::from_seed([1u8; 32]);
    let a = sender_key.address();
    let obj1 = coin(3, 3, a);
    let gas1 = coin(4, 7, a);
    // The client references version 2, but the store holds version 3.
    let stale_ref = (id(3), SequenceNumber(2), obj1.compute_object_reference().2);
    let gw = gateway_with(vec![obj1, gas1.clone()]);
    let tx = Transaction::from_data(
        TransactionData::new_transfer(addr(66), stale_ref, a, gas1.compute_object_reference()),
        &sender_key,
    );
    assert!(matches!(
        gw.check_transaction_input(&tx),
        Err(SuiError::InvalidObjectReference { .. })
    ));
}

#[test]
fn a_missing_input_is_reported_with_its_id() {
    let sender_key = KeyPair::from_seed([1u8; 32]);
    let a = sender_key.address();
    let gas1 = coin(4, 7, a);
    let gw = gateway_with(vec![gas1.clone()]);
    let tx = Transaction::from_data(
        TransactionData::new_transfer(
            addr(66),
            (id(3), SequenceNumber(3), ObjectDigest([3; 32])),
            a,
            gas1.compute_object_reference(),
        ),
        &sender_key,
    );
    assert!(matches!(
        gw.check_transaction_input(&tx),
        Err(SuiError::ObjectNotFound { object_id }) if object_id.0 == [3; 20]
    ));
}

#[test]
fn a_download_must_cover_every_requested_reference() {
    let a = addr(1);
    let o1 = coin(3, 3, a);
    let o2 = coin(5, 2, a);
    let requested = vec![o1.compute_object_reference(), o2.compute_object_reference()];
    let complete =
        GatewayState::reconcile_fetched_objects(&requested, vec![o1.clone(), o2.clone()]);
    assert!(complete.is_ok());
    assert_eq!(complete.unwrap().len(), 2);
    // One object never arrived: the download is inconsistent.
    let partial = GatewayState::reconcile_fetched_objects(&requested, vec![o1.clone(), o1.clone()]);
    assert!(matches!(
        partial,
        Err(SuiError::InconsistentGatewayResult { .. })
    ));
    // An object nobody asked for arrived: also inconsistent.
    let o3 = coin(9, 1, a);
    let only_first = vec![o1.compute_object_reference()];
    let extra = GatewayState::reconcile_fetched_objects(&only_first, vec![o1, o3]);
    assert!(matches!(
        extra,
        Err(SuiError::InconsistentGatewayResult { .. })
    ));
}

#[test]
fn a_budget_below_the_floor_is_rejected() {
    let sender_key = KeyPair::from_seed([1u8; 32]);
    let a = sender_key.address();
    let gas1 = coin(4, 7, a);
    let gw = gateway_with(vec![gas1.clone()]);
    let data = gw
        .publish(a, vec![vec![1, 2, 3]], gas1.compute_object_reference(), 1)
        .unwrap();
    let tx = Transaction::from_data(data, &sender_key);
    assert!(matches!(
        gw.check_transaction_input(&tx),
        Err(SuiError::InsufficientGas { .. })
    ));
}
