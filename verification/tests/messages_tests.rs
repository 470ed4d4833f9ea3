//! Input-object derivation, duplicate detection, batch rules, and the
//! compiled-module dependency extraction.

use sui_gateway::base_types::{AuthorityName, ObjectDigest, ObjectID, ObjectRef, SequenceNumber, SuiAddress};
use sui_gateway::committee::Committee;
use sui_gateway::crypto::{AuthoritySignature, KeyPair};
use sui_gateway::error::SuiError;
use sui_gateway::envelope::SignatureAggregator;
use sui_gateway::messages::{
    InputObjectKind, MoveCall, MoveModulePublish, SingleTransactionKind, Transaction,
    TransactionData, TransactionKind, Transfer,
};
use sui_gateway::modules::{parse_module_dep_addrs, publish_dep_addresses};

fn addr(b: u8) -> SuiAddress {
    SuiAddress([b; 20])
}

fn id(b: u8) -> ObjectID {
    ObjectID([b; 20])
}

fn oref(b: u8, v: u64) -> ObjectRef {
    (id(b), SequenceNumber(v), ObjectDigest([b; 32]))
}

#[test]
fn transfer_inputs_are_the_object_then_the_gas() {
    let kp = KeyPair::from_seed([1u8; 32]);
    let data = TransactionData::new_transfer(addr(2), oref(3, 5), kp.address(), oref(4, 9));
    let tx = Transaction::from_data(data, &kp);
    let inputs = tx.input_objects().unwrap();
    assert_eq!(inputs.len(), 2);
    assert!(matches!(inputs[0], InputObjectKind::OwnedMoveObject(r) if r.0 == id(3)));
    assert!(matches!(inputs[1], InputObjectKind::OwnedMoveObject(r) if r.0 == id(4)));
    // Every id is distinct.
    assert_ne!(inputs[0].object_id().0, inputs[1].object_id().0);
}

#[test]
fn a_transfer_of_the_gas_object_is_a_duplicate_input() {
    let kp = KeyPair::from_seed([1u8; 32]);
    let data = TransactionData::new_transfer(addr(2), oref(4, 5), kp.address(), oref(4, 9));
    let tx = Transaction::from_data(data, &kp);
    assert!(matches!(
        tx.input_objects(),
        Err(SuiError::DuplicateObjectRefInput)
    ));
}

#[test]
fn call_inputs_are_owned_then_shared_then_package_then_gas() {
    let kp = KeyPair::from_seed([1u8; 32]);
    let data = TransactionData::new_move_call(
        kp.address(),
        oref(9, 1),
        b"coin".to_vec(),
        b"join".to_vec(),
        vec![],
        oref(4, 9),
        vec![oref(5, 2), oref(6, 3)],
        vec![id(7)],
        vec![],
        100,
    );
    let tx = Transaction::from_data(data, &kp);
    let inputs = tx.input_objects().unwrap();
    assert_eq!(inputs.len(), 5);
    assert!(matches!(inputs[0], InputObjectKind::OwnedMoveObject(r) if r.0 == id(5)));
    assert!(matches!(inputs[1], InputObjectKind::OwnedMoveObject(r) if r.0 == id(6)));
    assert!(matches!(inputs[2], InputObjectKind::SharedMoveObject(s) if s == id(7)));
    assert!(matches!(inputs[3], InputObjectKind::MovePackage(p) if p == id(9)));
    assert!(matches!(inputs[4], InputObjectKind::OwnedMoveObject(r) if r.0 == id(4)));
}

#[test]
fn a_batch_with_a_publish_member_is_rejected() {
    let kp = KeyPair::from_seed([1u8; 32]);
    let members = vec![
        SingleTransactionKind::Transfer(Transfer { recipient: addr(2), object_ref: oref(3, 5) }),
        SingleTransactionKind::Publish(MoveModulePublish { modules: vec![], gas_budget: 50 }),
    ];
    let data = TransactionData::new(TransactionKind::Batch(members), kp.address(), oref(4, 9));
    let tx = Transaction::from_data(data, &kp);
    assert!(matches!(
        tx.input_objects(),
        Err(SuiError::InvalidBatchTransaction { .. })
    ));
}

#[test]
fn a_batch_of_two_transfers_lists_both_then_the_gas() {
    let kp = KeyPair::from_seed([1u8; 32]);
    let members = vec![
        SingleTransactionKind::Transfer(Transfer { recipient: addr(2), object_ref: oref(3, 5) }),
        SingleTransactionKind::Transfer(Transfer { recipient: addr(2), object_ref: oref(5, 1) }),
    ];
    let data = TransactionData::new(TransactionKind::Batch(members), kp.address(), oref(4, 9));
    let tx = Transaction::from_data(data, &kp);
    let inputs = tx.input_objects().unwrap();
    assert_eq!(inputs.len(), 3);
    assert!(matches!(inputs[2], InputObjectKind::OwnedMoveObject(r) if r.0 == id(4)));
}

#[test]
fn duplicates_across_batch_members_are_rejected() {
    let kp = KeyPair::from_seed([1u8; 32]);
    let members = vec![
        SingleTransactionKind::Transfer(Transfer { recipient: addr(2), object_ref: oref(3, 5) }),
        SingleTransactionKind::Transfer(Transfer { recipient: addr(6), object_ref: oref(3, 5) }),
    ];
    let data = TransactionData::new(TransactionKind::Batch(members), kp.address(), oref(4, 9));
    let tx = Transaction::from_data(data, &kp);
    assert!(matches!(
        tx.input_objects(),
        Err(SuiError::DuplicateObjectRefInput)
    ));
}

#[test]
fn shared_inputs_are_reported_for_consensus_routing() {
    let call = MoveCall {
        package: oref(9, 1),
        module: b"m".to_vec(),
        function: b"f".to_vec(),
        type_arguments: vec![],
        object_arguments: vec![],
        shared_object_arguments: vec![id(7), id(8)],
        pure_arguments: vec![],
        gas_budget: 10,
    };
    let kind = SingleTransactionKind::Call(call);
    assert!(kind.contains_shared_object());
    let shared = kind.shared_input_objects();
    assert_eq!(shared.len(), 2);
    assert_eq!(shared[0].0, id(7).0);
    let transfer = SingleTransactionKind::Transfer(Transfer {
        recipient: addr(2),
        object_ref: oref(3, 5),
    });
    assert!(!transfer.contains_shared_object());
    assert_eq!(transfer.shared_input_objects().len(), 0);
}

/// A minimal compiled-module image: the magic, a version word, two table
/// headers (module handles, then address identifiers), two handles, and two
/// 20-byte addresses of which the second is the reserved zero address.
fn tiny_module(addr1: [u8; 20], addr2: [u8; 20]) -> Vec<u8> {
    let mut m = vec![0xA1u8, 0x1C, 0xEB, 0x0B];
    m.extend_from_slice(&[1, 0, 0, 0]); // version
    m.push(2); // table count
    m.extend_from_slice(&[1, 0, 4]); // module handles at offset 0, 4 bytes
    m.extend_from_slice(&[8, 4, 40]); // address identifiers at offset 4, 40 bytes
    m.extend_from_slice(&[0, 0, 1, 0]); // handles: (addr 0, name 0), (addr 1, name 0)
    m.extend_from_slice(&addr1);
    m.extend_from_slice(&addr2);
    m
}

#[test]
fn module_handles_name_their_declared_addresses() {
    let module = tiny_module([0x11; 20], [0x22; 20]);
    let addrs = parse_module_dep_addrs(&module).unwrap();
    assert_eq!(addrs.len(), 2);
    assert_eq!(addrs[0].0, [0x11; 20]);
    assert_eq!(addrs[1].0, [0x22; 20]);
}

#[test]
fn a_malformed_module_contributes_no_dependencies() {
    assert!(parse_module_dep_addrs(&vec![1, 2, 3]).is_none());
    let deps = publish_dep_addresses(&vec![vec![1, 2, 3]]);
    assert_eq!(deps.len(), 0);
}

#[test]
fn publish_inputs_are_the_nonzero_dependencies_and_the_gas() {
    let kp = KeyPair::from_seed([1u8; 32]);
    let module = tiny_module([0x11; 20], [0x00; 20]);
    let data = TransactionData::new_module(kp.address(), oref(4, 9), vec![module], 77);
    let tx = Transaction::from_data(data, &kp);
    let inputs = tx.input_objects().unwrap();
    // The zero address is excluded; the gas object is appended last.
    assert_eq!(inputs.len(), 2);
    assert!(matches!(inputs[0], InputObjectKind::MovePackage(p) if p.0 == [0x11; 20]));
    assert!(matches!(inputs[1], InputObjectKind::OwnedMoveObject(r) if r.0 == id(4)));
}

#[test]
fn duplicate_dependencies_are_listed_once() {
    let module = tiny_module([0x11; 20], [0x11; 20]);
    let deps = publish_dep_addresses(&vec![module.clone(), module]);
    assert_eq!(deps.len(), 1);
    assert_eq!(deps[0].0, [0x11; 20]);
}

fn committee_of_four() -> (Committee, Vec<KeyPair>) {
    let keys: Vec<KeyPair> = (0u8..4).map(|i| KeyPair::from_seed([i + 100; 32])).collect();
    let rights = keys.iter().map(|k| (AuthorityName(k.public), 1u64)).collect();
    (Committee::new(rights), keys)
}

#[test]
fn a_quorum_of_three_out_of_four_closes_the_certificate() {
    let (committee, keys) = committee_of_four();
    let kp = KeyPair::from_seed([1u8; 32]);
    let data = TransactionData::new_transfer(addr(2), oref(3, 5), kp.address(), oref(4, 9));
    let tx = Transaction::from_data(data, &kp);
    let message = tx.data.to_bytes();
    let mut aggregator = SignatureAggregator::try_new(tx, committee.duplicate()).unwrap();
    let mut certificate = None;
    for (i, key) in keys.iter().enumerate().take(3) {
        let sig = AuthoritySignature::new(&message, key);
        let outcome = aggregator.append(AuthorityName(key.public), sig).unwrap();
        if i < 2 {
            assert!(outcome.is_none());
        } else {
            certificate = outcome;
        }
    }
    let certificate = certificate.expect("quorum reached at the third signature");
    assert!(certificate.check(&committee).is_ok());
}

#[test]
fn an_authority_cannot_sign_a_certificate_twice() {
    let (committee, keys) = committee_of_four();
    let kp = KeyPair::from_seed([1u8; 32]);
    let data = TransactionData::new_transfer(addr(2), oref(3, 5), kp.address(), oref(4, 9));
    let tx = Transaction::from_data(data, &kp);
    let message = tx.data.to_bytes();
    let mut aggregator = SignatureAggregator::try_new(tx, committee).unwrap();
    let sig = AuthoritySignature::new(&message, &keys[0]);
    assert!(aggregator.append(AuthorityName(keys[0].public), sig).unwrap().is_none());
    let sig_again = AuthoritySignature::new(&message, &keys[0]);
    assert!(matches!(
        aggregator.append(AuthorityName(keys[0].public), sig_again),
        Err(SuiError::CertificateAuthorityReuse)
    ));
}

#[test]
fn an_unknown_signer_is_rejected() {
    let (committee, _keys) = committee_of_four();
    let kp = KeyPair::from_seed([1u8; 32]);
    let data = TransactionData::new_transfer(addr(2), oref(3, 5), kp.address(), oref(4, 9));
    let tx = Transaction::from_data(data, &kp);
    let message = tx.data.to_bytes();
    let stranger = KeyPair::from_seed([200u8; 32]);
    let mut aggregator = SignatureAggregator::try_new(tx, committee).unwrap();
    let sig = AuthoritySignature::new(&message, &stranger);
    assert!(matches!(
        aggregator.append(AuthorityName(stranger.public), sig),
        Err(SuiError::UnknownSigner)
    ));
}

#[test]
fn a_certificate_below_quorum_fails_the_check() {
    let (committee, keys) = committee_of_four();
    let kp = KeyPair::from_seed([1u8; 32]);
    let data = TransactionData::new_transfer(addr(2), oref(3, 5), kp.address(), oref(4, 9));
    let tx = Transaction::from_data(data, &kp);
    let message = tx.data.to_bytes();
    let sigs: Vec<_> = keys
        .iter()
        .take(2)
        .map(|k| (AuthorityName(k.public), AuthoritySignature::new(&message, k)))
        .collect();
    let cert = sui_gateway::messages::CertifiedTransaction::new_with_signatures(tx, sigs);
    assert!(matches!(
        cert.check(&committee),
        Err(SuiError::CertificateRequiresQuorum)
    ));
}

#[test]
fn a_certificate_with_a_repeated_authority_fails_the_check() {
    let (committee, keys) = committee_of_four();
    let kp = KeyPair::from_seed([1u8; 32]);
    let data = TransactionData::new_transfer(addr(2), oref(3, 5), kp.address(), oref(4, 9));
    let tx = Transaction::from_data(data, &kp);
    let message = tx.data.to_bytes();
    let one = (
        AuthorityName(keys[0].public),
        AuthoritySignature::new(&message, &keys[0]),
    );
    let cert = sui_gateway::messages::CertifiedTransaction::new_with_signatures(
        tx,
        vec![one.clone(), one],
    );
    assert!(matches!(
        cert.check(&committee),
        Err(SuiError::CertificateAuthorityReuse)
    ));
}

#[test]
fn input_kind_versions_and_errors_follow_the_kind() {
    let owned = InputObjectKind::OwnedMoveObject(oref(3, 5));
    assert_eq!(owned.version().0, 5);
    let package = InputObjectKind::MovePackage(id(9));
    assert_eq!(package.version().0, 1);
    let shared = InputObjectKind::SharedMoveObject(id(7));
    assert_eq!(shared.version().0, 1);
    assert!(matches!(
        package.object_not_found_error(),
        SuiError::DependentPackageNotFound { package_id } if package_id.0 == [9; 20]
    ));
    assert!(matches!(
        owned.object_not_found_error(),
        SuiError::ObjectNotFound { object_id } if object_id.0 == [3; 20]
    ));
}
