//! Signature and digest behaviour against known Ed25519 and SHA3 vectors,
//! and the sign-then-verify law with bit-perturbation.

use sui_gateway::base_types::SuiAddress;
use sui_gateway::crypto::{sha3_digest, sign_bytes, verify_bytes, KeyPair};
use sui_gateway::error::SuiError;
use sui_gateway::messages::{Transaction, TransactionData};

fn addr(b: u8) -> SuiAddress {
    SuiAddress([b; 20])
}

fn gas_ref(b: u8, v: u64) -> sui_gateway::base_types::ObjectRef {
    (
        sui_gateway::base_types::ObjectID([b; 20]),
        sui_gateway::base_types::SequenceNumber(v),
        sui_gateway::base_types::ObjectDigest([b; 32]),
    )
}

fn hex(bytes: &[u8]) -> String {
    let mut s = String::new();
    for b in bytes {
        s.push_str(&format!("{:02x}", b));
    }
    s
}

fn unhex(s: &str) -> Vec<u8> {
    let chars: Vec<u8> = s.bytes().collect();
    let mut out = Vec::new();
    let mut i = 0;
    while i + 1 < chars.len() {
        let hi = (chars[i] as char).to_digit(16).unwrap() as u8;
        let lo = (chars[i + 1] as char).to_digit(16).unwrap() as u8;
        out.push(hi * 16 + lo);
        i += 2;
    }
    out
}

#[test]
fn sha3_of_empty_input_matches_the_known_vector() {
    let digest = sha3_digest(&Vec::new());
    assert_eq!(
        hex(&digest),
        "a7ffc6f8bf1ed76651c14756a061d662f580ff4de43b49fa82d80a4b80f8434a"
    );
}

#[test]
fn ed25519_matches_the_rfc_8032_first_test_vector() {
    let sk = unhex("9d61b19deffd5a60ba844af492ec2cc44449c5697b326919703bac031cae7f60");
    let mut seed = [0u8; 32];
    seed.copy_from_slice(&sk);
    let kp = KeyPair::from_seed(seed);
    assert_eq!(
        hex(&kp.public),
        "d75a980182b10ab7d54bfed3c964073a0ee172f3daa62325af021a68f707511a"
    );
    let signature = sign_bytes(&kp.secret, &Vec::new());
    assert_eq!(
        hex(&signature),
        "e5564300c360ac729086e2cc806e828a84877f1eb8e5d974d873e06522490155\
         5fb8821590a33bacc61e39701cf9b46bd25bf5f0595bbe24655141438e7a100b"
    );
    assert!(verify_bytes(&kp.public, &Vec::new(), &signature));
}

#[test]
fn signing_then_verifying_succeeds() {
    let kp = KeyPair::from_seed([7u8; 32]);
    let sender = kp.address();
    let data = TransactionData::new_transfer(addr(2), gas_ref(3, 5), sender, gas_ref(4, 9));
    let tx = Transaction::from_data(data, &kp);
    assert!(tx.check_signature().is_ok());
}

#[test]
fn a_perturbed_message_no_longer_verifies() {
    let kp = KeyPair::from_seed([9u8; 32]);
    let mut message = vec![1u8, 2, 3, 4, 5];
    let signature = sign_bytes(&kp.secret, &message);
    assert!(verify_bytes(&kp.public, &message, &signature));
    // Flip a single bit of the message: verification must fail.
    message[2] ^= 0x01;
    assert!(!verify_bytes(&kp.public, &message, &signature));
}

#[test]
fn a_transaction_with_perturbed_data_fails_the_signature_check() {
    let kp = KeyPair::from_seed([11u8; 32]);
    let sender = kp.address();
    let data = TransactionData::new_transfer(addr(2), gas_ref(3, 5), sender, gas_ref(4, 9));
    let tx = Transaction::from_data(data, &kp);
    assert!(tx.check_signature().is_ok());
    // Same signature over different data (the recipient changed by one bit).
    let other_data =
        TransactionData::new_transfer(addr(3), gas_ref(3, 5), sender, gas_ref(4, 9));
    let forged = Transaction::new(other_data, tx.signature);
    assert!(matches!(
        forged.check_signature(),
        Err(SuiError::InvalidSignature { .. })
    ));
}

#[test]
fn a_signature_from_a_key_that_does_not_own_the_sender_fails() {
    let kp = KeyPair::from_seed([13u8; 32]);
    let data = TransactionData::new_transfer(addr(2), gas_ref(3, 5), addr(1), gas_ref(4, 9));
    let tx = Transaction::from_data(data, &kp);
    assert!(matches!(
        tx.check_signature(),
        Err(SuiError::InvalidSignature { .. })
    ));
}

#[test]
fn transactions_compare_by_their_data_alone() {
    let kp1 = KeyPair::from_seed([61u8; 32]);
    let kp2 = KeyPair::from_seed([62u8; 32]);
    let sender = kp1.address();
    let data = TransactionData::new_transfer(addr(2), gas_ref(3, 5), sender, gas_ref(4, 9));
    let data_again = TransactionData::new_transfer(addr(2), gas_ref(3, 5), sender, gas_ref(4, 9));
    let t1 = Transaction::from_data(data, &kp1);
    let t2 = Transaction::from_data(data_again, &kp2);
    // Same data, different signatures: equal.
    assert!(t1 == t2);
    let other = TransactionData::new_transfer(addr(9), gas_ref(3, 5), sender, gas_ref(4, 9));
    let t3 = Transaction::from_data(other, &kp1);
    assert!(t1 != t3);
}

#[test]
fn digests_depend_on_the_data_alone() {
    let kp1 = KeyPair::from_seed([21u8; 32]);
    let kp2 = KeyPair::from_seed([22u8; 32]);
    let sender = kp1.address();
    let data = TransactionData::new_transfer(addr(2), gas_ref(3, 5), sender, gas_ref(4, 9));
    let data_again = TransactionData::new_transfer(addr(2), gas_ref(3, 5), sender, gas_ref(4, 9));
    let t1 = Transaction::from_data(data, &kp1);
    let t2 = Transaction::from_data(data_again, &kp2);
    // Different signatures over the same data: same digest.
    assert_ne!(t1.signature.signature, t2.signature.signature);
    assert_eq!(t1.digest().0, t2.digest().0);
    // Different data: a different digest.
    let other = TransactionData::new_transfer(addr(9), gas_ref(3, 5), sender, gas_ref(4, 9));
    let t3 = Transaction::from_data(other, &kp1);
    assert_ne!(t1.digest().0, t3.digest().0);
}

#[test]
fn certificates_with_different_signature_sets_share_a_digest() {
    let kp = KeyPair::from_seed([31u8; 32]);
    let sender = kp.address();
    let data = TransactionData::new_transfer(addr(2), gas_ref(3, 5), sender, gas_ref(4, 9));
    let tx1 = Transaction::from_data(data, &kp);
    let tx2 = tx1.clone();
    let auth = KeyPair::from_seed([41u8; 32]);
    let message = tx1.data.to_bytes();
    let sig = sui_gateway::crypto::AuthoritySignature::new(&message, &auth);
    let c1 = sui_gateway::messages::CertifiedTransaction::new(tx1);
    let c2 = sui_gateway::messages::CertifiedTransaction::new_with_signatures(
        tx2,
        vec![(sui_gateway::base_types::AuthorityName(auth.public), sig)],
    );
    assert_eq!(c1.digest().0, c2.digest().0);
}

#[test]
fn the_address_of_a_key_is_the_truncated_hash_of_its_public_key() {
    let kp = KeyPair::from_seed([51u8; 32]);
    let full = sha3_digest(&kp.public.to_vec());
    let a = kp.address();
    assert_eq!(&a.0[..], &full[..20]);
}
