//! The canonical encoding on concrete values: exact byte layouts and the
//! encode-then-decode round trip of the integer-list codec.

use sui_gateway::base_types::{ObjectDigest, ObjectID, ObjectRef, SequenceNumber, SuiAddress};
use sui_gateway::codec::{decode_u64_list, encode_u64, encode_u64_list};
use sui_gateway::messages::TransactionData;

fn oref(b: u8, v: u64) -> ObjectRef {
    (ObjectID([b; 20]), SequenceNumber(v), ObjectDigest([b; 32]))
}

#[test]
fn integers_encode_little_endian() {
    let mut out = Vec::new();
    encode_u64(0x0102030405060708, &mut out);
    assert_eq!(out, vec![8, 7, 6, 5, 4, 3, 2, 1]);
}

#[test]
fn an_integer_list_round_trips() {
    let amounts = vec![10u64, 20, 30];
    let mut bytes = Vec::new();
    encode_u64_list(&amounts, &mut bytes);
    // Count prefix, then the three values, little-endian.
    assert_eq!(bytes.len(), 8 + 3 * 8);
    assert_eq!(&bytes[..8], &[3, 0, 0, 0, 0, 0, 0, 0]);
    assert_eq!(bytes[8], 10);
    assert_eq!(bytes[16], 20);
    assert_eq!(bytes[24], 30);
    let (decoded, end) = decode_u64_list(&bytes, 0).unwrap();
    assert_eq!(decoded, amounts);
    assert_eq!(end, bytes.len());
}

#[test]
fn an_empty_integer_list_round_trips() {
    let amounts: Vec<u64> = vec![];
    let mut bytes = Vec::new();
    encode_u64_list(&amounts, &mut bytes);
    assert_eq!(bytes, vec![0; 8]);
    let (decoded, end) = decode_u64_list(&bytes, 0).unwrap();
    assert_eq!(decoded, amounts);
    assert_eq!(end, 8);
}

#[test]
fn a_truncated_integer_list_does_not_decode() {
    let amounts = vec![10u64, 20];
    let mut bytes = Vec::new();
    encode_u64_list(&amounts, &mut bytes);
    bytes.pop();
    assert!(decode_u64_list(&bytes, 0).is_none());
}

#[test]
fn a_transfer_encodes_with_the_documented_layout() {
    let recipient = SuiAddress([0xBB; 20]);
    let sender = SuiAddress([0xAA; 20]);
    let data = TransactionData::new_transfer(recipient, oref(3, 5), sender, oref(4, 9));
    let bytes = data.to_bytes();
    // Kind tag (single), member tag (transfer), recipient, the transferred
    // reference (id, version, digest), the sender, the gas reference.
    assert_eq!(bytes.len(), 1 + 1 + 20 + (20 + 8 + 32) + 20 + (20 + 8 + 32));
    assert_eq!(bytes[0], 0);
    assert_eq!(bytes[1], 0);
    assert_eq!(&bytes[2..22], &[0xBB; 20]);
    assert_eq!(&bytes[22..42], &[3; 20]);
    assert_eq!(&bytes[42..50], &[5, 0, 0, 0, 0, 0, 0, 0]);
    assert_eq!(&bytes[50..82], &[3; 32]);
    assert_eq!(&bytes[82..102], &[0xAA; 20]);
    assert_eq!(&bytes[102..122], &[4; 20]);
}

#[test]
fn encodings_are_deterministic_and_injective_on_samples() {
    let sender = SuiAddress([0xAA; 20]);
    let a = TransactionData::new_transfer(SuiAddress([1; 20]), oref(3, 5), sender, oref(4, 9));
    let a_again =
        TransactionData::new_transfer(SuiAddress([1; 20]), oref(3, 5), sender, oref(4, 9));
    let b = TransactionData::new_transfer(SuiAddress([2; 20]), oref(3, 5), sender, oref(4, 9));
    assert_eq!(a.to_bytes(), a_again.to_bytes());
    assert_ne!(a.to_bytes(), b.to_bytes());
}

#[test]
fn a_publish_encodes_its_modules_with_length_prefixes() {
    let sender = SuiAddress([0xAA; 20]);
    let data = TransactionData::new_module(sender, oref(4, 9), vec![vec![1, 2, 3]], 55);
    let bytes = data.to_bytes();
    // Kind tag, member tag (publish), module count, module length, module
    // bytes, budget, sender, gas reference.
    assert_eq!(bytes[0], 0);
    assert_eq!(bytes[1], 1);
    assert_eq!(&bytes[2..10], &[1, 0, 0, 0, 0, 0, 0, 0]);
    assert_eq!(&bytes[10..18], &[3, 0, 0, 0, 0, 0, 0, 0]);
    assert_eq!(&bytes[18..21], &[1, 2, 3]);
    assert_eq!(&bytes[21..29], &[55, 0, 0, 0, 0, 0, 0, 0]);
}
