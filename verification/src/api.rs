//! Request and response messages exchanged with authorities.

use vstd::prelude::*;
use crate::base_types::{ObjectRef, SequenceNumber, SuiAddress, TransactionDigest, ObjectID};
use crate::effects::TransactionEffects;
use crate::messages::{AuthoritySignedData, CertifiedTransaction, SignedTransaction};
use crate::object::{Object, ObjectFormatOptions};

verus! {

/// A sequence number for batches of transactions.
pub type TxSequenceNumber = u64;

/// Request the objects an account owns.
#[derive(Clone, Copy, Debug)]
pub struct AccountInfoRequest {
    pub account: SuiAddress,
}

impl From<SuiAddress> for AccountInfoRequest {
    fn from(account: SuiAddress) -> (r: Self) {
        AccountInfoRequest { account }
    }
}

impl vstd::std_specs::convert::FromSpecImpl<SuiAddress> for AccountInfoRequest {
    open spec fn obeys_from_spec() -> bool {
        true
    }

    open spec fn from_spec(account: SuiAddress) -> Self {
        AccountInfoRequest { account }
    }
}

/// Request historic batches and their transactions, from the batch that
/// includes `start` until one at or past `end`.
#[derive(Clone, Copy, Debug)]
pub struct BatchInfoRequest {
    pub start: TxSequenceNumber,
    pub end: TxSequenceNumber,
}

/// How object information is requested: the latest state, optionally with a
/// layout, or the state at a specific version.
#[derive(Clone, Copy, Debug)]
pub enum ObjectInfoRequestKind {
    LatestObjectInfo(Option<ObjectFormatOptions>),
    PastObjectInfo(SequenceNumber),
}

/// A request for information about an object, and optionally its parent
/// certificate at a specific version.
#[derive(Clone, Copy, Debug)]
pub struct ObjectInfoRequest {
    pub object_id: ObjectID,
    pub request_kind: ObjectInfoRequestKind,
}

impl ObjectInfoRequest {
    /// Request the object state at a past version.
    pub fn past_object_info_request(object_id: ObjectID, version: SequenceNumber) -> (r: Self)
        ensures
            r.object_id == object_id,
            r.request_kind == ObjectInfoRequestKind::PastObjectInfo(version),
    {
        ObjectInfoRequest { object_id, request_kind: ObjectInfoRequestKind::PastObjectInfo(version) }
    }

    /// Request the latest object state, with a layout when asked for.
    pub fn latest_object_info_request(
        object_id: ObjectID,
        layout: Option<ObjectFormatOptions>,
    ) -> (r: Self)
        ensures
            r.object_id == object_id,
            r.request_kind == ObjectInfoRequestKind::LatestObjectInfo(layout),
    {
        ObjectInfoRequest { object_id, request_kind: ObjectInfoRequestKind::LatestObjectInfo(layout) }
    }
}

/// The object references an account owns, as one authority sees them.
#[derive(Debug)]
pub struct AccountInfoResponse {
    pub object_ids: Vec<ObjectRef>,
    pub owner: SuiAddress,
}

/// The value of an object at one authority, with its current lock.
#[derive(Debug)]
pub struct ObjectResponse {
    pub object: Object,
    pub lock: Option<SignedTransaction>,
}

/// Information about the latest state of an object, and the certificate
/// that produced the requested version.
#[derive(Debug)]
pub struct ObjectInfoResponse {
    pub parent_certificate: Option<CertifiedTransaction>,
    pub requested_object_reference: Option<ObjectRef>,
    pub object_and_lock: Option<ObjectResponse>,
}

impl ObjectInfoResponse {
    /// The object carried in this response, if any.
    pub fn object(&self) -> (r: Option<&Object>)
        ensures
            (r is Some) == (self.object_and_lock is Some),
            r matches Some(o) ==> o@ == self.object_and_lock->Some_0.object@,
    {
        match &self.object_and_lock {
            Some(resp) => Some(&resp.object),
            None => None,
        }
    }
}

/// Request everything known about one transaction.
#[derive(Clone, Copy, Debug)]
pub struct TransactionInfoRequest {
    pub transaction_digest: TransactionDigest,
}

impl From<TransactionDigest> for TransactionInfoRequest {
    fn from(transaction_digest: TransactionDigest) -> (r: Self) {
        TransactionInfoRequest { transaction_digest }
    }
}

impl vstd::std_specs::convert::FromSpecImpl<TransactionDigest> for TransactionInfoRequest {
    open spec fn obeys_from_spec() -> bool {
        true
    }

    open spec fn from_spec(transaction_digest: TransactionDigest) -> Self {
        TransactionInfoRequest { transaction_digest }
    }
}

/// Everything one authority knows about a transaction.
#[derive(Debug)]
pub struct TransactionInfoResponse {
    pub signed_transaction: Option<SignedTransaction>,
    pub certified_transaction: Option<CertifiedTransaction>,
    pub signed_effects: Option<AuthoritySignedData<TransactionEffects>>,
}

/// A message of the consensus layer carrying an ordered payload.
#[derive(Debug)]
pub struct ConsensusOutput {
    pub message: Vec<u8>,
    pub sequencer_number: SequenceNumber,
}

/// A request to resend consensus output from a sequence number.
#[derive(Clone, Copy, Debug)]
pub struct ConsensusSync {
    pub sequencer_number: SequenceNumber,
}

} // verus!
