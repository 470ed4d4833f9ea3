//! The error taxonomy of the gateway. All failures before commit leave no
//! durable state; an execution-layer `Failure` status is not an error of the
//! gateway itself.

use vstd::prelude::*;
use crate::base_types::{ObjectID, TransactionDigest};

verus! {

/// Every failure the gateway can surface to a caller.
#[derive(Clone, Debug)]
pub enum SuiError {
    /// A client or authority signature did not verify.
    InvalidSignature { error: String },
    /// Two entries of a transaction's input set share an object id.
    DuplicateObjectRefInput,
    /// An owned input object is already locked to a different transaction.
    ObjectLockConflict { pending_transaction: TransactionDigest },
    /// An input object is not present in the store.
    ObjectNotFound { object_id: ObjectID },
    /// A package named by a publish transaction is not present.
    DependentPackageNotFound { package_id: ObjectID },
    /// An input reference names a version or digest the store disagrees with.
    InvalidObjectReference { object_id: ObjectID },
    /// The transaction sender does not own an owned input object.
    IncorrectSigner,
    /// The gas payment does not cover the declared budget floor.
    InsufficientGas { error: String },
    /// An authority appears twice in one certificate.
    CertificateAuthorityReuse,
    /// A signer carries no voting weight in the committee.
    UnknownSigner,
    /// The collected voting weight is below the quorum threshold.
    CertificateRequiresQuorum,
    /// The gateway's understanding of an executed result was contradicted.
    InconsistentGatewayResult { error: String },
    /// A batch transaction holds a member that batches cannot carry.
    InvalidBatchTransaction { error: String },
}

/// Shorthand for results that fail with [`SuiError`].
pub type SuiResult<T> = Result<T, SuiError>;

} // verus!
