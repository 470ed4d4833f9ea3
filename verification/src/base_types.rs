//! Fixed-width identifiers of the data model: account addresses, object
//! identifiers, version numbers, and the digests that bind contents to a
//! reference.

use vstd::prelude::*;

verus! {

/// Compare two byte arrays for equality, element by element.
pub fn bytes_eq<const N: usize>(a: &[u8; N], b: &[u8; N]) -> (r: bool)
    ensures
        r == (a@ == b@),
{
    let mut i: usize = 0;
    while i < N
        invariant
            0 <= i <= N,
            a@.len() == N,
            b@.len() == N,
            forall|j: int| 0 <= j < i ==> a@[j] == b@[j],
        decreases N - i,
    {
        if a[i] != b[i] {
            assert(a@ != b@);
            return false;
        }
        i += 1;
    }
    proof {
        assert(a@ =~= b@);
    }
    true
}

/// An account address: the public identity that owns objects and signs
/// transactions.
#[derive(Clone, Copy, Debug, Hash)]
pub struct SuiAddress(pub [u8; 20]);

impl View for SuiAddress {
    type V = Seq<u8>;

    open spec fn view(&self) -> Seq<u8> {
        self.0@
    }
}

impl PartialEq for SuiAddress {
    fn eq(&self, other: &SuiAddress) -> (r: bool) {
        bytes_eq(&self.0, &other.0)
    }
}

impl Eq for SuiAddress {}

impl vstd::std_specs::cmp::PartialEqSpecImpl for SuiAddress {
    open spec fn obeys_eq_spec() -> bool {
        true
    }

    open spec fn eq_spec(&self, other: &SuiAddress) -> bool {
        self.0@ == other.0@
    }
}

/// An object identifier: addresses and object ids share one width.
#[derive(Clone, Copy, Debug, Hash)]
pub struct ObjectID(pub [u8; 20]);

impl View for ObjectID {
    type V = Seq<u8>;

    open spec fn view(&self) -> Seq<u8> {
        self.0@
    }
}

impl PartialEq for ObjectID {
    fn eq(&self, other: &ObjectID) -> (r: bool) {
        bytes_eq(&self.0, &other.0)
    }
}

impl Eq for ObjectID {}

impl vstd::std_specs::cmp::PartialEqSpecImpl for ObjectID {
    open spec fn obeys_eq_spec() -> bool {
        true
    }

    open spec fn eq_spec(&self, other: &ObjectID) -> bool {
        self.0@ == other.0@
    }
}

impl ObjectID {
    /// The reserved all-zero identifier; never a real package or object.
    pub fn zero() -> (r: ObjectID)
        ensures
            r@ == Seq::<u8>::new(20, |i: int| 0u8),
    {
        let a = [0u8; 20];
        proof {
            assert(a@ =~= Seq::<u8>::new(20, |i: int| 0u8));
        }
        ObjectID(a)
    }

    pub open spec fn is_zero(self) -> bool {
        self@ == Seq::<u8>::new(20, |i: int| 0u8)
    }
}

/// A version number of an object; every mutation increments it.
#[derive(Clone, Copy, Debug, Hash, PartialEq, Eq, Structural)]
pub struct SequenceNumber(pub u64);

impl SequenceNumber {
    pub fn value(self) -> (r: u64)
        ensures
            r == self.0,
    {
        self.0
    }

    /// The next version.
    pub fn increment(self) -> (r: SequenceNumber)
        requires
            self.0 < u64::MAX,
        ensures
            r.0 == self.0 + 1,
    {
        SequenceNumber(self.0 + 1)
    }
}

/// The version every object carries when it first appears on chain.
pub open spec fn spec_object_start_version() -> SequenceNumber {
    SequenceNumber(1u64)
}

/// Executable twin of [`spec_object_start_version`].
pub fn object_start_version() -> (r: SequenceNumber)
    ensures
        r == spec_object_start_version(),
{
    SequenceNumber(1)
}

/// A digest of an object's contents at one version.
#[derive(Clone, Copy, Debug, Hash)]
pub struct ObjectDigest(pub [u8; 32]);

impl View for ObjectDigest {
    type V = Seq<u8>;

    open spec fn view(&self) -> Seq<u8> {
        self.0@
    }
}

impl PartialEq for ObjectDigest {
    fn eq(&self, other: &ObjectDigest) -> (r: bool) {
        bytes_eq(&self.0, &other.0)
    }
}

impl Eq for ObjectDigest {}

impl vstd::std_specs::cmp::PartialEqSpecImpl for ObjectDigest {
    open spec fn obeys_eq_spec() -> bool {
        true
    }

    open spec fn eq_spec(&self, other: &ObjectDigest) -> bool {
        self.0@ == other.0@
    }
}

/// The sentinel digest recorded for an object deleted by a transaction.
pub open spec fn spec_object_digest_deleted() -> Seq<u8> {
    Seq::<u8>::new(32, |i: int| 99u8)
}

/// The sentinel digest recorded for an object wrapped into another object.
pub open spec fn spec_object_digest_wrapped() -> Seq<u8> {
    Seq::<u8>::new(32, |i: int| 88u8)
}

impl ObjectDigest {
    /// Sentinel for a deleted object (see the parent-sync table).
    pub fn deleted() -> (r: ObjectDigest)
        ensures
            r@ == spec_object_digest_deleted(),
    {
        let a = [99u8; 32];
        proof {
            assert(a@ =~= spec_object_digest_deleted());
        }
        ObjectDigest(a)
    }

    /// Sentinel for an object wrapped into another object.
    pub fn wrapped() -> (r: ObjectDigest)
        ensures
            r@ == spec_object_digest_wrapped(),
    {
        let a = [88u8; 32];
        proof {
            assert(a@ =~= spec_object_digest_wrapped());
        }
        ObjectDigest(a)
    }

    pub open spec fn is_deleted(self) -> bool {
        self@ == spec_object_digest_deleted()
    }

    pub open spec fn is_wrapped(self) -> bool {
        self@ == spec_object_digest_wrapped()
    }
}

/// A digest that names a transaction: the content hash of its data.
#[derive(Clone, Copy, Debug, Hash)]
pub struct TransactionDigest(pub [u8; 32]);

impl View for TransactionDigest {
    type V = Seq<u8>;

    open spec fn view(&self) -> Seq<u8> {
        self.0@
    }
}

impl PartialEq for TransactionDigest {
    fn eq(&self, other: &TransactionDigest) -> (r: bool) {
        bytes_eq(&self.0, &other.0)
    }
}

impl Eq for TransactionDigest {}

impl vstd::std_specs::cmp::PartialEqSpecImpl for TransactionDigest {
    open spec fn obeys_eq_spec() -> bool {
        true
    }

    open spec fn eq_spec(&self, other: &TransactionDigest) -> bool {
        self.0@ == other.0@
    }
}

/// A version-bound pointer to an object: `(id, version, digest)`. The digest
/// authenticates the referenced contents without re-execution.
pub type ObjectRef = (ObjectID, SequenceNumber, ObjectDigest);

/// Equality of two object references, component by component.
pub fn object_ref_eq(a: &ObjectRef, b: &ObjectRef) -> (r: bool)
    ensures
        r == (a.0@ == b.0@ && a.1 == b.1 && a.2@ == b.2@),
{
    bytes_eq(&a.0.0, &b.0.0) && a.1.0 == b.1.0 && bytes_eq(&a.2.0, &b.2.0)
}

/// The name of an authority in the committee: its public verification key.
#[derive(Clone, Copy, Debug, Hash)]
pub struct AuthorityName(pub [u8; 32]);

impl View for AuthorityName {
    type V = Seq<u8>;

    open spec fn view(&self) -> Seq<u8> {
        self.0@
    }
}

impl PartialEq for AuthorityName {
    fn eq(&self, other: &AuthorityName) -> (r: bool) {
        bytes_eq(&self.0, &other.0)
    }
}

impl Eq for AuthorityName {}

impl vstd::std_specs::cmp::PartialEqSpecImpl for AuthorityName {
    open spec fn obeys_eq_spec() -> bool {
        true
    }

    open spec fn eq_spec(&self, other: &AuthorityName) -> bool {
        self.0@ == other.0@
    }
}

} // verus!
