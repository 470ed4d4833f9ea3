//! Objects of the chain: Move values and immutable Move packages, their
//! owners, and the version-bound references that name them.

use vstd::prelude::*;
use crate::base_types::{ObjectDigest, ObjectID, ObjectRef, SequenceNumber, SuiAddress, bytes_eq};
use crate::codec::{enc_bytes, enc_counted, enc_u64, enc_bytes_fn, encode_u64, encode_byte_field, encode_bytes_list, encode_fixed};
use crate::crypto::{sha3_digest, sha3_of};
use crate::error::{SuiError, SuiResult};
use crate::messages::{ObjectRefV, ref_view};
use crate::modules::vecs_as_seqs;

verus! {

/// Who holds an object: an address, another object, everyone under
/// consensus, or nobody (immutable).
#[derive(Clone, Copy, Debug)]
pub enum Owner {
    AddressOwner(SuiAddress),
    ObjectOwner(ObjectID),
    Shared,
    Immutable,
}

/// Mathematical model of [`Owner`].
#[verifier::ext_equal]
pub ghost enum OwnerV {
    AddressOwner(Seq<u8>),
    ObjectOwner(Seq<u8>),
    Shared,
    Immutable,
}

impl View for Owner {
    type V = OwnerV;

    open spec fn view(&self) -> OwnerV {
        match *self {
            Owner::AddressOwner(a) => OwnerV::AddressOwner(a@),
            Owner::ObjectOwner(o) => OwnerV::ObjectOwner(o@),
            Owner::Shared => OwnerV::Shared,
            Owner::Immutable => OwnerV::Immutable,
        }
    }
}

impl Owner {
    /// Whether two owners name the same holder.
    pub fn owner_eq(&self, other: &Owner) -> (r: bool)
        ensures
            r == (self@ == other@),
    {
        match (self, other) {
            (Owner::AddressOwner(a), Owner::AddressOwner(b)) => bytes_eq(&a.0, &b.0),
            (Owner::ObjectOwner(a), Owner::ObjectOwner(b)) => bytes_eq(&a.0, &b.0),
            (Owner::Shared, Owner::Shared) => true,
            (Owner::Immutable, Owner::Immutable) => true,
            _ => false,
        }
    }
}

/// The payload of an object: a typed Move value or a package of compiled
/// modules.
#[derive(Debug)]
pub enum ObjectData {
    /// A mutable Move value with its type tag and contents bytes.
    MoveValue { type_tag: Vec<u8>, contents: Vec<u8> },
    /// An immutable package of compiled modules.
    Package { modules: Vec<Vec<u8>> },
}

/// Mathematical model of [`ObjectData`].
#[verifier::ext_equal]
pub ghost enum ObjectDataV {
    MoveValue { type_tag: Seq<u8>, contents: Seq<u8> },
    Package { modules: Seq<Seq<u8>> },
}

impl View for ObjectData {
    type V = ObjectDataV;

    open spec fn view(&self) -> ObjectDataV {
        match self {
            ObjectData::MoveValue { type_tag, contents } => ObjectDataV::MoveValue {
                type_tag: type_tag@,
                contents: contents@,
            },
            ObjectData::Package { modules } => ObjectDataV::Package {
                modules: vecs_as_seqs(modules@),
            },
        }
    }
}

impl Clone for ObjectData {
    fn clone(&self) -> (r: Self)
        ensures
            r@ == self@,
    {
        match self {
            ObjectData::MoveValue { type_tag, contents } => ObjectData::MoveValue {
                type_tag: type_tag.clone(),
                contents: contents.clone(),
            },
            ObjectData::Package { modules } => {
                let r = ObjectData::Package { modules: modules.clone() };
                proof {
                    assert(r@ =~= self@);
                }
                r
            },
        }
    }
}

/// One object of the chain at one version.
#[derive(Debug)]
pub struct Object {
    pub id: ObjectID,
    pub version: SequenceNumber,
    pub owner: Owner,
    pub data: ObjectData,
    pub previous_transaction: crate::base_types::TransactionDigest,
}

/// Mathematical model of [`Object`].
#[verifier::ext_equal]
pub ghost struct ObjectV {
    pub id: Seq<u8>,
    pub version: u64,
    pub owner: OwnerV,
    pub data: ObjectDataV,
    pub previous_transaction: Seq<u8>,
}

impl View for Object {
    type V = ObjectV;

    open spec fn view(&self) -> ObjectV {
        ObjectV {
            id: self.id@,
            version: self.version.0,
            owner: self.owner@,
            data: self.data@,
            previous_transaction: self.previous_transaction@,
        }
    }
}

impl Clone for Object {
    fn clone(&self) -> (r: Self)
        ensures
            r@ == self@,
    {
        Object {
            id: self.id,
            version: self.version,
            owner: self.owner,
            data: self.data.clone(),
            previous_transaction: self.previous_transaction,
        }
    }
}

/// The canonical encoding of an object's model, for content digests.
pub open spec fn enc_object(o: ObjectV) -> Seq<u8> {
    o.id + (enc_u64(o.version) + (enc_owner(o.owner) + enc_object_data(o.data)))
}

/// The canonical encoding of an owner.
pub open spec fn enc_owner(o: OwnerV) -> Seq<u8> {
    match o {
        OwnerV::AddressOwner(a) => seq![0u8] + a,
        OwnerV::ObjectOwner(i) => seq![1u8] + i,
        OwnerV::Shared => seq![2u8],
        OwnerV::Immutable => seq![3u8],
    }
}

/// The canonical encoding of an object's payload.
pub open spec fn enc_object_data(d: ObjectDataV) -> Seq<u8> {
    match d {
        ObjectDataV::MoveValue { type_tag, contents } => seq![0u8] + (enc_bytes(type_tag)
            + enc_bytes(contents)),
        ObjectDataV::Package { modules } => seq![1u8] + enc_counted(modules, enc_bytes_fn()),
    }
}

/// The content digest of an object: the SHA3-256 hash of its canonical
/// encoding. An object at a given version has exactly one digest.
pub open spec fn spec_object_digest(o: ObjectV) -> Seq<u8> {
    sha3_of(enc_object(o))
}

/// The full version-bound reference of an object's model.
pub open spec fn spec_object_reference(o: ObjectV) -> ObjectRefV {
    ObjectRefV { id: o.id, version: o.version, digest: spec_object_digest(o) }
}

impl Object {
    /// Whether this object is an immutable package.
    pub fn is_package(&self) -> (r: bool)
        ensures
            r == (self@.data is Package),
    {
        match &self.data {
            ObjectData::Package { .. } => true,
            ObjectData::MoveValue { .. } => false,
        }
    }

    /// The Move type tag of a value object; a package has none.
    pub fn get_move_template_type(&self) -> (r: SuiResult<Vec<u8>>)
        ensures
            r is Ok <==> self@.data is MoveValue,
            r matches Ok(t) ==> t@ == self@.data->MoveValue_type_tag,
            r is Err ==> r->Err_0 is InconsistentGatewayResult,
    {
        match &self.data {
            ObjectData::MoveValue { type_tag, .. } => Ok(type_tag.clone()),
            ObjectData::Package { .. } => Err(
                SuiError::InconsistentGatewayResult {
                    error: "a package has no Move value type".to_owned(),
                },
            ),
        }
    }

    /// Compute the version-bound reference of this object, binding its
    /// contents through the digest.
    pub fn compute_object_reference(&self) -> (r: ObjectRef)
        ensures
            ref_view(r) == spec_object_reference(self@),
    {
        let mut bytes: Vec<u8> = Vec::new();
        encode_fixed(&self.id.0, &mut bytes);
        encode_u64(self.version.0, &mut bytes);
        match &self.owner {
            Owner::AddressOwner(a) => {
                bytes.push(0);
                encode_fixed(&a.0, &mut bytes);
            },
            Owner::ObjectOwner(i) => {
                bytes.push(1);
                encode_fixed(&i.0, &mut bytes);
            },
            Owner::Shared => {
                bytes.push(2);
            },
            Owner::Immutable => {
                bytes.push(3);
            },
        }
        proof {
            assert(bytes@ =~= self@.id + enc_u64(self@.version) + enc_owner(self@.owner));
        }
        match &self.data {
            ObjectData::MoveValue { type_tag, contents } => {
                bytes.push(0);
                encode_byte_field(type_tag, &mut bytes);
                encode_byte_field(contents, &mut bytes);
            },
            ObjectData::Package { modules } => {
                bytes.push(1);
                encode_bytes_list(modules, &mut bytes);
            },
        }
        proof {
            assert(bytes@ =~= enc_object(self@));
        }
        let digest = ObjectDigest(sha3_digest(&bytes));
        proof {
            assert(ref_view((self.id, self.version, digest)) =~= spec_object_reference(self@));
        }
        (self.id, self.version, digest)
    }
}

/// The result of looking an object up: it exists at a reference, it was
/// deleted or wrapped (latest reference is a tombstone), or it was never
/// seen.
#[derive(Debug)]
pub enum ObjectRead {
    NotExists(ObjectID),
    Exists(ObjectRef, Object),
    Deleted(ObjectRef),
}

/// How object layouts are requested; carried through unread.
#[derive(Clone, Copy, Debug, PartialEq, Eq, Structural, Hash)]
pub struct ObjectFormatOptions {
    pub include_types: bool,
}

} // verus!
