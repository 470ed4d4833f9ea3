//! The transaction data model: the typed transaction kinds, the data a
//! client signs, the envelopes that carry client and authority signatures,
//! input-object derivation with duplicate detection, and execution effects.

use vstd::prelude::*;
use crate::base_types::{
    bytes_eq, ObjectID, ObjectRef, SequenceNumber, SuiAddress, AuthorityName,
    object_start_version, spec_object_start_version,
};
use crate::crypto::{AuthoritySignature, Signature};
use crate::error::{SuiError, SuiResult};
use crate::modules::{vecs_as_seqs, ids_as_seqs, spec_publish_deps, publish_dep_addresses};

verus! {

/// Mathematical model of an object reference.
#[verifier::ext_equal]
pub ghost struct ObjectRefV {
    pub id: Seq<u8>,
    pub version: u64,
    pub digest: Seq<u8>,
}

/// The model of an object reference value.
pub open spec fn ref_view(r: ObjectRef) -> ObjectRefV {
    ObjectRefV { id: r.0@, version: r.1.0, digest: r.2@ }
}

/// The models of a sequence of object references.
pub open spec fn refs_view(s: Seq<ObjectRef>) -> Seq<ObjectRefV> {
    s.map_values(|r: ObjectRef| ref_view(r))
}

/// The models of a sequence of object identifiers.
pub open spec fn object_ids_view(s: Seq<ObjectID>) -> Seq<Seq<u8>> {
    s.map_values(|o: ObjectID| o@)
}

/// Copy a vector of plain-copy values.
pub fn copy_vec<T: Copy>(v: &Vec<T>) -> (r: Vec<T>)
    ensures
        r@ == v@,
{
    let mut r: Vec<T> = Vec::new();
    let mut i: usize = 0;
    while i < v.len()
        invariant
            0 <= i <= v@.len(),
            r@ == v@.subrange(0, i as int),
        decreases v@.len() - i,
    {
        r.push(v[i]);
        i += 1;
        proof {
            assert(r@ =~= v@.subrange(0, i as int));
        }
    }
    proof {
        assert(r@ =~= v@);
    }
    r
}

/// Send an owned object to a new address owner.
#[derive(Debug)]
pub struct Transfer {
    pub recipient: SuiAddress,
    pub object_ref: ObjectRef,
}

/// Mathematical model of [`Transfer`].
#[verifier::ext_equal]
pub ghost struct TransferV {
    pub recipient: Seq<u8>,
    pub object_ref: ObjectRefV,
}

impl View for Transfer {
    type V = TransferV;

    open spec fn view(&self) -> TransferV {
        TransferV { recipient: self.recipient@, object_ref: ref_view(self.object_ref) }
    }
}

impl Clone for Transfer {
    fn clone(&self) -> (r: Self)
        ensures
            r@ == self@,
    {
        Transfer { recipient: self.recipient, object_ref: self.object_ref }
    }
}

/// Call a function in a published Move module.
///
/// The package is referenced by a full object reference, not just an id, so
/// a client can validate the package used through its digest without
/// re-executing on a quorum of authorities.
#[derive(Debug)]
pub struct MoveCall {
    pub package: ObjectRef,
    pub module: Vec<u8>,
    pub function: Vec<u8>,
    pub type_arguments: Vec<Vec<u8>>,
    pub object_arguments: Vec<ObjectRef>,
    pub shared_object_arguments: Vec<ObjectID>,
    pub pure_arguments: Vec<Vec<u8>>,
    pub gas_budget: u64,
}

/// Mathematical model of [`MoveCall`].
#[verifier::ext_equal]
pub ghost struct MoveCallV {
    pub package: ObjectRefV,
    pub module: Seq<u8>,
    pub function: Seq<u8>,
    pub type_arguments: Seq<Seq<u8>>,
    pub object_arguments: Seq<ObjectRefV>,
    pub shared_object_arguments: Seq<Seq<u8>>,
    pub pure_arguments: Seq<Seq<u8>>,
    pub gas_budget: u64,
}

impl View for MoveCall {
    type V = MoveCallV;

    open spec fn view(&self) -> MoveCallV {
        MoveCallV {
            package: ref_view(self.package),
            module: self.module@,
            function: self.function@,
            type_arguments: vecs_as_seqs(self.type_arguments@),
            object_arguments: refs_view(self.object_arguments@),
            shared_object_arguments: object_ids_view(self.shared_object_arguments@),
            pure_arguments: vecs_as_seqs(self.pure_arguments@),
            gas_budget: self.gas_budget,
        }
    }
}

impl Clone for MoveCall {
    fn clone(&self) -> (r: Self)
        ensures
            r@ == self@,
    {
        let r = MoveCall {
            package: self.package,
            module: self.module.clone(),
            function: self.function.clone(),
            type_arguments: self.type_arguments.clone(),
            object_arguments: copy_vec(&self.object_arguments),
            shared_object_arguments: copy_vec(&self.shared_object_arguments),
            pure_arguments: self.pure_arguments.clone(),
            gas_budget: self.gas_budget,
        };
        proof {
            assert(vecs_as_seqs(r.type_arguments@) =~= vecs_as_seqs(self.type_arguments@));
            assert(vecs_as_seqs(r.pure_arguments@) =~= vecs_as_seqs(self.pure_arguments@));
            assert(r@ =~= self@);
        }
        r
    }
}

/// Publish a set of compiled Move modules as a new package.
#[derive(Debug)]
pub struct MoveModulePublish {
    pub modules: Vec<Vec<u8>>,
    pub gas_budget: u64,
}

/// Mathematical model of [`MoveModulePublish`].
#[verifier::ext_equal]
pub ghost struct MoveModulePublishV {
    pub modules: Seq<Seq<u8>>,
    pub gas_budget: u64,
}

impl View for MoveModulePublish {
    type V = MoveModulePublishV;

    open spec fn view(&self) -> MoveModulePublishV {
        MoveModulePublishV { modules: vecs_as_seqs(self.modules@), gas_budget: self.gas_budget }
    }
}

impl Clone for MoveModulePublish {
    fn clone(&self) -> (r: Self)
        ensures
            r@ == self@,
    {
        let r = MoveModulePublish { modules: self.modules.clone(), gas_budget: self.gas_budget };
        proof {
            assert(vecs_as_seqs(r.modules@) =~= vecs_as_seqs(self.modules@));
            assert(r@ =~= self@);
        }
        r
    }
}

/// One self-contained transaction.
#[derive(Debug)]
pub enum SingleTransactionKind {
    /// Initiate an object transfer between addresses.
    Transfer(Transfer),
    /// Publish a new Move package.
    Publish(MoveModulePublish),
    /// Call a function in a published Move module.
    Call(MoveCall),
}

/// Mathematical model of [`SingleTransactionKind`].
#[verifier::ext_equal]
pub ghost enum SingleTransactionKindV {
    Transfer(TransferV),
    Publish(MoveModulePublishV),
    Call(MoveCallV),
}

impl View for SingleTransactionKind {
    type V = SingleTransactionKindV;

    open spec fn view(&self) -> SingleTransactionKindV {
        match self {
            SingleTransactionKind::Transfer(t) => SingleTransactionKindV::Transfer(t@),
            SingleTransactionKind::Publish(p) => SingleTransactionKindV::Publish(p@),
            SingleTransactionKind::Call(c) => SingleTransactionKindV::Call(c@),
        }
    }
}

impl Clone for SingleTransactionKind {
    fn clone(&self) -> (r: Self)
        ensures
            r@ == self@,
    {
        match self {
            SingleTransactionKind::Transfer(t) => SingleTransactionKind::Transfer(t.clone()),
            SingleTransactionKind::Publish(p) => SingleTransactionKind::Publish(p.clone()),
            SingleTransactionKind::Call(c) => SingleTransactionKind::Call(c.clone()),
        }
    }
}

/// The models of a sequence of single transactions.
pub open spec fn singles_view(s: Seq<SingleTransactionKind>) -> Seq<SingleTransactionKindV> {
    s.map_values(|k: SingleTransactionKind| k@)
}

/// A single transaction or a batch of them.
#[derive(Debug)]
pub enum TransactionKind {
    /// A single transaction.
    Single(SingleTransactionKind),
    /// A batch of single transactions.
    Batch(Vec<SingleTransactionKind>),
}

/// Mathematical model of [`TransactionKind`].
#[verifier::ext_equal]
pub ghost enum TransactionKindV {
    Single(SingleTransactionKindV),
    Batch(Seq<SingleTransactionKindV>),
}

impl View for TransactionKind {
    type V = TransactionKindV;

    open spec fn view(&self) -> TransactionKindV {
        match self {
            TransactionKind::Single(s) => TransactionKindV::Single(s@),
            TransactionKind::Batch(b) => TransactionKindV::Batch(singles_view(b@)),
        }
    }
}

impl Clone for TransactionKind {
    fn clone(&self) -> (r: Self)
        ensures
            r@ == self@,
    {
        match self {
            TransactionKind::Single(s) => TransactionKind::Single(s.clone()),
            TransactionKind::Batch(b) => {
                let mut out: Vec<SingleTransactionKind> = Vec::new();
                let mut i: usize = 0;
                while i < b.len()
                    invariant
                        0 <= i <= b@.len(),
                        out@.len() == i,
                        forall|j: int| 0 <= j < i ==> out@[j]@ == b@[j]@,
                    decreases b@.len() - i,
                {
                    out.push(b[i].clone());
                    i += 1;
                }
                proof {
                    assert(singles_view(out@) =~= singles_view(b@));
                }
                TransactionKind::Batch(out)
            },
        }
    }
}

/// What a client signs: the transaction kind, the sender, and the owned
/// object that pays for gas.
#[derive(Debug)]
pub struct TransactionData {
    pub kind: TransactionKind,
    sender: SuiAddress,
    gas_payment: ObjectRef,
}

/// Mathematical model of [`TransactionData`].
#[verifier::ext_equal]
pub ghost struct TransactionDataV {
    pub kind: TransactionKindV,
    pub sender: Seq<u8>,
    pub gas_payment: ObjectRefV,
}

impl View for TransactionData {
    type V = TransactionDataV;

    closed spec fn view(&self) -> TransactionDataV {
        TransactionDataV {
            kind: self.kind@,
            sender: self.sender@,
            gas_payment: ref_view(self.gas_payment),
        }
    }
}

impl Clone for TransactionData {
    fn clone(&self) -> (r: Self)
        ensures
            r@ == self@,
    {
        TransactionData {
            kind: self.kind.clone(),
            sender: self.sender,
            gas_payment: self.gas_payment,
        }
    }
}

impl TransactionData {
    pub fn new(kind: TransactionKind, sender: SuiAddress, gas_payment: ObjectRef) -> (r: Self)
        ensures
            r@.kind == kind@,
            r@.sender == sender@,
            r@.gas_payment == ref_view(gas_payment),
    {
        TransactionData { kind, sender, gas_payment }
    }

    pub fn new_move_call(
        sender: SuiAddress,
        package: ObjectRef,
        module: Vec<u8>,
        function: Vec<u8>,
        type_arguments: Vec<Vec<u8>>,
        gas_payment: ObjectRef,
        object_arguments: Vec<ObjectRef>,
        shared_object_arguments: Vec<ObjectID>,
        pure_arguments: Vec<Vec<u8>>,
        gas_budget: u64,
    ) -> (r: Self)
        ensures
            r@.sender == sender@,
            r@.gas_payment == ref_view(gas_payment),
            r@.kind == TransactionKindV::Single(
                SingleTransactionKindV::Call(
                    MoveCallV {
                        package: ref_view(package),
                        module: module@,
                        function: function@,
                        type_arguments: vecs_as_seqs(type_arguments@),
                        object_arguments: refs_view(object_arguments@),
                        shared_object_arguments: object_ids_view(shared_object_arguments@),
                        pure_arguments: vecs_as_seqs(pure_arguments@),
                        gas_budget: gas_budget,
                    },
                ),
            ),
    {
        let kind = TransactionKind::Single(
            SingleTransactionKind::Call(
                MoveCall {
                    package,
                    module,
                    function,
                    type_arguments,
                    object_arguments,
                    shared_object_arguments,
                    pure_arguments,
                    gas_budget,
                },
            ),
        );
        Self::new(kind, sender, gas_payment)
    }

    pub fn new_transfer(
        recipient: SuiAddress,
        object_ref: ObjectRef,
        sender: SuiAddress,
        gas_payment: ObjectRef,
    ) -> (r: Self)
        ensures
            r@.sender == sender@,
            r@.gas_payment == ref_view(gas_payment),
            r@.kind == TransactionKindV::Single(
                SingleTransactionKindV::Transfer(
                    TransferV { recipient: recipient@, object_ref: ref_view(object_ref) },
                ),
            ),
    {
        let kind = TransactionKind::Single(
            SingleTransactionKind::Transfer(Transfer { recipient, object_ref }),
        );
        Self::new(kind, sender, gas_payment)
    }

    pub fn new_module(
        sender: SuiAddress,
        gas_payment: ObjectRef,
        modules: Vec<Vec<u8>>,
        gas_budget: u64,
    ) -> (r: Self)
        ensures
            r@.sender == sender@,
            r@.gas_payment == ref_view(gas_payment),
            r@.kind == TransactionKindV::Single(
                SingleTransactionKindV::Publish(
                    MoveModulePublishV { modules: vecs_as_seqs(modules@), gas_budget: gas_budget },
                ),
            ),
    {
        let kind = TransactionKind::Single(
            SingleTransactionKind::Publish(MoveModulePublish { modules, gas_budget }),
        );
        Self::new(kind, sender, gas_payment)
    }

    /// The transaction kind as a short static name, variant only.
    pub fn kind_as_str(&self) -> (r: &'static str)
        ensures
            self@.kind is Single ==> r@ == "Single"@,
            self@.kind is Batch ==> r@ == "Batch"@,
    {
        proof {
            reveal_strlit("Single");
            reveal_strlit("Batch");
        }
        match &self.kind {
            TransactionKind::Single(_) => "Single",
            TransactionKind::Batch(_) => "Batch",
        }
    }

    /// The transaction kind.
    pub fn kind(&self) -> (r: &TransactionKind)
        ensures
            r@ == self@.kind,
    {
        &self.kind
    }

    /// The gas payment reference.
    pub fn gas(&self) -> (r: ObjectRef)
        ensures
            ref_view(r) == self@.gas_payment,
    {
        self.gas_payment
    }

    /// The sender that signs this data.
    pub fn signer(&self) -> (r: SuiAddress)
        ensures
            r@ == self@.sender,
    {
        self.sender
    }
}


/// Mathematical model of an input-object kind.
#[verifier::ext_equal]
pub ghost enum InputKindV {
    Package(Seq<u8>),
    Owned(ObjectRefV),
    Shared(Seq<u8>),
}

/// The object id an input kind names.
pub open spec fn spec_kind_id(k: InputKindV) -> Seq<u8> {
    match k {
        InputKindV::Package(id) => id,
        InputKindV::Owned(r) => r.id,
        InputKindV::Shared(id) => id,
    }
}

/// The kinds of input object a transaction reads or mutates. A package is
/// named by id only (packages never change on chain); an owned object by a
/// full version-bound reference; a shared object by id under consensus
/// ordering.
#[derive(Clone, Copy, Debug)]
pub enum InputObjectKind {
    MovePackage(ObjectID),
    OwnedMoveObject(ObjectRef),
    SharedMoveObject(ObjectID),
}

impl View for InputObjectKind {
    type V = InputKindV;

    open spec fn view(&self) -> InputKindV {
        match *self {
            InputObjectKind::MovePackage(id) => InputKindV::Package(id@),
            InputObjectKind::OwnedMoveObject(r) => InputKindV::Owned(ref_view(r)),
            InputObjectKind::SharedMoveObject(id) => InputKindV::Shared(id@),
        }
    }
}

/// The models of a sequence of input kinds.
pub open spec fn kinds_view(s: Seq<InputObjectKind>) -> Seq<InputKindV> {
    s.map_values(|k: InputObjectKind| k@)
}

/// The ids of a sequence of input kinds.
pub open spec fn spec_kind_ids(s: Seq<InputKindV>) -> Seq<Seq<u8>> {
    s.map_values(|k: InputKindV| spec_kind_id(k))
}

/// No two entries are the same byte string.
pub open spec fn unique_seqs(s: Seq<Seq<u8>>) -> bool {
    forall|i: int, j: int| 0 <= i < j < s.len() ==> s[i] != s[j]
}

impl InputObjectKind {
    pub fn object_id(&self) -> (r: ObjectID)
        ensures
            r@ == spec_kind_id(self@),
    {
        match self {
            InputObjectKind::MovePackage(id) => *id,
            InputObjectKind::OwnedMoveObject((id, _, _)) => *id,
            InputObjectKind::SharedMoveObject(id) => *id,
        }
    }

    /// The version this input is read at. Packages and shared objects are
    /// reported at the start version for uniformity.
    pub fn version(&self) -> (r: SequenceNumber)
        ensures
            match *self {
                InputObjectKind::MovePackage(_) => r == spec_object_start_version(),
                InputObjectKind::OwnedMoveObject((_, v, _)) => r == v,
                InputObjectKind::SharedMoveObject(_) => r == spec_object_start_version(),
            },
    {
        match self {
            InputObjectKind::MovePackage(_) => object_start_version(),
            InputObjectKind::OwnedMoveObject((_, version, _)) => *version,
            InputObjectKind::SharedMoveObject(_) => object_start_version(),
        }
    }

    /// The error reported when this input cannot be found.
    pub fn object_not_found_error(&self) -> (r: SuiError)
        ensures
            match *self {
                InputObjectKind::MovePackage(id) => r == (SuiError::DependentPackageNotFound {
                    package_id: id,
                }),
                InputObjectKind::OwnedMoveObject((id, _, _)) => r == (SuiError::ObjectNotFound {
                    object_id: id,
                }),
                InputObjectKind::SharedMoveObject(id) => r == (SuiError::ObjectNotFound {
                    object_id: id,
                }),
            },
    {
        match *self {
            InputObjectKind::MovePackage(package_id) => SuiError::DependentPackageNotFound {
                package_id,
            },
            InputObjectKind::OwnedMoveObject((object_id, _, _)) => SuiError::ObjectNotFound {
                object_id,
            },
            InputObjectKind::SharedMoveObject(object_id) => SuiError::ObjectNotFound { object_id },
        }
    }
}

/// The input kinds one single transaction reads, in order: for a transfer
/// the one owned object; for a call the owned arguments, the shared
/// arguments, then the package; for a publish the dependent packages named
/// by its modules' handles.
pub open spec fn spec_single_input_kinds(k: SingleTransactionKindV) -> Seq<InputKindV> {
    match k {
        SingleTransactionKindV::Transfer(t) => seq![InputKindV::Owned(t.object_ref)],
        SingleTransactionKindV::Call(c) => c.object_arguments.map_values(
            |r: ObjectRefV| InputKindV::Owned(r),
        ) + c.shared_object_arguments.map_values(|id: Seq<u8>| InputKindV::Shared(id)) + seq![
            InputKindV::Package(c.package.id),
        ],
        SingleTransactionKindV::Publish(p) => spec_publish_deps(p.modules).map_values(
            |a: Seq<u8>| InputKindV::Package(a),
        ),
    }
}

/// The concatenated input kinds of a batch's members.
pub open spec fn spec_batch_input_kinds(b: Seq<SingleTransactionKindV>) -> Seq<InputKindV>
    decreases b.len(),
{
    if b.len() == 0 {
        Seq::empty()
    } else {
        spec_batch_input_kinds(b.drop_last()) + spec_single_input_kinds(b.last())
    }
}

/// The full input set of a transaction: its members' inputs followed by the
/// gas payment as an owned object.
pub open spec fn spec_tx_input_kinds(d: TransactionDataV) -> Seq<InputKindV> {
    (match d.kind {
        TransactionKindV::Single(k) => spec_single_input_kinds(k),
        TransactionKindV::Batch(b) => spec_batch_input_kinds(b),
    }) + seq![InputKindV::Owned(d.gas_payment)]
}

/// Whether a batch member publishes a package.
pub open spec fn spec_has_publish(b: Seq<SingleTransactionKindV>) -> bool {
    exists|i: int| 0 <= i < b.len() && b[i] is Publish
}

/// Whether the kind is a batch with a publish member, which batches cannot
/// carry.
pub open spec fn spec_batch_has_publish(k: TransactionKindV) -> bool {
    match k {
        TransactionKindV::Single(_) => false,
        TransactionKindV::Batch(b) => spec_has_publish(b),
    }
}

/// Whether a single transaction reads any shared object.
pub open spec fn spec_single_contains_shared(k: SingleTransactionKindV) -> bool {
    match k {
        SingleTransactionKindV::Call(c) => c.shared_object_arguments.len() > 0,
        _ => false,
    }
}

/// Whether a transaction reads any shared object.
pub open spec fn spec_tx_contains_shared(k: TransactionKindV) -> bool {
    match k {
        TransactionKindV::Single(s) => spec_single_contains_shared(s),
        TransactionKindV::Batch(b) => exists|i: int|
            0 <= i < b.len() && spec_single_contains_shared(b[i]),
    }
}

/// The shared-object ids one single transaction reads.
pub open spec fn spec_single_shared_ids(k: SingleTransactionKindV) -> Seq<Seq<u8>> {
    match k {
        SingleTransactionKindV::Call(c) => c.shared_object_arguments,
        _ => Seq::empty(),
    }
}

/// The shared-object ids of a batch, concatenated in member order.
pub open spec fn spec_batch_shared_ids(b: Seq<SingleTransactionKindV>) -> Seq<Seq<u8>>
    decreases b.len(),
{
    if b.len() == 0 {
        Seq::empty()
    } else {
        spec_batch_shared_ids(b.drop_last()) + spec_single_shared_ids(b.last())
    }
}

/// The shared-object ids a transaction reads.
pub open spec fn spec_tx_shared_ids(k: TransactionKindV) -> Seq<Seq<u8>> {
    match k {
        TransactionKindV::Single(s) => spec_single_shared_ids(s),
        TransactionKindV::Batch(b) => spec_batch_shared_ids(b),
    }
}

/// The members of a transaction kind: the one single, or the batch.
pub open spec fn spec_singles_of(k: TransactionKindV) -> Seq<SingleTransactionKindV> {
    match k {
        TransactionKindV::Single(s) => seq![s],
        TransactionKindV::Batch(b) => b,
    }
}

/// Whether every id in a vector of input kinds is distinct.
fn check_unique_ids(v: &Vec<InputObjectKind>) -> (r: bool)
    ensures
        r == unique_seqs(spec_kind_ids(kinds_view(v@))),
{
    let ghost ids = spec_kind_ids(kinds_view(v@));
    let mut i: usize = 0;
    while i < v.len()
        invariant
            0 <= i <= v@.len(),
            ids == spec_kind_ids(kinds_view(v@)),
            forall|a: int, b: int| 0 <= a < b < v@.len() && a < i ==> ids[a] != ids[b],
        decreases v@.len() - i,
    {
        let idi = v[i].object_id();
        let mut j: usize = i + 1;
        while j < v.len()
            invariant
                0 <= i < j <= v@.len(),
                ids == spec_kind_ids(kinds_view(v@)),
                idi@ == ids[i as int],
                forall|a: int, b: int| 0 <= a < b < v@.len() && a < i ==> ids[a] != ids[b],
                forall|b: int| i < b < j ==> ids[i as int] != ids[b],
            decreases v@.len() - j,
        {
            let idj = v[j].object_id();
            if bytes_eq(&idi.0, &idj.0) {
                proof {
                    assert(ids[i as int] == ids[j as int]);
                }
                return false;
            }
            j += 1;
        }
        i += 1;
    }
    true
}

impl SingleTransactionKind {
    /// Whether this transaction reads any shared object.
    pub fn contains_shared_object(&self) -> (r: bool)
        ensures
            r == spec_single_contains_shared(self@),
    {
        match self {
            SingleTransactionKind::Transfer(..) => false,
            SingleTransactionKind::Call(c) => c.shared_object_arguments.len() > 0,
            SingleTransactionKind::Publish(..) => false,
        }
    }

    /// The shared-object ids this transaction reads.
    pub fn shared_input_objects(&self) -> (r: Vec<ObjectID>)
        ensures
            object_ids_view(r@) == spec_single_shared_ids(self@),
    {
        match self {
            SingleTransactionKind::Call(c) => {
                let r = copy_vec(&c.shared_object_arguments);
                proof {
                    assert(object_ids_view(r@) =~= spec_single_shared_ids(self@));
                }
                r
            },
            _ => {
                let r: Vec<ObjectID> = Vec::new();
                proof {
                    assert(object_ids_view(r@) =~= Seq::<Seq<u8>>::empty());
                }
                r
            },
        }
    }

    /// How many entries this transaction contributes to the input set.
    /// Publish inputs are derived from module bytes and handled separately,
    /// so a publish reports zero here.
    pub fn input_object_count(&self) -> (r: usize)
        requires
            self matches SingleTransactionKind::Call(c) ==> 1 + c.object_arguments@.len()
                + c.shared_object_arguments@.len() <= usize::MAX,
        ensures
            match self@ {
                SingleTransactionKindV::Transfer(_) => r == 1,
                SingleTransactionKindV::Call(c) => r == 1 + c.object_arguments.len()
                    + c.shared_object_arguments.len(),
                SingleTransactionKindV::Publish(_) => r == 0,
            },
    {
        match self {
            SingleTransactionKind::Transfer(_) => 1,
            SingleTransactionKind::Call(c) => 1 + c.object_arguments.len()
                + c.shared_object_arguments.len(),
            SingleTransactionKind::Publish(_) => 0,
        }
    }

    /// The metadata of each input object of this transaction, rejecting a
    /// set with two entries that share an object id.
    pub fn input_objects(&self) -> (r: SuiResult<Vec<InputObjectKind>>)
        ensures
            r is Ok <==> unique_seqs(spec_kind_ids(spec_single_input_kinds(self@))),
            r matches Ok(v) ==> kinds_view(v@) == spec_single_input_kinds(self@),
            r matches Err(e) ==> e is DuplicateObjectRefInput,
    {
        let mut inputs: Vec<InputObjectKind> = Vec::new();
        push_single_inputs(self, &mut inputs);
        proof {
            assert(kinds_view(Seq::<InputObjectKind>::empty()) =~= Seq::<InputKindV>::empty());
            assert(Seq::<InputKindV>::empty() + spec_single_input_kinds(self@) =~=
                spec_single_input_kinds(self@));
        }
        if check_unique_ids(&inputs) {
            Ok(inputs)
        } else {
            Err(SuiError::DuplicateObjectRefInput)
        }
    }
}

/// Append the input kinds of one single transaction to a vector.
fn push_single_inputs(k: &SingleTransactionKind, out: &mut Vec<InputObjectKind>)
    ensures
        kinds_view(final(out)@) == kinds_view(old(out)@) + spec_single_input_kinds(k@),
{
    let ghost base = kinds_view(out@);
    match k {
        SingleTransactionKind::Transfer(t) => {
            let elem = InputObjectKind::OwnedMoveObject(t.object_ref);
            let ghost prev = out@;
            out.push(elem);
            proof {
                assert(kinds_view(prev.push(elem)) =~= kinds_view(prev).push(elem@));
                assert(base.push(elem@) =~= base + spec_single_input_kinds(k@));
            }
        },
        SingleTransactionKind::Call(c) => {
            let ghost owned = c@.object_arguments.map_values(|r: ObjectRefV| InputKindV::Owned(r));
            let ghost shared = c@.shared_object_arguments.map_values(
                |id: Seq<u8>| InputKindV::Shared(id),
            );
            let na = c.object_arguments.len();
            let ns = c.shared_object_arguments.len();
            let mut i: usize = 0;
            proof {
                assert(kinds_view(out@) =~= base + owned.take(0));
            }
            while i < na
                invariant
                    0 <= i <= na,
                    na == c.object_arguments@.len(),
                    owned == c@.object_arguments.map_values(
                        |r: ObjectRefV| InputKindV::Owned(r),
                    ),
                    owned.len() == na,
                    kinds_view(out@) == base + owned.take(i as int),
                decreases na - i,
            {
                let elem = InputObjectKind::OwnedMoveObject(c.object_arguments[i]);
                let ghost prev = out@;
                out.push(elem);
                i += 1;
                proof {
                    assert(kinds_view(prev.push(elem)) =~= kinds_view(prev).push(elem@));
                    assert(owned[i - 1] == elem@);
                    assert((base + owned.take(i - 1)).push(owned[i - 1]) =~= base + owned.take(
                        i as int,
                    ));
                }
            }
            let mut j: usize = 0;
            proof {
                assert(owned.take(na as int) =~= owned);
                assert(base + owned + shared.take(0) =~= base + owned);
            }
            while j < ns
                invariant
                    0 <= j <= ns,
                    ns == c.shared_object_arguments@.len(),
                    shared == c@.shared_object_arguments.map_values(
                        |id: Seq<u8>| InputKindV::Shared(id),
                    ),
                    shared.len() == ns,
                    kinds_view(out@) == base + owned + shared.take(j as int),
                decreases ns - j,
            {
                let elem = InputObjectKind::SharedMoveObject(c.shared_object_arguments[j]);
                let ghost prev = out@;
                out.push(elem);
                j += 1;
                proof {
                    assert(kinds_view(prev.push(elem)) =~= kinds_view(prev).push(elem@));
                    assert(shared[j - 1] == elem@);
                    assert((base + owned + shared.take(j - 1)).push(shared[j - 1]) =~= base + owned
                        + shared.take(j as int));
                }
            }
            let elem = InputObjectKind::MovePackage(c.package.0);
            let ghost prev = out@;
            out.push(elem);
            proof {
                assert(shared.take(ns as int) =~= shared);
                assert(kinds_view(prev.push(elem)) =~= kinds_view(prev).push(elem@));
                assert((base + owned + shared).push(elem@) =~= base + (owned + shared + seq![
                    InputKindV::Package(c@.package.id),
                ]));
            }
        },
        SingleTransactionKind::Publish(m) => {
            let deps = publish_dep_addresses(&m.modules);
            let ghost pk = spec_publish_deps(m@.modules).map_values(
                |a: Seq<u8>| InputKindV::Package(a),
            );
            let nd = deps.len();
            let mut i: usize = 0;
            proof {
                assert(pk.len() == nd);
                assert(kinds_view(out@) =~= base + pk.take(0));
            }
            while i < nd
                invariant
                    0 <= i <= nd,
                    nd == deps@.len(),
                    ids_as_seqs(deps@) == spec_publish_deps(m@.modules),
                    pk == spec_publish_deps(m@.modules).map_values(
                        |a: Seq<u8>| InputKindV::Package(a),
                    ),
                    pk.len() == nd,
                    kinds_view(out@) == base + pk.take(i as int),
                decreases nd - i,
            {
                let elem = InputObjectKind::MovePackage(deps[i]);
                let ghost prev = out@;
                out.push(elem);
                i += 1;
                proof {
                    assert(kinds_view(prev.push(elem)) =~= kinds_view(prev).push(elem@));
                    assert(deps@[i - 1]@ == ids_as_seqs(deps@)[i - 1]);
                    assert(pk[i - 1] == elem@);
                    assert((base + pk.take(i - 1)).push(pk[i - 1]) =~= base + pk.take(i as int));
                }
            }
            proof {
                assert(pk.take(nd as int) =~= pk);
            }
        },
    }
}


/// Mathematical model of [`Transaction`].
#[verifier::ext_equal]
pub ghost struct TransactionV {
    pub is_checked: bool,
    pub data: TransactionDataV,
    pub signature: crate::crypto::SignatureV,
}

/// A transaction signed by a client. The signature covers the canonical
/// encoding of `data` alone. `is_checked` is a trusted-path marker: it is
/// set only after a successful signature check and is never persisted.
#[derive(Debug)]
pub struct Transaction {
    pub is_checked: bool,
    pub data: TransactionData,
    pub signature: Signature,
}

impl View for Transaction {
    type V = TransactionV;

    open spec fn view(&self) -> TransactionV {
        TransactionV { is_checked: self.is_checked, data: self.data@, signature: self.signature@ }
    }
}

impl Clone for Transaction {
    fn clone(&self) -> (r: Self)
        ensures
            r@ == self@,
    {
        Transaction {
            is_checked: self.is_checked,
            data: self.data.clone(),
            signature: self.signature,
        }
    }
}

impl Transaction {
    pub fn new(data: TransactionData, signature: Signature) -> (r: Self)
        ensures
            r@.data == data@,
            r@.signature == signature@,
            !r@.is_checked,
    {
        Transaction { is_checked: false, data, signature }
    }

    /// The address that signed this transaction.
    pub fn sender_address(&self) -> (r: SuiAddress)
        ensures
            r@ == self@.data.sender,
    {
        self.data.signer()
    }

    /// The reference of the gas object that pays for this transaction.
    pub fn gas_payment_object_ref(&self) -> (r: ObjectRef)
        ensures
            ref_view(r) == self@.data.gas_payment,
    {
        self.data.gas()
    }

    /// Whether any member reads a shared object; used for consensus routing.
    #[verifier::loop_isolation(false)]
    pub fn contains_shared_object(&self) -> (r: bool)
        ensures
            r == spec_tx_contains_shared(self@.data.kind),
    {
        match &self.data.kind {
            TransactionKind::Single(s) => s.contains_shared_object(),
            TransactionKind::Batch(b) => {
                let mut i: usize = 0;
                while i < b.len()
                    invariant
                        0 <= i <= b@.len(),
                        forall|q: int|
                            0 <= q < i ==> !spec_single_contains_shared(singles_view(b@)[q]),
                    decreases b@.len() - i,
                {
                    if b[i].contains_shared_object() {
                        proof {
                            assert(spec_single_contains_shared(singles_view(b@)[i as int]));
                        }
                        return true;
                    }
                    i += 1;
                }
                proof {
                    if spec_tx_contains_shared(self@.data.kind) {
                        let q = choose|q: int|
                            0 <= q < singles_view(b@).len() && spec_single_contains_shared(
                                singles_view(b@)[q],
                            );
                        assert(!spec_single_contains_shared(singles_view(b@)[q]));
                    }
                }
                false
            },
        }
    }

    /// The shared-object ids every member reads, concatenated in order.
    #[verifier::loop_isolation(false)]
    pub fn shared_input_objects(&self) -> (r: Vec<ObjectID>)
        ensures
            object_ids_view(r@) == spec_tx_shared_ids(self@.data.kind),
    {
        match &self.data.kind {
            TransactionKind::Single(s) => s.shared_input_objects(),
            TransactionKind::Batch(b) => {
                let mut out: Vec<ObjectID> = Vec::new();
                let ghost sv = singles_view(b@);
                let mut i: usize = 0;
                proof {
                    assert(object_ids_view(out@) =~= spec_batch_shared_ids(sv.take(0)));
                }
                while i < b.len()
                    invariant
                        0 <= i <= b@.len(),
                        sv == singles_view(b@),
                        object_ids_view(out@) == spec_batch_shared_ids(sv.take(i as int)),
                    decreases b@.len() - i,
                {
                    let part = b[i].shared_input_objects();
                    let ghost prev = out@;
                    let mut j: usize = 0;
                    while j < part.len()
                        invariant
                            0 <= j <= part@.len(),
                            object_ids_view(out@) == object_ids_view(prev) + object_ids_view(
                                part@.take(j as int),
                            ),
                        decreases part@.len() - j,
                    {
                        let ghost mid = out@;
                        let e = part[j];
                        out.push(e);
                        j += 1;
                        proof {
                            assert(object_ids_view(mid.push(e)) =~= object_ids_view(mid).push(e@));
                            assert(object_ids_view(part@.take(j - 1)).push(
                                object_ids_view(part@)[j - 1],
                            ) =~= object_ids_view(part@.take(j as int)));
                            assert((object_ids_view(prev) + object_ids_view(part@.take(j - 1)))
                                .push(object_ids_view(part@)[j - 1]) =~= object_ids_view(prev)
                                + object_ids_view(part@.take(j as int)));
                        }
                    }
                    i += 1;
                    proof {
                        assert(part@.take(part@.len() as int) =~= part@);
                        assert(sv.take(i as int).drop_last() =~= sv.take(i - 1));
                        assert(sv.take(i as int).last() == b@[i - 1]@);
                        assert(object_ids_view(part@) == spec_single_shared_ids(b@[i - 1]@));
                        assert(spec_batch_shared_ids(sv.take(i as int)) =~= spec_batch_shared_ids(
                            sv.take(i - 1),
                        ) + spec_single_shared_ids(sv[i - 1]));
                    }
                }
                proof {
                    assert(sv.take(sv.len() as int) =~= sv);
                }
                out
            },
        }
    }

    /// The full input set of this transaction: every member's inputs, then
    /// the gas payment, with no two entries sharing an object id. A batch
    /// carrying a publish member is rejected outright.
    #[verifier::loop_isolation(false)]
    pub fn input_objects(&self) -> (r: SuiResult<Vec<InputObjectKind>>)
        ensures
            r is Ok <==> (!spec_batch_has_publish(self@.data.kind) && unique_seqs(
                spec_kind_ids(spec_tx_input_kinds(self@.data)),
            )),
            r matches Ok(v) ==> kinds_view(v@) == spec_tx_input_kinds(self@.data),
            r matches Ok(v) ==> v@.len() >= 1 && v@.last()@ == InputKindV::Owned(
                self@.data.gas_payment,
            ),
            r matches Err(e) ==> (if spec_batch_has_publish(self@.data.kind) {
                e is InvalidBatchTransaction
            } else {
                e is DuplicateObjectRefInput
            }),
    {
        let mut inputs: Vec<InputObjectKind> = Vec::new();
        match &self.data.kind {
            TransactionKind::Single(s) => {
                push_single_inputs(s, &mut inputs);
                proof {
                    assert(kinds_view(Seq::<InputObjectKind>::empty()) =~= Seq::<
                        InputKindV,
                    >::empty());
                    assert(Seq::<InputKindV>::empty() + spec_single_input_kinds(s@) =~=
                        spec_single_input_kinds(s@));
                }
            },
            TransactionKind::Batch(b) => {
                let ghost sv = singles_view(b@);
                let mut i: usize = 0;
                proof {
                    assert(kinds_view(inputs@) =~= spec_batch_input_kinds(sv.take(0)));
                }
                while i < b.len()
                    invariant
                        0 <= i <= b@.len(),
                        sv == singles_view(b@),
                        kinds_view(inputs@) == spec_batch_input_kinds(sv.take(i as int)),
                        forall|q: int| 0 <= q < i ==> !(sv[q] is Publish),
                    decreases b@.len() - i,
                {
                    let member = &b[i];
                    if let SingleTransactionKind::Publish(_) = member {
                        proof {
                            assert(sv[i as int] is Publish);
                            assert(spec_has_publish(sv));
                        }
                        return Err(
                            SuiError::InvalidBatchTransaction {
                                error: "publish transactions cannot appear in a batch".to_owned(),
                            },
                        );
                    }
                    let ghost prevk = kinds_view(inputs@);
                    push_single_inputs(member, &mut inputs);
                    i += 1;
                    proof {
                        assert(sv.take(i as int).drop_last() =~= sv.take(i - 1));
                        assert(sv.take(i as int).last() == b@[i - 1]@);
                        assert(spec_batch_input_kinds(sv.take(i as int)) =~=
                            spec_batch_input_kinds(sv.take(i - 1)) + spec_single_input_kinds(
                            sv[i - 1],
                        ));
                    }
                }
                proof {
                    assert(sv.take(sv.len() as int) =~= sv);
                    if spec_has_publish(sv) {
                        let q = choose|q: int| 0 <= q < sv.len() && sv[q] is Publish;
                        assert(!(sv[q] is Publish));
                    }
                }
            },
        }
        let gas_elem = InputObjectKind::OwnedMoveObject(self.data.gas());
        let ghost prevk = inputs@;
        inputs.push(gas_elem);
        proof {
            assert(kinds_view(prevk.push(gas_elem)) =~= kinds_view(prevk).push(gas_elem@));
            assert(kinds_view(prevk).push(gas_elem@) =~= kinds_view(prevk) + seq![
                InputKindV::Owned(self@.data.gas_payment),
            ]);
            assert(kinds_view(inputs@) =~= spec_tx_input_kinds(self@.data));
        }
        if check_unique_ids(&inputs) {
            proof {
                assert(inputs@.last()@ == InputKindV::Owned(self@.data.gas_payment));
            }
            Ok(inputs)
        } else {
            Err(SuiError::DuplicateObjectRefInput)
        }
    }

    /// The members of this transaction as an owned list.
    #[verifier::loop_isolation(false)]
    pub fn single_transactions(&self) -> (r: Vec<SingleTransactionKind>)
        ensures
            singles_view(r@) == spec_singles_of(self@.data.kind),
    {
        match &self.data.kind {
            TransactionKind::Single(s) => {
                let mut out: Vec<SingleTransactionKind> = Vec::new();
                out.push(s.clone());
                proof {
                    assert(singles_view(out@) =~= spec_singles_of(self@.data.kind));
                }
                out
            },
            TransactionKind::Batch(b) => {
                let mut out: Vec<SingleTransactionKind> = Vec::new();
                let mut i: usize = 0;
                while i < b.len()
                    invariant
                        0 <= i <= b@.len(),
                        out@.len() == i,
                        forall|q: int| 0 <= q < i ==> out@[q]@ == b@[q]@,
                    decreases b@.len() - i,
                {
                    let e = b[i].clone();
                    let ghost prev = out@;
                    out.push(e);
                    i += 1;
                    proof {
                        assert(singles_view(prev.push(e)) =~= singles_view(prev).push(e@));
                    }
                }
                proof {
                    assert(singles_view(out@) =~= singles_view(b@));
                }
                out
            },
        }
    }

    /// The members of this transaction, consuming it.
    pub fn into_single_transactions(self) -> (r: Vec<SingleTransactionKind>)
        ensures
            singles_view(r@) == spec_singles_of(self@.data.kind),
    {
        match self.data.kind {
            TransactionKind::Single(s) => {
                let mut out: Vec<SingleTransactionKind> = Vec::new();
                let ghost kv = s@;
                out.push(s);
                proof {
                    assert(singles_view(out@) =~= seq![kv]);
                }
                out
            },
            TransactionKind::Batch(b) => b,
        }
    }
}

/// Data signed by a single authority: a transaction or effects, the
/// authority's name, and its signature over the data's canonical encoding.
#[derive(Debug)]
pub struct AuthoritySignedData<D> {
    pub data: D,
    pub authority: AuthorityName,
    pub signature: AuthoritySignature,
}

/// Mathematical model of [`AuthoritySignedData`].
#[verifier::ext_equal]
pub ghost struct AuthoritySignedDataV<DV> {
    pub data: DV,
    pub authority: Seq<u8>,
    pub signature: Seq<u8>,
}

impl<D: View> View for AuthoritySignedData<D> {
    type V = AuthoritySignedDataV<D::V>;

    open spec fn view(&self) -> AuthoritySignedDataV<D::V> {
        AuthoritySignedDataV {
            data: self.data@,
            authority: self.authority@,
            signature: self.signature@,
        }
    }
}

/// A transaction signed by a single authority.
pub type SignedTransaction = AuthoritySignedData<Transaction>;

/// Mathematical model of [`CertifiedTransaction`].
#[verifier::ext_equal]
pub ghost struct CertifiedTransactionV {
    pub is_checked: bool,
    pub transaction: TransactionV,
    pub signatures: Seq<(Seq<u8>, Seq<u8>)>,
}

/// The models of a list of authority signatures.
pub open spec fn auth_sigs_view(s: Seq<(AuthorityName, AuthoritySignature)>) -> Seq<
    (Seq<u8>, Seq<u8>),
> {
    s.map_values(|p: (AuthorityName, AuthoritySignature)| (p.0@, p.1.0@))
}

/// A transaction certified by a quorum of authority signatures.
///
/// The signature set of a certificate is not unique: several distinct valid
/// certificates can exist for one transaction. This type therefore carries
/// no equality or hashing; holders compare certificates by digest.
#[derive(Debug)]
pub struct CertifiedTransaction {
    pub is_checked: bool,
    pub transaction: Transaction,
    pub signatures: Vec<(AuthorityName, AuthoritySignature)>,
}

impl View for CertifiedTransaction {
    type V = CertifiedTransactionV;

    open spec fn view(&self) -> CertifiedTransactionV {
        CertifiedTransactionV {
            is_checked: self.is_checked,
            transaction: self.transaction@,
            signatures: auth_sigs_view(self.signatures@),
        }
    }
}

impl Clone for CertifiedTransaction {
    fn clone(&self) -> (r: Self)
        ensures
            r@ == self@,
    {
        let r = CertifiedTransaction {
            is_checked: self.is_checked,
            transaction: self.transaction.clone(),
            signatures: copy_vec(&self.signatures),
        };
        proof {
            assert(r@ =~= self@);
        }
        r
    }
}

impl CertifiedTransaction {
    /// An empty partial certificate over a transaction.
    pub fn new(transaction: Transaction) -> (r: CertifiedTransaction)
        ensures
            r@.transaction == transaction@,
            r@.signatures.len() == 0,
            !r@.is_checked,
    {
        let r = CertifiedTransaction { is_checked: false, transaction, signatures: Vec::new() };
        proof {
            assert(auth_sigs_view(r.signatures@) =~= Seq::<(Seq<u8>, Seq<u8>)>::empty());
        }
        r
    }

    /// A certificate assembled from an existing signature list.
    pub fn new_with_signatures(
        transaction: Transaction,
        signatures: Vec<(AuthorityName, AuthoritySignature)>,
    ) -> (r: CertifiedTransaction)
        ensures
            r@.transaction == transaction@,
            r@.signatures == auth_sigs_view(signatures@),
            !r@.is_checked,
    {
        CertifiedTransaction { is_checked: false, transaction, signatures }
    }
}

/// A certificate on its way to an authority for finalization.
#[derive(Debug)]
pub struct ConfirmationTransaction {
    pub certificate: CertifiedTransaction,
}

impl ConfirmationTransaction {
    pub fn new(certificate: CertifiedTransaction) -> (r: Self)
        ensures
            r.certificate@ == certificate@,
    {
        ConfirmationTransaction { certificate }
    }
}

} // verus!
