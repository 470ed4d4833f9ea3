//! The gateway state machine: input checking and locking, the commit of
//! quorum-certified transactions into the local store, response shaping for
//! the coin-management operations, transaction builders, and the
//! best-effort account sync. The network legs — local deterministic
//! execution and the quorum drive — happen outside; their results come back
//! here as plain values.

use vstd::prelude::*;
use crate::base_types::{bytes_eq, ObjectDigest, ObjectID, ObjectRef, SuiAddress};
use crate::committee::Committee;
use crate::effects::TransactionEffects;
use crate::envelope::{spec_transaction_digest, spec_tx_signature_valid};
use crate::error::{SuiError, SuiResult};
use crate::messages::{
    kinds_view, ref_view, spec_tx_input_kinds, unique_seqs, spec_kind_ids, CertifiedTransaction,
    InputKindV, InputObjectKind, MoveCall, Transaction, TransactionData, TransactionKind,
    SingleTransactionKind,
};
use crate::object::{Object, ObjectRead, Owner, spec_object_reference};
use crate::store::{
    spec_find_object, spec_lock_of, GatewayStore, TemporaryStore, spec_ref_listed,
};

verus! {

/// The least gas budget a transaction may declare.
pub const MIN_GAS_BUDGET: u64 = 10;

/// The response handed back for one executed transaction.
#[derive(Debug)]
pub enum TransactionResponse {
    /// The generic shape: the certificate and the effects.
    EffectResponse(CertifiedTransaction, TransactionEffects),
    /// A package was published.
    PublishResponse(PublishResponse),
    /// A coin was split into new coins.
    SplitCoinResponse(SplitCoinResponse),
    /// A coin was merged into another.
    MergeCoinResponse(MergeCoinResponse),
}

/// The shaped result of a publish transaction.
#[derive(Debug)]
pub struct PublishResponse {
    pub certificate: CertifiedTransaction,
    pub package: ObjectRef,
    pub created_objects: Vec<Object>,
    pub updated_gas: Object,
}

/// The shaped result of a coin split. The new coins appear in effect
/// order, which is not the request order.
#[derive(Debug)]
pub struct SplitCoinResponse {
    pub certificate: CertifiedTransaction,
    pub updated_coin: Object,
    pub new_coins: Vec<Object>,
    pub updated_gas: Object,
}

/// The shaped result of a coin merge.
#[derive(Debug)]
pub struct MergeCoinResponse {
    pub certificate: CertifiedTransaction,
    pub updated_coin: Object,
    pub updated_gas: Object,
}

/// The byte name of the framework's coin module.
pub open spec fn spec_coin_module_name() -> Seq<u8> {
    seq![99u8, 111u8, 105u8, 110u8]
}

/// The byte name of the coin split function.
pub open spec fn spec_coin_split_vec_name() -> Seq<u8> {
    seq![115u8, 112u8, 108u8, 105u8, 116u8, 95u8, 118u8, 101u8, 99u8]
}

/// The byte name of the coin join function.
pub open spec fn spec_coin_join_name() -> Seq<u8> {
    seq![106u8, 111u8, 105u8, 110u8]
}

/// Whether a byte vector equals a fixed byte array.
fn bytes_vec_eq_arr<const N: usize>(v: &Vec<u8>, a: &[u8; N]) -> (r: bool)
    ensures
        r == (v@ == a@),
{
    if v.len() != N {
        proof {
            assert(v@.len() != a@.len());
        }
        return false;
    }
    let mut i: usize = 0;
    while i < N
        invariant
            0 <= i <= N,
            v@.len() == N,
            a@.len() == N,
            forall|q: int| 0 <= q < i ==> v@[q] == a@[q],
        decreases N - i,
    {
        if v[i] != a[i] {
            proof {
                assert(v@ != a@);
            }
            return false;
        }
        i += 1;
    }
    proof {
        assert(v@ =~= a@);
    }
    true
}

/// Whether the checked input pairs list an owned input at this reference.
pub open spec fn spec_owned_kind_listed(
    pairs: Seq<(InputObjectKind, Object)>,
    rv: crate::messages::ObjectRefV,
) -> bool {
    exists|q: int| 0 <= q < pairs.len() && (#[trigger] pairs[q]).0@ == InputKindV::Owned(rv)
}

/// Whether one member declares a budget at or above the floor; transfers
/// carry no budget of their own.
pub open spec fn spec_member_budget_ok(k: crate::messages::SingleTransactionKindV) -> bool {
    match k {
        crate::messages::SingleTransactionKindV::Transfer(_) => true,
        crate::messages::SingleTransactionKindV::Publish(p) => p.gas_budget >= MIN_GAS_BUDGET,
        crate::messages::SingleTransactionKindV::Call(c) => c.gas_budget >= MIN_GAS_BUDGET,
    }
}

/// Whether every member's declared budget reaches the floor.
pub open spec fn spec_budgets_ok(k: crate::messages::TransactionKindV) -> bool {
    forall|i: int|
        0 <= i < crate::messages::spec_singles_of(k).len() ==> spec_member_budget_ok(
            #[trigger] crate::messages::spec_singles_of(k)[i],
        )
}

/// Check one member's budget floor.
fn member_budget_ok(k: &SingleTransactionKind) -> (r: bool)
    ensures
        r == spec_member_budget_ok(k@),
{
    match k {
        SingleTransactionKind::Transfer(_) => true,
        SingleTransactionKind::Publish(p) => p.gas_budget >= MIN_GAS_BUDGET,
        SingleTransactionKind::Call(c) => c.gas_budget >= MIN_GAS_BUDGET,
    }
}

/// Whether a downloaded batch carries an object at exactly this reference.
pub open spec fn spec_fetched_covers(fetched: Seq<Object>, rv: crate::messages::ObjectRefV) -> bool {
    exists|p: int|
        0 <= p < fetched.len() && spec_object_reference((#[trigger] fetched[p])@) == rv
}

/// Whether one input kind is satisfiable against the store for a sender:
/// the object is present; an owned input additionally matches the
/// referenced version and digest, is not shared or immutable, and any
/// address owner must be the sender.
pub open spec fn spec_input_available(
    objs: Seq<Object>,
    k: InputKindV,
    sender: Seq<u8>,
) -> bool {
    match k {
        InputKindV::Package(id) => spec_find_object(objs, id) is Some,
        InputKindV::Shared(id) => spec_find_object(objs, id) is Some,
        InputKindV::Owned(rv) => spec_find_object(objs, rv.id) matches Some(o) && {
            &&& o.version == rv.version
            &&& crate::object::spec_object_digest(o) == rv.digest
            &&& (o.owner matches crate::object::OwnerV::AddressOwner(a) ==> a == sender)
            &&& !(o.owner is Shared)
            &&& !(o.owner is Immutable)
        },
    }
}

/// The deep models of a list of objects.
pub open spec fn objects_deep_view(s: Seq<Object>) -> Seq<crate::object::ObjectV> {
    s.map_values(|o: Object| o@)
}

/// Whether the store holds a package at this reference's id.
pub open spec fn spec_is_package_at(objs: Seq<Object>, rv: crate::messages::ObjectRefV) -> bool {
    spec_find_object(objs, rv.id) matches Some(o) && o.data is Package
}

/// Whether a touched entry is the updated gas slot: a non-package entry at
/// exactly the effects' gas reference.
pub open spec fn spec_gas_slot(
    objs: Seq<Object>,
    rv: crate::messages::ObjectRefV,
    gas: crate::messages::ObjectRefV,
) -> bool {
    !spec_is_package_at(objs, rv) && rv == gas
}

/// Whether a publish outcome has the expected shape: success, only the gas
/// mutated, every touched object live in the store, exactly one created
/// package, and exactly one gas slot.
pub open spec fn spec_publish_ok(
    objs: Seq<Object>,
    e: crate::effects::TransactionEffectsV,
) -> bool {
    let touched = e.mutated + e.created;
    &&& e.status is Success
    &&& e.mutated.len() == 1
    &&& (forall|k: int|
        0 <= k < touched.len() ==> spec_find_object(objs, (#[trigger] touched[k]).0.id) is Some)
    &&& (exists|p: int|
        0 <= p < touched.len() && spec_is_package_at(objs, (#[trigger] touched[p]).0) && (forall|
            q: int,
        |
            0 <= q < touched.len() && q != p ==> !spec_is_package_at(
                objs,
                (#[trigger] touched[q]).0,
            )))
    &&& (exists|g: int|
        0 <= g < touched.len() && spec_gas_slot(objs, (#[trigger] touched[g]).0, e.gas_object.0)
            && (forall|q: int|
            0 <= q < touched.len() && q != g ==> !spec_gas_slot(
                objs,
                (#[trigger] touched[q]).0,
                e.gas_object.0,
            )))
}

/// The created Move objects of a publish, in touch order: every live
/// touched object that is neither the package nor the gas slot.
pub open spec fn spec_publish_created(
    objs: Seq<Object>,
    touched: Seq<(crate::messages::ObjectRefV, crate::object::OwnerV)>,
    gas: crate::messages::ObjectRefV,
) -> Seq<crate::object::ObjectV>
    decreases touched.len(),
{
    if touched.len() == 0 {
        Seq::empty()
    } else {
        let rest = spec_publish_created(objs, touched.drop_last(), gas);
        let rv = touched.last().0;
        match spec_find_object(objs, rv.id) {
            Some(o) => if o.data is Package {
                rest
            } else if rv == gas {
                rest
            } else {
                rest.push(o)
            },
            None => rest,
        }
    }
}

/// The split amounts a coin-split call requests, decoded from its first
/// pure argument; `None` when the call is not shaped like a split request.
pub open spec fn spec_split_request(c: crate::messages::MoveCallV) -> Option<Seq<u64>> {
    if c.object_arguments.len() >= 1 && c.pure_arguments.len() >= 1 {
        match crate::codec::dec_counted_u64s_at(c.pure_arguments[0], 0) {
            Some((amounts, _)) => Some(amounts),
            None => None,
        }
    } else {
        None
    }
}

/// Whether a split outcome has the expected shape: a decodable request, a
/// successful status, the coin and the gas mutated, one created coin per
/// amount owned by the signer, and every read object live in the store.
pub open spec fn spec_split_ok(
    objs: Seq<Object>,
    cert: crate::messages::CertifiedTransactionV,
    e: crate::effects::TransactionEffectsV,
) -> bool {
    match cert.transaction.data.kind {
        crate::messages::TransactionKindV::Single(k) => match k {
            crate::messages::SingleTransactionKindV::Call(c) => match spec_split_request(c) {
                Some(amounts) => {
                    &&& e.status is Success
                    &&& e.mutated.len() == 2
                    &&& e.created.len() == amounts.len()
                    &&& (forall|k: int|
                        0 <= k < e.created.len() ==> (#[trigger] e.created[k]).1
                            == crate::object::OwnerV::AddressOwner(cert.transaction.data.sender))
                    &&& spec_find_object(objs, c.object_arguments[0].id) is Some
                    &&& (forall|k: int|
                        0 <= k < e.created.len() ==> spec_find_object(
                            objs,
                            (#[trigger] e.created[k]).0.id,
                        ) is Some)
                    &&& spec_find_object(objs, cert.transaction.data.gas_payment.id) is Some
                },
                None => false,
            },
            _ => false,
        },
        _ => false,
    }
}

/// Whether a merge outcome has the expected shape: the surviving coin and
/// the gas mutated, both live in the store.
pub open spec fn spec_merge_ok(
    objs: Seq<Object>,
    cert: crate::messages::CertifiedTransactionV,
    e: crate::effects::TransactionEffectsV,
) -> bool {
    match cert.transaction.data.kind {
        crate::messages::TransactionKindV::Single(k) => match k {
            crate::messages::SingleTransactionKindV::Call(c) => {
                &&& c.object_arguments.len() >= 1
                &&& e.status is Success
                &&& e.mutated.len() == 2
                &&& spec_find_object(objs, c.object_arguments[0].id) is Some
                &&& spec_find_object(objs, cert.transaction.data.gas_payment.id) is Some
            },
            _ => false,
        },
        _ => false,
    }
}

/// Which specialized response a transaction's kind routes to: the publish
/// shape, the framework coin split, the framework coin join, or the
/// generic effect response.
pub open spec fn spec_response_route(
    cert: crate::messages::CertifiedTransactionV,
    framework: crate::messages::ObjectRefV,
) -> int {
    match cert.transaction.data.kind {
        crate::messages::TransactionKindV::Single(k) => match k {
            crate::messages::SingleTransactionKindV::Publish(_) => 1,
            crate::messages::SingleTransactionKindV::Call(c) => {
                if c.package == framework && c.module == spec_coin_module_name() {
                    if c.function == spec_coin_split_vec_name() {
                        2
                    } else if c.function == spec_coin_join_name() {
                        3
                    } else {
                        0
                    }
                } else {
                    0
                }
            },
            _ => 0,
        },
        _ => 0,
    }
}

/// The gateway: the local store mirror and the committee it talks for.
pub struct GatewayState {
    pub store: GatewayStore,
    pub committee: Committee,
}

impl GatewayState {
    /// A gateway over an empty mirror.
    pub fn new(committee: Committee) -> (r: GatewayState)
        requires
            committee.well_formed(),
        ensures
            r.store.well_formed(),
            r.committee.well_formed(),
            r.store.objects@.len() == 0,
    {
        GatewayState { store: GatewayStore::new(), committee }
    }

    /// Check a transaction before execution: the client signature, the
    /// derivation of its input set, the presence of every input in the
    /// store, and the version, digest and ownership checks on owned
    /// inputs. Returns the materialized `(kind, object)` pairs, in input
    /// order.
    #[verifier::loop_isolation(false)]
    pub fn check_transaction_input(&self, transaction: &Transaction) -> (r: SuiResult<
        Vec<(InputObjectKind, Object)>,
    >)
        ensures
            r is Ok <==> ((transaction@.is_checked || spec_tx_signature_valid(transaction@))
                && spec_budgets_ok(transaction@.data.kind) && !crate::messages::spec_batch_has_publish(
                transaction@.data.kind,
            ) && unique_seqs(spec_kind_ids(spec_tx_input_kinds(transaction@.data))) && (forall|
                k: int,
            |
                0 <= k < spec_tx_input_kinds(transaction@.data).len() ==> spec_input_available(
                    self.store.objects@,
                    #[trigger] spec_tx_input_kinds(transaction@.data)[k],
                    transaction@.data.sender,
                ))),
            r matches Ok(v) ==> {
                &&& kinds_view(v@.map_values(|p: (InputObjectKind, Object)| p.0))
                    == spec_tx_input_kinds(transaction@.data)
                &&& forall|k: int|
                    0 <= k < v@.len() ==> spec_find_object(
                        self.store.objects@,
                        crate::messages::spec_kind_id((#[trigger] v@[k]).0@),
                    ) == Some(v@[k].1@)
                &&& forall|k: int|
                    0 <= k < v@.len() && (#[trigger] v@[k]).0@ is Owned ==> spec_object_reference(
                        v@[k].1@,
                    ) == v@[k].0@->Owned_0
            },
    {
        match transaction.check_signature() {
            Ok(_) => {},
            Err(e) => {
                return Err(e);
            },
        }
        match transaction.data.kind() {
            TransactionKind::Single(member) => {
                proof {
                    assert(crate::messages::spec_singles_of(transaction@.data.kind) =~= seq![
                        member@,
                    ]);
                }
                if !member_budget_ok(member) {
                    proof {
                        assert(crate::messages::spec_singles_of(transaction@.data.kind)[0]
                            == member@);
                        assert(!spec_budgets_ok(transaction@.data.kind));
                    }
                    return Err(
                        SuiError::InsufficientGas {
                            error: "the declared gas budget is below the floor".to_owned(),
                        },
                    );
                }
                proof {
                    assert(spec_budgets_ok(transaction@.data.kind));
                }
            },
            TransactionKind::Batch(members) => {
                proof {
                    assert(crate::messages::spec_singles_of(transaction@.data.kind)
                        =~= crate::messages::singles_view(members@));
                }
                let mut m: usize = 0;
                while m < members.len()
                    invariant
                        0 <= m <= members@.len(),
                        forall|q: int|
                            0 <= q < m ==> spec_member_budget_ok(
                                #[trigger] crate::messages::singles_view(members@)[q],
                            ),
                    decreases members@.len() - m,
                {
                    if !member_budget_ok(&members[m]) {
                        proof {
                            assert(crate::messages::singles_view(members@)[m as int]
                                == members@[m as int]@);
                            assert(crate::messages::spec_singles_of(
                                transaction@.data.kind,
                            )[m as int] == members@[m as int]@);
                            assert(!spec_budgets_ok(transaction@.data.kind));
                        }
                        return Err(
                            SuiError::InsufficientGas {
                                error: "a declared gas budget is below the floor".to_owned(),
                            },
                        );
                    }
                    m += 1;
                }
                proof {
                    assert(crate::messages::spec_singles_of(transaction@.data.kind)
                        =~= crate::messages::singles_view(members@));
                    assert(spec_budgets_ok(transaction@.data.kind));
                }
            },
        }
        let input_kinds = match transaction.input_objects() {
            Ok(v) => v,
            Err(e) => {
                return Err(e);
            },
        };
        let sender = transaction.sender_address();
        let ghost kindsv = spec_tx_input_kinds(transaction@.data);
        proof {
            assert(kindsv == kinds_view(input_kinds@));
        }
        let mut pairs: Vec<(InputObjectKind, Object)> = Vec::new();
        let mut i: usize = 0;
        while i < input_kinds.len()
            invariant
                0 <= i <= input_kinds@.len(),
                pairs@.len() == i,
                forall|k: int| 0 <= k < i ==> (#[trigger] pairs@[k]).0 == input_kinds@[k],
                forall|k: int|
                    0 <= k < i ==> spec_find_object(
                        self.store.objects@,
                        crate::messages::spec_kind_id((#[trigger] pairs@[k]).0@),
                    ) == Some(pairs@[k].1@),
                forall|k: int|
                    0 <= k < i && (#[trigger] pairs@[k]).0@ is Owned ==> spec_object_reference(
                        pairs@[k].1@,
                    ) == pairs@[k].0@->Owned_0,
                forall|k: int|
                    0 <= k < i ==> spec_input_available(
                        self.store.objects@,
                        #[trigger] kindsv[k],
                        transaction@.data.sender,
                    ),
            decreases input_kinds@.len() - i,
        {
            let kind = input_kinds[i];
            let id = kind.object_id();
            proof {
                assert(kinds_view(input_kinds@)[i as int] == input_kinds@[i as int]@);
                assert(kindsv[i as int] == input_kinds@[i as int]@);
            }
            let object = match self.store.get_object(&id) {
                Some(o) => o,
                None => {
                    proof {
                        assert(!spec_input_available(
                            self.store.objects@,
                            kindsv[i as int],
                            transaction@.data.sender,
                        ));
                    }
                    return Err(kind.object_not_found_error());
                },
            };
            match &kind {
                InputObjectKind::OwnedMoveObject(oref) => {
                    proof {
                        crate::store::lemma_find_object_id(self.store.objects@, id@);
                    }
                    let actual = object.compute_object_reference();
                    if !(object.version.0 == oref.1.0 && bytes_eq(&actual.2.0, &oref.2.0)) {
                        proof {
                            assert(!spec_input_available(
                                self.store.objects@,
                                kindsv[i as int],
                                transaction@.data.sender,
                            ));
                        }
                        return Err(SuiError::InvalidObjectReference { object_id: id });
                    }
                    match &object.owner {
                        Owner::AddressOwner(a) => {
                            if !bytes_eq(&a.0, &sender.0) {
                                proof {
                                    assert(!spec_input_available(
                                        self.store.objects@,
                                        kindsv[i as int],
                                        transaction@.data.sender,
                                    ));
                                }
                                return Err(SuiError::IncorrectSigner);
                            }
                        },
                        Owner::ObjectOwner(_) => {},
                        Owner::Shared | Owner::Immutable => {
                            proof {
                                assert(!spec_input_available(
                                    self.store.objects@,
                                    kindsv[i as int],
                                    transaction@.data.sender,
                                ));
                            }
                            return Err(SuiError::InvalidObjectReference { object_id: id });
                        },
                    }
                    proof {
                        assert(spec_object_reference(object@) =~= kind@->Owned_0);
                        assert(spec_input_available(
                            self.store.objects@,
                            kindsv[i as int],
                            transaction@.data.sender,
                        ));
                    }
                },
                InputObjectKind::MovePackage(_) => {
                    proof {
                        assert(spec_input_available(
                            self.store.objects@,
                            kindsv[i as int],
                            transaction@.data.sender,
                        ));
                    }
                },
                InputObjectKind::SharedMoveObject(_) => {
                    proof {
                        assert(spec_input_available(
                            self.store.objects@,
                            kindsv[i as int],
                            transaction@.data.sender,
                        ));
                    }
                },
            }
            let ghost prev = pairs@;
            pairs.push((kind, object));
            i += 1;
            proof {
                assert(pairs@[i - 1].0 == input_kinds@[i - 1]);
                assert forall|k: int| 0 <= k < i - 1 implies #[trigger] pairs@[k] == prev[k] by {}
            }
        }
        proof {
            assert(pairs@.map_values(|p: (InputObjectKind, Object)| p.0) =~= input_kinds@);
            assert(kinds_view(pairs@.map_values(|p: (InputObjectKind, Object)| p.0))
                =~= kinds_view(input_kinds@));
        }
        Ok(pairs)
    }

    /// The owned input references of a checked input set; the references
    /// that must be locked before submission.
    pub fn owned_input_refs(pairs: &Vec<(InputObjectKind, Object)>) -> (r: Vec<ObjectRef>)
        ensures
            forall|k: int|
                0 <= k < r@.len() ==> spec_owned_kind_listed(pairs@, ref_view(#[trigger] r@[k])),
            forall|q: int|
                0 <= q < pairs@.len() && (#[trigger] pairs@[q]).0@ is Owned ==> spec_ref_listed(
                    r@,
                    pairs@[q].0@->Owned_0,
                ),
    {
        let mut out: Vec<ObjectRef> = Vec::new();
        let mut i: usize = 0;
        while i < pairs.len()
            invariant
                0 <= i <= pairs@.len(),
                forall|k: int|
                    0 <= k < out@.len() ==> spec_owned_kind_listed(
                        pairs@,
                        ref_view(#[trigger] out@[k]),
                    ),
                forall|q: int|
                    0 <= q < i && (#[trigger] pairs@[q]).0@ is Owned ==> spec_ref_listed(
                        out@,
                        pairs@[q].0@->Owned_0,
                    ),
            decreases pairs@.len() - i,
        {
            match &pairs[i].0 {
                InputObjectKind::OwnedMoveObject(oref) => {
                    let ghost prev = out@;
                    let e = *oref;
                    out.push(e);
                    proof {
                        assert forall|k: int|
                            0 <= k < out@.len() implies spec_owned_kind_listed(
                            pairs@,
                            ref_view(#[trigger] out@[k]),
                        ) by {
                            crate::store::lemma_push_index_pub(prev, e, k);
                            if k == prev.len() {
                                assert(pairs@[i as int].0@ == InputKindV::Owned(ref_view(e)));
                            }
                        }
                        assert forall|q: int|
                            0 <= q < i + 1 && (#[trigger] pairs@[q]).0@ is Owned implies
                            spec_ref_listed(out@, pairs@[q].0@->Owned_0) by {
                            if q < i {
                                crate::store::lemma_ref_listed_push(
                                    prev,
                                    e,
                                    pairs@[q].0@->Owned_0,
                                );
                            } else {
                                crate::store::lemma_push_index_pub(prev, e, prev.len() as int);
                                assert(ref_view(out@[prev.len() as int]) == pairs@[q].0@->Owned_0);
                            }
                        }
                    }
                },
                _ => {
                    proof {
                        assert(!(pairs@[i as int].0@ is Owned));
                    }
                },
            }
            i += 1;
        }
        out
    }

    /// Lock the owned inputs of a transaction before submitting it to the
    /// authorities; see the store's lock contract for the idempotent retry
    /// behaviour and the conflict failure.
    pub fn lock_transaction(
        &mut self,
        owned_refs: &Vec<ObjectRef>,
        transaction: &Transaction,
    ) -> (r: SuiResult<()>)
        requires
            old(self).store.well_formed(),
        ensures
            final(self).store.well_formed(),
            final(self).committee == old(self).committee,
            r is Ok <==> (forall|k: int|
                0 <= k < owned_refs@.len() ==> (match spec_lock_of(
                    old(self).store.transaction_lock@,
                    ref_view(#[trigger] owned_refs@[k]),
                ) {
                    Some(t) => t == spec_transaction_digest(transaction@.data),
                    None => true,
                })),
            r is Ok ==> (forall|rv: crate::messages::ObjectRefV|
                #[trigger] spec_lock_of(final(self).store.transaction_lock@, rv) == (
                if spec_ref_listed(owned_refs@, rv) && spec_lock_of(
                    old(self).store.transaction_lock@,
                    rv,
                ) is None {
                    Some(spec_transaction_digest(transaction@.data))
                } else {
                    spec_lock_of(old(self).store.transaction_lock@, rv)
                })),
            r is Err ==> r->Err_0 is ObjectLockConflict
                && final(self).store.transaction_lock@ == old(self).store.transaction_lock@,
            r matches Err(SuiError::ObjectLockConflict { pending_transaction }) ==> (exists|
                k: int,
            |
                0 <= k < owned_refs@.len() && spec_lock_of(
                    old(self).store.transaction_lock@,
                    ref_view(#[trigger] owned_refs@[k]),
                ) == Some(pending_transaction@)) && pending_transaction@
                != spec_transaction_digest(transaction@.data),
    {
        self.store.set_transaction_lock(owned_refs, transaction)
    }

    /// Commit a certified transaction: apply the temporary store and the
    /// quorum effects to the local mirror. The quorum's effects are taken
    /// as authoritative over the local execution, so a stale local
    /// snapshot cannot block the commit.
    pub fn commit_certificate(
        &mut self,
        temporary_store: TemporaryStore,
        certificate: CertifiedTransaction,
        effects: TransactionEffects,
    ) -> (r: TransactionEffects)
        requires
            old(self).store.well_formed(),
            forall|i: int, j: int|
                0 <= i < j < temporary_store.written@.len() ==> (
                #[trigger] temporary_store.written@[i])@.id != (
                #[trigger] temporary_store.written@[j])@.id,
            forall|k: int|
                0 <= k < effects.deleted@.len() ==> (#[trigger] effects.deleted@[k]).1.0
                    < u64::MAX,
            forall|k: int|
                0 <= k < effects.wrapped@.len() ==> (#[trigger] effects.wrapped@[k]).1.0
                    < u64::MAX,
        ensures
            final(self).store.well_formed(),
            final(self).committee == old(self).committee,
            r@ == effects@,
            forall|k: int|
                0 <= k < temporary_store.active_inputs@.len() ==> spec_lock_of(
                    final(self).store.transaction_lock@,
                    ref_view(#[trigger] temporary_store.active_inputs@[k]),
                ) is None,
            forall|k: int|
                0 <= k < effects.created@.len() ==> crate::store::spec_parent_contains(
                    final(self).store.parent_sync@,
                    ref_view((#[trigger] effects.created@[k]).0),
                    spec_transaction_digest(certificate@.transaction.data),
                ),
            forall|k: int|
                0 <= k < effects.mutated@.len() ==> crate::store::spec_parent_contains(
                    final(self).store.parent_sync@,
                    ref_view((#[trigger] effects.mutated@[k]).0),
                    spec_transaction_digest(certificate@.transaction.data),
                ),
            crate::store::spec_cert_of(
                final(self).store.certificates@,
                spec_transaction_digest(certificate@.transaction.data),
            ) == Some(certificate@),
    {
        self.store.update_state(temporary_store, certificate, effects)
    }

    /// The move call of a single-call certificate; any other shape is a
    /// malformed request for coin shaping.
    pub fn try_get_move_call(certificate: &CertifiedTransaction) -> (r: SuiResult<&MoveCall>)
        ensures
            r matches Ok(c) ==> certificate@.transaction.data.kind
                == crate::messages::TransactionKindV::Single(
                crate::messages::SingleTransactionKindV::Call(c@),
            ),
            r is Ok <==> (certificate@.transaction.data.kind matches
                crate::messages::TransactionKindV::Single(k) && k is Call),
            r is Err ==> r->Err_0 is InconsistentGatewayResult,
    {
        match certificate.transaction.data.kind() {
            TransactionKind::Single(SingleTransactionKind::Call(call)) => Ok(call),
            _ => Err(
                SuiError::InconsistentGatewayResult {
                    error: "malformed transaction data".to_owned(),
                },
            ),
        }
    }

    /// Shape the response of a publish: exactly one mutated object (the
    /// gas), exactly one created package, and the created Move objects.
    /// Succeeds exactly when the outcome has that shape, and then fixes
    /// every field of the response.
    #[verifier::loop_isolation(false)]
    #[verifier::rlimit(100)]
    pub fn create_publish_response(
        &self,
        certificate: CertifiedTransaction,
        effects: TransactionEffects,
    ) -> (r: SuiResult<TransactionResponse>)
        ensures
            r is Ok <==> spec_publish_ok(self.store.objects@, effects@),
            r matches Ok(resp) ==> resp is PublishResponse,
            r matches Ok(TransactionResponse::PublishResponse(p)) ==> {
                &&& p.certificate@ == certificate@
                &&& spec_is_package_at(self.store.objects@, ref_view(p.package))
                &&& (exists|k: int|
                    0 <= k < (effects@.mutated + effects@.created).len() && (#[trigger] (
                    effects@.mutated + effects@.created)[k]).0 == ref_view(p.package))
                &&& spec_find_object(self.store.objects@, effects@.gas_object.0.id) == Some(
                    p.updated_gas@,
                )
                &&& objects_deep_view(p.created_objects@) == spec_publish_created(
                    self.store.objects@,
                    effects@.mutated + effects@.created,
                    effects@.gas_object.0,
                )
            },
            r is Err && effects@.status is Success ==> r->Err_0 is InconsistentGatewayResult,
    {
        let ghost objs = self.store.objects@;
        let ghost ev = effects@;
        let ghost touched_v = ev.mutated + ev.created;
        match &effects.status {
            crate::effects::ExecutionStatus::Failure { error, .. } => {
                return Err((**error).clone());
            },
            _ => {},
        }
        if effects.mutated.len() != 1 {
            return Err(
                SuiError::InconsistentGatewayResult {
                    error: "expecting only the gas object mutated by a publish".to_owned(),
                },
            );
        }
        let touched = effects.mutated_and_created();
        proof {
            assert(crate::effects::ref_owners_view(touched@) =~= touched_v);
            assert(spec_publish_created(objs, touched_v.take(0), ev.gas_object.0) =~= Seq::<
                crate::object::ObjectV,
            >::empty());
            assert(objects_deep_view(Seq::<Object>::empty()) =~= Seq::<
                crate::object::ObjectV,
            >::empty());
        }
        let mut package: Option<ObjectRef> = None;
        let ghost mut pidx: int = 0;
        let mut updated_gas: Option<Object> = None;
        let ghost mut gidx: int = 0;
        let mut created_objects: Vec<Object> = Vec::new();
        let mut i: usize = 0;
        while i < touched.len()
            invariant
                0 <= i <= touched@.len(),
                forall|k: int|
                    0 <= k < i ==> spec_find_object(objs, (#[trigger] touched_v[k]).0.id)
                        is Some,
                match package {
                    None => forall|k: int|
                        0 <= k < i ==> !spec_is_package_at(objs, (#[trigger] touched_v[k]).0),
                    Some(pr) => 0 <= pidx < i && touched_v[pidx].0 == ref_view(pr)
                        && spec_is_package_at(objs, ref_view(pr)) && (forall|k: int|
                        0 <= k < i && k != pidx ==> !spec_is_package_at(
                            objs,
                            (#[trigger] touched_v[k]).0,
                        )),
                },
                match updated_gas {
                    None => forall|k: int|
                        0 <= k < i ==> !spec_gas_slot(
                            objs,
                            (#[trigger] touched_v[k]).0,
                            ev.gas_object.0,
                        ),
                    Some(go) => 0 <= gidx < i && spec_gas_slot(
                        objs,
                        touched_v[gidx].0,
                        ev.gas_object.0,
                    ) && spec_find_object(objs, ev.gas_object.0.id) == Some(go@) && (forall|
                        k: int,
                    |
                        0 <= k < i && k != gidx ==> !spec_gas_slot(
                            objs,
                            (#[trigger] touched_v[k]).0,
                            ev.gas_object.0,
                        )),
                },
                objects_deep_view(created_objects@) == spec_publish_created(
                    objs,
                    touched_v.take(i as int),
                    ev.gas_object.0,
                ),
            decreases touched@.len() - i,
        {
            let (oref, _owner) = touched[i];
            proof {
                assert(touched_v[i as int] == (ref_view(oref), _owner@));
                assert(touched_v.take(i + 1).drop_last() =~= touched_v.take(i as int));
                assert(touched_v.take(i + 1).last() == touched_v[i as int]);
            }
            let object = match self.store.get_object(&oref.0) {
                Some(o) => o,
                None => {
                    proof {
                        assert(spec_find_object(objs, touched_v[i as int].0.id) is None);
                    }
                    return Err(
                        SuiError::InconsistentGatewayResult {
                            error: "a created or mutated object is missing from the store"
                                .to_owned(),
                        },
                    );
                },
            };
            if object.is_package() {
                proof {
                    assert(spec_is_package_at(objs, touched_v[i as int].0));
                }
                if package.is_some() {
                    proof {
                        if spec_publish_ok(objs, ev) {
                            let p = choose|p: int|
                                0 <= p < touched_v.len() && spec_is_package_at(
                                    objs,
                                    (#[trigger] touched_v[p]).0,
                                ) && (forall|q: int|
                                    0 <= q < touched_v.len() && q != p ==> !spec_is_package_at(
                                        objs,
                                        (#[trigger] touched_v[q]).0,
                                    ));
                            assert(pidx != i as int);
                        }
                    }
                    return Err(
                        SuiError::InconsistentGatewayResult {
                            error: "more than one package created".to_owned(),
                        },
                    );
                }
                package = Some(oref);
                proof {
                    pidx = i as int;
                }
            } else if crate::base_types::object_ref_eq(&oref, &effects.gas_object.0) {
                proof {
                    assert(ref_view(oref) =~= ev.gas_object.0);
                    assert(spec_gas_slot(objs, touched_v[i as int].0, ev.gas_object.0));
                }
                if updated_gas.is_some() {
                    proof {
                        if spec_publish_ok(objs, ev) {
                            let g = choose|g: int|
                                0 <= g < touched_v.len() && spec_gas_slot(
                                    objs,
                                    (#[trigger] touched_v[g]).0,
                                    ev.gas_object.0,
                                ) && (forall|q: int|
                                    0 <= q < touched_v.len() && q != g ==> !spec_gas_slot(
                                        objs,
                                        (#[trigger] touched_v[q]).0,
                                        ev.gas_object.0,
                                    ));
                            assert(gidx != i as int);
                        }
                    }
                    return Err(
                        SuiError::InconsistentGatewayResult {
                            error: "more than one gas object updated".to_owned(),
                        },
                    );
                }
                updated_gas = Some(object);
                proof {
                    gidx = i as int;
                }
            } else {
                proof {
                    if ref_view(oref) == ev.gas_object.0 {
                        assert(oref.0@ == effects.gas_object.0.0@ && oref.1.0
                            == effects.gas_object.0.1.0 && oref.2@ == effects.gas_object.0.2@);
                    }
                    assert(!spec_gas_slot(objs, touched_v[i as int].0, ev.gas_object.0));
                }
                let ghost prevc = created_objects@;
                created_objects.push(object);
                proof {
                    assert(objects_deep_view(prevc.push(created_objects@.last()))
                        =~= objects_deep_view(prevc).push(created_objects@.last()@));
                    assert(spec_publish_created(objs, touched_v.take(i + 1), ev.gas_object.0)
                        =~= objects_deep_view(created_objects@));
                }
            }
            i += 1;
            proof {
                if i < touched_v.len() + 1 {
                    assert(spec_publish_created(objs, touched_v.take(i as int), ev.gas_object.0)
                        == objects_deep_view(created_objects@)) by {
                        assert(touched_v.take(i as int).drop_last() =~= touched_v.take(i - 1));
                        assert(touched_v.take(i as int).last() == touched_v[i - 1]);
                    }
                }
            }
        }
        proof {
            assert(touched_v.take(touched_v.len() as int) =~= touched_v);
        }
        let package = match package {
            Some(p) => p,
            None => {
                proof {
                    if spec_publish_ok(objs, ev) {
                        let p = choose|p: int|
                            0 <= p < touched_v.len() && spec_is_package_at(
                                objs,
                                (#[trigger] touched_v[p]).0,
                            ) && (forall|q: int|
                                0 <= q < touched_v.len() && q != p ==> !spec_is_package_at(
                                    objs,
                                    (#[trigger] touched_v[q]).0,
                                ));
                    }
                }
                return Err(
                    SuiError::InconsistentGatewayResult {
                        error: "no package created".to_owned(),
                    },
                );
            },
        };
        let updated_gas = match updated_gas {
            Some(g) => g,
            None => {
                proof {
                    if spec_publish_ok(objs, ev) {
                        let g = choose|g: int|
                            0 <= g < touched_v.len() && spec_gas_slot(
                                objs,
                                (#[trigger] touched_v[g]).0,
                                ev.gas_object.0,
                            ) && (forall|q: int|
                                0 <= q < touched_v.len() && q != g ==> !spec_gas_slot(
                                    objs,
                                    (#[trigger] touched_v[q]).0,
                                    ev.gas_object.0,
                                ));
                    }
                }
                return Err(
                    SuiError::InconsistentGatewayResult { error: "no gas updated".to_owned() },
                );
            },
        };
        proof {
            assert(spec_publish_ok(objs, ev));
        }
        Ok(
            TransactionResponse::PublishResponse(
                PublishResponse { certificate, package, created_objects, updated_gas },
            ),
        )
    }

    /// Shape the response of a coin split: two mutated objects (the coin
    /// and the gas), one created coin per requested amount, all owned by
    /// the signer. Succeeds exactly when the outcome has that shape, and
    /// then returns the updated coin, the new coins in effect order, and
    /// the updated gas, all read from the store.
    #[verifier::loop_isolation(false)]
    pub fn create_split_coin_response(
        &self,
        certificate: CertifiedTransaction,
        effects: TransactionEffects,
    ) -> (r: SuiResult<TransactionResponse>)
        ensures
            r is Ok <==> spec_split_ok(self.store.objects@, certificate@, effects@),
            r matches Ok(resp) ==> resp is SplitCoinResponse,
            r matches Ok(TransactionResponse::SplitCoinResponse(sr)) ==> (match
                certificate@.transaction.data.kind {
                crate::messages::TransactionKindV::Single(k) => match k {
                    crate::messages::SingleTransactionKindV::Call(c) => {
                        &&& sr.certificate@ == certificate@
                        &&& spec_find_object(self.store.objects@, c.object_arguments[0].id)
                            == Some(sr.updated_coin@)
                        &&& sr.new_coins@.len() == effects@.created.len()
                        &&& (forall|k: int|
                            0 <= k < sr.new_coins@.len() ==> spec_find_object(
                                self.store.objects@,
                                (#[trigger] effects@.created[k]).0.id,
                            ) == Some(sr.new_coins@[k]@))
                        &&& spec_find_object(
                            self.store.objects@,
                            certificate@.transaction.data.gas_payment.id,
                        ) == Some(sr.updated_gas@)
                    },
                    _ => false,
                },
                _ => false,
            }),
            r is Err && effects@.status is Success ==> r->Err_0 is InconsistentGatewayResult,
    {
        let ghost objs = self.store.objects@;
        let signer = certificate.transaction.sender_address();
        let gas_ref = certificate.transaction.gas_payment_object_ref();
        let (coin_object_id, split_amount_count) = {
            let call = match Self::try_get_move_call(&certificate) {
                Ok(c) => c,
                Err(e) => {
                    return Err(e);
                },
            };
            if call.object_arguments.len() < 1 || call.pure_arguments.len() < 1 {
                return Err(
                    SuiError::InconsistentGatewayResult {
                        error: "malformed transaction data".to_owned(),
                    },
                );
            }
            let amounts = match crate::codec::decode_u64_list(&call.pure_arguments[0], 0) {
                Some((v, _)) => v,
                None => {
                    return Err(
                        SuiError::InconsistentGatewayResult {
                            error: "split amounts do not decode".to_owned(),
                        },
                    );
                },
            };
            proof {
                assert(crate::modules::vecs_as_seqs(call.pure_arguments@)[0]
                    == call.pure_arguments@[0]@);
                assert(crate::messages::refs_view(call.object_arguments@)[0] == ref_view(
                    call.object_arguments@[0],
                ));
            }
            (call.object_arguments[0].0, amounts.len())
        };
        match &effects.status {
            crate::effects::ExecutionStatus::Failure { error, .. } => {
                return Err((**error).clone());
            },
            _ => {},
        }
        if effects.mutated.len() != 2 {
            return Err(
                SuiError::InconsistentGatewayResult {
                    error: "unexpected split outcome".to_owned(),
                },
            );
        }
        if effects.created.len() != split_amount_count {
            return Err(
                SuiError::InconsistentGatewayResult {
                    error: "unexpected split outcome".to_owned(),
                },
            );
        }
        let mut k: usize = 0;
        while k < effects.created.len()
            invariant
                0 <= k <= effects@.created.len(),
                forall|q: int|
                    0 <= q < k ==> (#[trigger] effects@.created[q]).1
                        == crate::object::OwnerV::AddressOwner(
                        certificate@.transaction.data.sender,
                    ),
            decreases effects@.created.len() - k,
        {
            let owner_ok = match &effects.created[k].1 {
                Owner::AddressOwner(a) => bytes_eq(&a.0, &signer.0),
                _ => false,
            };
            if !owner_ok {
                proof {
                    assert(effects@.created[k as int].1 != crate::object::OwnerV::AddressOwner(
                        certificate@.transaction.data.sender,
                    ));
                }
                return Err(
                    SuiError::InconsistentGatewayResult {
                        error: "unexpected split outcome".to_owned(),
                    },
                );
            }
            proof {
                assert(effects@.created[k as int].1 == crate::object::OwnerV::AddressOwner(
                    certificate@.transaction.data.sender,
                ));
            }
            k += 1;
        }
        let updated_coin = match self.store.get_object(&coin_object_id) {
            Some(o) => o,
            None => {
                return Err(
                    SuiError::InconsistentGatewayResult {
                        error: "the split coin is missing from the store".to_owned(),
                    },
                );
            },
        };
        let mut new_coins: Vec<Object> = Vec::new();
        let mut c: usize = 0;
        while c < effects.created.len()
            invariant
                new_coins@.len() == c,
                0 <= c <= effects@.created.len(),
                forall|q: int|
                    0 <= q < c ==> spec_find_object(
                        objs,
                        (#[trigger] effects@.created[q]).0.id,
                    ) == Some(new_coins@[q]@),
            decreases effects@.created.len() - c,
        {
            let id = effects.created[c].0.0;
            match self.store.get_object(&id) {
                Some(o) => {
                    let ghost prev = new_coins@;
                    new_coins.push(o);
                    proof {
                        assert(crate::effects::ref_owners_view(effects.created@)[c as int].0
                            == ref_view(effects.created@[c as int].0));
                        assert forall|q: int|
                            0 <= q < c + 1 implies spec_find_object(
                            objs,
                            (#[trigger] effects@.created[q]).0.id,
                        ) == Some(new_coins@[q]@) by {
                            crate::store::lemma_push_index_pub(prev, new_coins@.last(), q);
                        }
                    }
                },
                None => {
                    proof {
                        assert(crate::effects::ref_owners_view(effects.created@)[c as int].0
                            == ref_view(effects.created@[c as int].0));
                    }
                    return Err(
                        SuiError::InconsistentGatewayResult {
                            error: "a new coin is missing from the store".to_owned(),
                        },
                    );
                },
            }
            c += 1;
        }
        let updated_gas = match self.store.get_object(&gas_ref.0) {
            Some(o) => o,
            None => {
                return Err(
                    SuiError::InconsistentGatewayResult {
                        error: "the gas object is missing from the store".to_owned(),
                    },
                );
            },
        };
        Ok(
            TransactionResponse::SplitCoinResponse(
                SplitCoinResponse { certificate, updated_coin, new_coins, updated_gas },
            ),
        )
    }

    /// Shape the response of a coin merge: two mutated objects, the
    /// surviving coin and the gas, both read from the store. Succeeds
    /// exactly when the outcome has that shape.
    #[verifier::loop_isolation(false)]
    pub fn create_merge_coin_response(
        &self,
        certificate: CertifiedTransaction,
        effects: TransactionEffects,
    ) -> (r: SuiResult<TransactionResponse>)
        ensures
            r is Ok <==> spec_merge_ok(self.store.objects@, certificate@, effects@),
            r matches Ok(resp) ==> resp is MergeCoinResponse,
            r matches Ok(TransactionResponse::MergeCoinResponse(mr)) ==> (match
                certificate@.transaction.data.kind {
                crate::messages::TransactionKindV::Single(k) => match k {
                    crate::messages::SingleTransactionKindV::Call(c) => {
                        &&& mr.certificate@ == certificate@
                        &&& spec_find_object(self.store.objects@, c.object_arguments[0].id)
                            == Some(mr.updated_coin@)
                        &&& spec_find_object(
                            self.store.objects@,
                            certificate@.transaction.data.gas_payment.id,
                        ) == Some(mr.updated_gas@)
                    },
                    _ => false,
                },
                _ => false,
            }),
            r is Err && effects@.status is Success ==> r->Err_0 is InconsistentGatewayResult,
    {
        let ghost objs = self.store.objects@;
        let gas_ref = certificate.transaction.gas_payment_object_ref();
        let primary_coin_id = {
            let call = match Self::try_get_move_call(&certificate) {
                Ok(c) => c,
                Err(e) => {
                    return Err(e);
                },
            };
            if call.object_arguments.len() < 1 {
                return Err(
                    SuiError::InconsistentGatewayResult {
                        error: "malformed transaction data".to_owned(),
                    },
                );
            }
            proof {
                assert(crate::messages::refs_view(call.object_arguments@)[0] == ref_view(
                    call.object_arguments@[0],
                ));
            }
            call.object_arguments[0].0
        };
        match &effects.status {
            crate::effects::ExecutionStatus::Failure { error, .. } => {
                return Err((**error).clone());
            },
            _ => {},
        }
        if effects.mutated.len() != 2 {
            return Err(
                SuiError::InconsistentGatewayResult {
                    error: "unexpected merge outcome".to_owned(),
                },
            );
        }
        let updated_coin = match self.store.get_object(&primary_coin_id) {
            Some(o) => o,
            None => {
                return Err(
                    SuiError::InconsistentGatewayResult {
                        error: "the merged coin is missing from the store".to_owned(),
                    },
                );
            },
        };
        let updated_gas = match self.store.get_object(&gas_ref.0) {
            Some(o) => o,
            None => {
                return Err(
                    SuiError::InconsistentGatewayResult {
                        error: "the gas object is missing from the store".to_owned(),
                    },
                );
            },
        };
        Ok(
            TransactionResponse::MergeCoinResponse(
                MergeCoinResponse { certificate, updated_coin, updated_gas },
            ),
        )
    }

    /// Shape the response for a committed transaction by its kind: a
    /// publish gets the publish response, a framework coin split or join
    /// its coin response, and everything else the generic effect response
    /// carrying the certificate and effects unchanged.
    pub fn shape_transaction_response(
        &self,
        certificate: CertifiedTransaction,
        effects: TransactionEffects,
        framework: &ObjectRef,
    ) -> (r: SuiResult<TransactionResponse>)
        ensures
            spec_response_route(certificate@, ref_view(*framework)) == 1 ==> (r is Ok
                <==> spec_publish_ok(self.store.objects@, effects@)),
            spec_response_route(certificate@, ref_view(*framework)) == 1 && r is Ok ==> (r
                matches Ok(resp) && resp is PublishResponse),
            spec_response_route(certificate@, ref_view(*framework)) == 2 ==> (r is Ok
                <==> spec_split_ok(self.store.objects@, certificate@, effects@)),
            spec_response_route(certificate@, ref_view(*framework)) == 2 && r is Ok ==> (r
                matches Ok(resp) && resp is SplitCoinResponse),
            spec_response_route(certificate@, ref_view(*framework)) == 3 ==> (r is Ok
                <==> spec_merge_ok(self.store.objects@, certificate@, effects@)),
            spec_response_route(certificate@, ref_view(*framework)) == 3 && r is Ok ==> (r
                matches Ok(resp) && resp is MergeCoinResponse),
            spec_response_route(certificate@, ref_view(*framework)) == 0 ==> (r matches Ok(
                TransactionResponse::EffectResponse(c, e),
            ) && c@ == certificate@ && e@ == effects@),
    {
        let ghost route = spec_response_route(certificate@, ref_view(*framework));
        let is_publish = match certificate.transaction.data.kind() {
            TransactionKind::Single(SingleTransactionKind::Publish(_)) => true,
            _ => false,
        };
        if is_publish {
            proof {
                assert(route == 1);
            }
            return self.create_publish_response(certificate, effects);
        }
        let coin_kind: u8 = match certificate.transaction.data.kind() {
            TransactionKind::Single(SingleTransactionKind::Call(call)) => {
                if crate::base_types::object_ref_eq(&call.package, framework) && bytes_vec_eq_arr(
                    &call.module,
                    &[99u8, 111u8, 105u8, 110u8],
                ) {
                    proof {
                        assert(call@.package =~= ref_view(*framework));
                        assert(call.module@ =~= spec_coin_module_name());
                    }
                    if bytes_vec_eq_arr(
                        &call.function,
                        &[115u8, 112u8, 108u8, 105u8, 116u8, 95u8, 118u8, 101u8, 99u8],
                    ) {
                        proof {
                            assert(call.function@ =~= spec_coin_split_vec_name());
                        }
                        1
                    } else if bytes_vec_eq_arr(&call.function, &[106u8, 111u8, 105u8, 110u8]) {
                        proof {
                            assert(call.function@ =~= spec_coin_join_name());
                            assert(call.function@ != spec_coin_split_vec_name());
                        }
                        2
                    } else {
                        proof {
                            assert(call.function@ != spec_coin_split_vec_name());
                            assert(call.function@ != spec_coin_join_name());
                        }
                        0
                    }
                } else {
                    proof {
                        if call@.package == ref_view(*framework) && call@.module
                            == spec_coin_module_name() {
                            assert(false);
                        }
                    }
                    0
                }
            },
            _ => 0,
        };
        if coin_kind == 1 {
            proof {
                assert(route == 2);
            }
            self.create_split_coin_response(certificate, effects)
        } else if coin_kind == 2 {
            proof {
                assert(route == 3);
            }
            self.create_merge_coin_response(certificate, effects)
        } else {
            proof {
                assert(route == 0);
            }
            Ok(TransactionResponse::EffectResponse(certificate, effects))
        }
    }

    /// Build the data for a coin transfer from the local mirror.
    pub fn transfer_coin(
        &self,
        signer: SuiAddress,
        object_id: ObjectID,
        gas_payment: ObjectID,
        recipient: SuiAddress,
    ) -> (r: SuiResult<TransactionData>)
        ensures
            r is Ok <==> (spec_find_object(self.store.objects@, object_id@) is Some
                && spec_find_object(self.store.objects@, gas_payment@) is Some),
            r is Err ==> r->Err_0 is ObjectNotFound,
            r matches Ok(d) ==> {
                &&& d@.sender == signer@
                &&& spec_find_object(self.store.objects@, object_id@) matches Some(obj)
                    && spec_find_object(self.store.objects@, gas_payment@) matches Some(gas)
                    && d@.gas_payment == spec_object_reference(gas) && d@.kind
                    == crate::messages::TransactionKindV::Single(
                    crate::messages::SingleTransactionKindV::Transfer(
                        crate::messages::TransferV {
                            recipient: recipient@,
                            object_ref: spec_object_reference(obj),
                        },
                    ),
                )
            },
    {
        let object = match self.store.get_object(&object_id) {
            Some(o) => o,
            None => {
                return Err(SuiError::ObjectNotFound { object_id });
            },
        };
        let object_ref = object.compute_object_reference();
        let gas_object = match self.store.get_object(&gas_payment) {
            Some(o) => o,
            None => {
                return Err(SuiError::ObjectNotFound { object_id: gas_payment });
            },
        };
        let gas_payment_ref = gas_object.compute_object_reference();
        Ok(TransactionData::new_transfer(recipient, object_ref, signer, gas_payment_ref))
    }

    /// Build the data for a move call.
    pub fn move_call(
        &self,
        signer: SuiAddress,
        package_object_ref: ObjectRef,
        module: Vec<u8>,
        function: Vec<u8>,
        type_arguments: Vec<Vec<u8>>,
        gas_object_ref: ObjectRef,
        object_arguments: Vec<ObjectRef>,
        shared_object_arguments: Vec<ObjectID>,
        pure_arguments: Vec<Vec<u8>>,
        gas_budget: u64,
    ) -> (r: SuiResult<TransactionData>)
        ensures
            r is Ok,
            r matches Ok(d) ==> {
                &&& d@.sender == signer@
                &&& d@.gas_payment == ref_view(gas_object_ref)
                &&& d@.kind == crate::messages::TransactionKindV::Single(
                    crate::messages::SingleTransactionKindV::Call(
                        crate::messages::MoveCallV {
                            package: ref_view(package_object_ref),
                            module: module@,
                            function: function@,
                            type_arguments: crate::modules::vecs_as_seqs(type_arguments@),
                            object_arguments: crate::messages::refs_view(object_arguments@),
                            shared_object_arguments: crate::messages::object_ids_view(
                                shared_object_arguments@,
                            ),
                            pure_arguments: crate::modules::vecs_as_seqs(pure_arguments@),
                            gas_budget: gas_budget,
                        },
                    ),
                )
            },
    {
        Ok(
            TransactionData::new_move_call(
                signer,
                package_object_ref,
                module,
                function,
                type_arguments,
                gas_object_ref,
                object_arguments,
                shared_object_arguments,
                pure_arguments,
                gas_budget,
            ),
        )
    }

    /// Build the data for a module publish.
    pub fn publish(
        &self,
        signer: SuiAddress,
        package_bytes: Vec<Vec<u8>>,
        gas_object_ref: ObjectRef,
        gas_budget: u64,
    ) -> (r: SuiResult<TransactionData>)
        ensures
            r is Ok,
            r matches Ok(d) ==> {
                &&& d@.sender == signer@
                &&& d@.gas_payment == ref_view(gas_object_ref)
                &&& d@.kind == crate::messages::TransactionKindV::Single(
                    crate::messages::SingleTransactionKindV::Publish(
                        crate::messages::MoveModulePublishV {
                            modules: crate::modules::vecs_as_seqs(package_bytes@),
                            gas_budget: gas_budget,
                        },
                    ),
                )
            },
    {
        Ok(TransactionData::new_module(signer, gas_object_ref, package_bytes, gas_budget))
    }

    /// Build the data for a coin split: a framework coin call with the
    /// amounts as the one pure argument.
    pub fn split_coin(
        &self,
        signer: SuiAddress,
        coin_object_id: ObjectID,
        split_amounts: &Vec<u64>,
        gas_payment: ObjectID,
        gas_budget: u64,
        framework: ObjectRef,
    ) -> (r: SuiResult<TransactionData>)
        ensures
            r is Ok <==> (spec_find_object(self.store.objects@, coin_object_id@) matches Some(c)
                && c.data is MoveValue && spec_find_object(
                self.store.objects@,
                gas_payment@,
            ) is Some),
            r matches Ok(d) ==> {
                &&& spec_find_object(self.store.objects@, coin_object_id@) matches Some(c)
                    && spec_find_object(self.store.objects@, gas_payment@) matches Some(g)
                    && d@.sender == signer@ && d@.gas_payment == spec_object_reference(g)
                    && d@.kind == crate::messages::TransactionKindV::Single(
                    crate::messages::SingleTransactionKindV::Call(
                        crate::messages::MoveCallV {
                            package: ref_view(framework),
                            module: spec_coin_module_name(),
                            function: spec_coin_split_vec_name(),
                            type_arguments: seq![c.data->MoveValue_type_tag],
                            object_arguments: seq![spec_object_reference(c)],
                            shared_object_arguments: Seq::empty(),
                            pure_arguments: seq![
                                crate::codec::enc_counted(
                                    split_amounts@,
                                    crate::codec::enc_u64_fn(),
                                ),
                            ],
                            gas_budget: gas_budget,
                        },
                    ),
                )
            },
            r is Err && (spec_find_object(self.store.objects@, coin_object_id@) is None
                || spec_find_object(self.store.objects@, gas_payment@) is None) ==> r->Err_0
                is ObjectNotFound,
            r is Err && spec_find_object(self.store.objects@, coin_object_id@) is Some
                && spec_find_object(self.store.objects@, gas_payment@) is Some ==> r->Err_0
                is InconsistentGatewayResult,
    {
        let coin_object = match self.store.get_object(&coin_object_id) {
            Some(o) => o,
            None => {
                return Err(SuiError::ObjectNotFound { object_id: coin_object_id });
            },
        };
        let coin_object_ref = coin_object.compute_object_reference();
        let gas_object = match self.store.get_object(&gas_payment) {
            Some(o) => o,
            None => {
                return Err(SuiError::ObjectNotFound { object_id: gas_payment });
            },
        };
        let gas_payment_ref = gas_object.compute_object_reference();
        let coin_type = match coin_object.get_move_template_type() {
            Ok(t) => t,
            Err(e) => {
                return Err(e);
            },
        };
        let mut module: Vec<u8> = Vec::new();
        module.push(99);
        module.push(111);
        module.push(105);
        module.push(110);
        let mut function: Vec<u8> = Vec::new();
        function.push(115);
        function.push(112);
        function.push(108);
        function.push(105);
        function.push(116);
        function.push(95);
        function.push(118);
        function.push(101);
        function.push(99);
        proof {
            assert(module@ =~= spec_coin_module_name());
            assert(function@ =~= spec_coin_split_vec_name());
        }
        let mut amounts_bytes: Vec<u8> = Vec::new();
        crate::codec::encode_u64_list(split_amounts, &mut amounts_bytes);
        let mut type_arguments: Vec<Vec<u8>> = Vec::new();
        type_arguments.push(coin_type);
        let mut object_arguments: Vec<ObjectRef> = Vec::new();
        object_arguments.push(coin_object_ref);
        let mut pure_arguments: Vec<Vec<u8>> = Vec::new();
        pure_arguments.push(amounts_bytes);
        proof {
            assert(crate::modules::vecs_as_seqs(type_arguments@) =~= seq![
                coin_object@.data->MoveValue_type_tag,
            ]);
            assert(crate::messages::refs_view(object_arguments@) =~= seq![
                spec_object_reference(coin_object@),
            ]);
            assert(crate::messages::object_ids_view(Seq::<ObjectID>::empty()) =~= Seq::<
                Seq<u8>,
            >::empty());
            assert(crate::modules::vecs_as_seqs(pure_arguments@) =~= seq![
                crate::codec::enc_counted(split_amounts@, crate::codec::enc_u64_fn()),
            ]);
        }
        let d = TransactionData::new_move_call(
            signer,
            framework,
            module,
            function,
            type_arguments,
            gas_payment_ref,
            object_arguments,
            Vec::new(),
            pure_arguments,
            gas_budget,
        );
        proof {
            assert(d@.kind matches crate::messages::TransactionKindV::Single(
                crate::messages::SingleTransactionKindV::Call(c),
            ) && c =~= (crate::messages::MoveCallV {
                package: ref_view(framework),
                module: spec_coin_module_name(),
                function: spec_coin_split_vec_name(),
                type_arguments: seq![coin_object@.data->MoveValue_type_tag],
                object_arguments: seq![spec_object_reference(coin_object@)],
                shared_object_arguments: Seq::empty(),
                pure_arguments: seq![
                    crate::codec::enc_counted(split_amounts@, crate::codec::enc_u64_fn()),
                ],
                gas_budget: gas_budget,
            }));
        }
        Ok(d)
    }

    /// Build the data for a coin merge: a framework coin call joining the
    /// merged coin into the primary one.
    pub fn merge_coins(
        &self,
        signer: SuiAddress,
        primary_coin: ObjectID,
        coin_to_merge: ObjectID,
        gas_payment: ObjectID,
        gas_budget: u64,
        framework: ObjectRef,
    ) -> (r: SuiResult<TransactionData>)
        ensures
            r is Ok <==> {
                &&& spec_find_object(self.store.objects@, primary_coin@) is Some
                &&& spec_find_object(self.store.objects@, coin_to_merge@) matches Some(m)
                    && m.data is MoveValue
                &&& spec_find_object(self.store.objects@, gas_payment@) is Some
            },
            r matches Ok(d) ==> {
                &&& spec_find_object(self.store.objects@, primary_coin@) matches Some(p)
                    && spec_find_object(self.store.objects@, coin_to_merge@) matches Some(m)
                    && spec_find_object(self.store.objects@, gas_payment@) matches Some(g)
                    && d@.sender == signer@ && d@.gas_payment == spec_object_reference(g)
                    && d@.kind == crate::messages::TransactionKindV::Single(
                    crate::messages::SingleTransactionKindV::Call(
                        crate::messages::MoveCallV {
                            package: ref_view(framework),
                            module: spec_coin_module_name(),
                            function: spec_coin_join_name(),
                            type_arguments: seq![m.data->MoveValue_type_tag],
                            object_arguments: seq![
                                spec_object_reference(p),
                                spec_object_reference(m),
                            ],
                            shared_object_arguments: Seq::empty(),
                            pure_arguments: Seq::empty(),
                            gas_budget: gas_budget,
                        },
                    ),
                )
            },
            r is Err && (spec_find_object(self.store.objects@, primary_coin@) is None
                || spec_find_object(self.store.objects@, coin_to_merge@) is None
                || spec_find_object(self.store.objects@, gas_payment@) is None) ==> r->Err_0
                is ObjectNotFound,
            r is Err && spec_find_object(self.store.objects@, primary_coin@) is Some
                && spec_find_object(self.store.objects@, coin_to_merge@) is Some
                && spec_find_object(self.store.objects@, gas_payment@) is Some ==> r->Err_0
                is InconsistentGatewayResult,
    {
        let primary = match self.store.get_object(&primary_coin) {
            Some(o) => o,
            None => {
                return Err(SuiError::ObjectNotFound { object_id: primary_coin });
            },
        };
        let primary_ref = primary.compute_object_reference();
        let merged = match self.store.get_object(&coin_to_merge) {
            Some(o) => o,
            None => {
                return Err(SuiError::ObjectNotFound { object_id: coin_to_merge });
            },
        };
        let merged_ref = merged.compute_object_reference();
        let gas_object = match self.store.get_object(&gas_payment) {
            Some(o) => o,
            None => {
                return Err(SuiError::ObjectNotFound { object_id: gas_payment });
            },
        };
        let gas_payment_ref = gas_object.compute_object_reference();
        let coin_type = match merged.get_move_template_type() {
            Ok(t) => t,
            Err(e) => {
                return Err(e);
            },
        };
        let mut module: Vec<u8> = Vec::new();
        module.push(99);
        module.push(111);
        module.push(105);
        module.push(110);
        let mut function: Vec<u8> = Vec::new();
        function.push(106);
        function.push(111);
        function.push(105);
        function.push(110);
        proof {
            assert(module@ =~= spec_coin_module_name());
            assert(function@ =~= spec_coin_join_name());
        }
        let mut type_arguments: Vec<Vec<u8>> = Vec::new();
        type_arguments.push(coin_type);
        let mut object_arguments: Vec<ObjectRef> = Vec::new();
        object_arguments.push(primary_ref);
        object_arguments.push(merged_ref);
        proof {
            assert(crate::modules::vecs_as_seqs(type_arguments@) =~= seq![
                merged@.data->MoveValue_type_tag,
            ]);
            assert(crate::messages::refs_view(object_arguments@) =~= seq![
                spec_object_reference(primary@),
                spec_object_reference(merged@),
            ]);
            assert(crate::messages::object_ids_view(Seq::<ObjectID>::empty()) =~= Seq::<
                Seq<u8>,
            >::empty());
            assert(crate::modules::vecs_as_seqs(Seq::<Vec<u8>>::empty()) =~= Seq::<
                Seq<u8>,
            >::empty());
        }
        let d = TransactionData::new_move_call(
            signer,
            framework,
            module,
            function,
            type_arguments,
            gas_payment_ref,
            object_arguments,
            Vec::new(),
            Vec::new(),
            gas_budget,
        );
        proof {
            assert(d@.kind matches crate::messages::TransactionKindV::Single(
                crate::messages::SingleTransactionKindV::Call(c),
            ) && c =~= (crate::messages::MoveCallV {
                package: ref_view(framework),
                module: spec_coin_module_name(),
                function: spec_coin_join_name(),
                type_arguments: seq![merged@.data->MoveValue_type_tag],
                object_arguments: seq![spec_object_reference(primary@), spec_object_reference(
                    merged@,
                )],
                shared_object_arguments: Seq::empty(),
                pure_arguments: Seq::empty(),
                gas_budget: gas_budget,
            }));
        }
        Ok(d)
    }

    /// Look an object up: live in the mirror, recorded as deleted or
    /// wrapped in the parent history, or never seen.
    pub fn get_object_info(&self, object_id: ObjectID) -> (r: SuiResult<ObjectRead>)
        ensures
            spec_find_object(self.store.objects@, object_id@) matches Some(o) ==> (r matches
                Ok(ObjectRead::Exists(oref, obj)) && obj@ == o && ref_view(oref)
                == spec_object_reference(o)),
            r matches Ok(ObjectRead::Exists(oref, o)) ==> spec_find_object(
                self.store.objects@,
                object_id@,
            ) == Some(o@) && ref_view(oref) == spec_object_reference(o@),
            r matches Ok(ObjectRead::NotExists(id)) ==> id == object_id && spec_find_object(
                self.store.objects@,
                object_id@,
            ) is None,
            spec_find_object(self.store.objects@, object_id@) is None && (forall|k: int|
                0 <= k < self.store.parent_sync@.len() ==> ref_view(
                    (#[trigger] self.store.parent_sync@[k]).0,
                ).id != object_id@) ==> {
                r matches Ok(ObjectRead::NotExists(id)) && id == object_id
            },
            r matches Ok(ObjectRead::Deleted(oref)) ==> {
                &&& oref.0@ == object_id@
                &&& spec_find_object(self.store.objects@, object_id@) is None
                &&& (exists|d: Seq<u8>|
                    crate::store::spec_parent_contains(
                        self.store.parent_sync@,
                        ref_view(oref),
                        d,
                    ))
                &&& (ref_view(oref).digest == crate::base_types::spec_object_digest_deleted()
                    || ref_view(oref).digest == crate::base_types::spec_object_digest_wrapped())
                &&& (forall|k: int|
                    0 <= k < self.store.parent_sync@.len() && ref_view(
                        (#[trigger] self.store.parent_sync@[k]).0,
                    ).id == object_id@ ==> ref_view(self.store.parent_sync@[k].0).version
                        <= ref_view(oref).version)
            },
            r is Err ==> r->Err_0 is InconsistentGatewayResult,
    {
        if let Some(object) = self.store.get_object(&object_id) {
            let oref = object.compute_object_reference();
            return Ok(ObjectRead::Exists(oref, object));
        }
        match self.store.get_latest_parent_entry(&object_id) {
            Some((oref, digest)) => {
                let deleted = ObjectDigest::deleted();
                let wrapped = ObjectDigest::wrapped();
                if bytes_eq(&oref.2.0, &deleted.0) || bytes_eq(&oref.2.0, &wrapped.0) {
                    proof {
                        assert(crate::store::spec_parent_contains(
                            self.store.parent_sync@,
                            ref_view(oref),
                            digest@,
                        ));
                        assert(ref_view(oref).digest
                            == crate::base_types::spec_object_digest_deleted() || ref_view(
                            oref,
                        ).digest == crate::base_types::spec_object_digest_wrapped());
                        assert(ref_view(oref).version == oref.1.0);
                    }
                    Ok(ObjectRead::Deleted(oref))
                } else {
                    Err(
                        SuiError::InconsistentGatewayResult {
                            error: "object is not live but its latest parent entry is no tombstone"
                                .to_owned(),
                        },
                    )
                }
            },
            None => Ok(ObjectRead::NotExists(object_id)),
        }
    }

    /// The references of every object an address owns in the mirror.
    pub fn get_owned_objects(&self, account_addr: SuiAddress) -> (r: Vec<ObjectRef>)
        ensures
            forall|k: int|
                0 <= k < r@.len() ==> crate::store::spec_owned_ref(
                    self.store.objects@,
                    account_addr@,
                    ref_view(#[trigger] r@[k]),
                ),
            forall|q: int|
                0 <= q < self.store.objects@.len() && (#[trigger] self.store.objects@[q])@.owner
                    == crate::object::OwnerV::AddressOwner(account_addr@)
                    ==> crate::store::spec_ref_listed(
                    r@,
                    spec_object_reference(self.store.objects@[q]@),
                ),
    {
        self.store.get_account_objects(&account_addr)
    }

    /// Apply one batch of synced account objects: insert every object
    /// through the privileged path and record the parent certificates.
    /// Later entries win when two share an object id or a digest. Sync is
    /// best effort; what the reachable authorities reported is what lands.
    #[verifier::loop_isolation(false)]
    pub fn apply_account_sync(
        &mut self,
        active_objects: Vec<(Object, Option<CertifiedTransaction>)>,
    )
        requires
            old(self).store.well_formed(),
        ensures
            final(self).store.well_formed(),
            final(self).committee == old(self).committee,
            forall|k: int|
                0 <= k < active_objects@.len() && (forall|j: int|
                    k < j < active_objects@.len() ==> (#[trigger] active_objects@[j]).0@.id
                        != active_objects@[k].0@.id) ==> spec_find_object(
                    final(self).store.objects@,
                    (#[trigger] active_objects@[k]).0@.id,
                ) == Some(active_objects@[k].0@),
            forall|k: int|
                0 <= k < active_objects@.len() ==> (match (#[trigger] active_objects@[k]).1 {
                    Some(cert) => (forall|j: int|
                        k < j < active_objects@.len() ==> (match (
                        #[trigger] active_objects@[j]).1 {
                            Some(c2) => spec_transaction_digest(c2@.transaction.data)
                                != spec_transaction_digest(cert@.transaction.data),
                            None => true,
                        })) ==> crate::store::spec_cert_of(
                        final(self).store.certificates@,
                        spec_transaction_digest(cert@.transaction.data),
                    ) == Some(cert@),
                    None => true,
                }),
    {
        let n = active_objects.len();
        let mut i: usize = 0;
        while i < n
            invariant
                0 <= i <= n,
                self.store.well_formed(),
                self.committee == old(self).committee,
                forall|k: int|
                    0 <= k < i && (forall|j: int|
                        k < j < i ==> (#[trigger] active_objects@[j]).0@.id
                            != active_objects@[k].0@.id) ==> spec_find_object(
                        self.store.objects@,
                        (#[trigger] active_objects@[k]).0@.id,
                    ) == Some(active_objects@[k].0@),
                forall|k: int|
                    0 <= k < i ==> (match (#[trigger] active_objects@[k]).1 {
                        Some(cert) => (forall|j: int|
                            k < j < i ==> (match (#[trigger] active_objects@[j]).1 {
                                Some(c2) => spec_transaction_digest(c2@.transaction.data)
                                    != spec_transaction_digest(cert@.transaction.data),
                                None => true,
                            })) ==> crate::store::spec_cert_of(
                            self.store.certificates@,
                            spec_transaction_digest(cert@.transaction.data),
                        ) == Some(cert@),
                        None => true,
                    }),
            decreases n - i,
        {
            let object = active_objects[i].0.clone();
            self.store.insert_object_unsafe(object);
            match &active_objects[i].1 {
                Some(cert) => {
                    let copy = cert.clone();
                    let digest = copy.digest();
                    self.store.insert_cert(digest, copy);
                },
                None => {},
            }
            i += 1;
        }
    }

    /// Check a finished object download against the request: the received
    /// references must be exactly the requested set — every requested
    /// reference arrived, and nothing arrived that was not requested.
    pub fn reconcile_fetched_objects(
        requested: &Vec<ObjectRef>,
        fetched: Vec<Object>,
    ) -> (r: SuiResult<Vec<Object>>)
        ensures
            r is Ok <==> ((forall|k: int|
                0 <= k < requested@.len() ==> spec_fetched_covers(
                    fetched@,
                    ref_view(#[trigger] requested@[k]),
                )) && (forall|p: int|
                0 <= p < fetched@.len() ==> crate::store::spec_ref_listed(
                    requested@,
                    spec_object_reference((#[trigger] fetched@[p])@),
                ))),
            r matches Ok(v) ==> v@ == fetched@,
            r is Err ==> r->Err_0 is InconsistentGatewayResult,
    {
        let mut k: usize = 0;
        while k < requested.len()
            invariant
                0 <= k <= requested@.len(),
                forall|q: int|
                    0 <= q < k ==> spec_fetched_covers(fetched@, ref_view(#[trigger] requested@[q])),
            decreases requested@.len() - k,
        {
            let mut found = false;
            let mut j: usize = 0;
            while j < fetched.len()
                invariant
                    0 <= j <= fetched@.len(),
                    k < requested@.len(),
                    found ==> spec_fetched_covers(fetched@, ref_view(requested@[k as int])),
                    !found ==> forall|p: int|
                        0 <= p < j ==> spec_object_reference((#[trigger] fetched@[p])@) != ref_view(
                            requested@[k as int],
                        ),
                decreases fetched@.len() - j,
            {
                let oref = fetched[j].compute_object_reference();
                if crate::base_types::object_ref_eq(&oref, &requested[k]) {
                    proof {
                        assert(ref_view(oref) =~= ref_view(requested@[k as int]));
                    }
                    found = true;
                }
                j += 1;
            }
            if !found {
                proof {
                    if spec_fetched_covers(fetched@, ref_view(requested@[k as int])) {
                        let p = choose|p: int|
                            0 <= p < fetched@.len() && spec_object_reference(
                                (#[trigger] fetched@[p])@,
                            ) == ref_view(requested@[k as int]);
                    }
                }
                return Err(
                    SuiError::InconsistentGatewayResult {
                        error: "failed to download some objects after the transaction succeeded"
                            .to_owned(),
                    },
                );
            }
            k += 1;
        }
        let mut p: usize = 0;
        while p < fetched.len()
            invariant
                0 <= p <= fetched@.len(),
                forall|q: int|
                    0 <= q < requested@.len() ==> spec_fetched_covers(
                        fetched@,
                        ref_view(#[trigger] requested@[q]),
                    ),
                forall|q: int|
                    0 <= q < p ==> crate::store::spec_ref_listed(
                        requested@,
                        spec_object_reference((#[trigger] fetched@[q])@),
                    ),
            decreases fetched@.len() - p,
        {
            let oref = fetched[p].compute_object_reference();
            let mut q: usize = 0;
            let mut listed = false;
            while q < requested.len()
                invariant
                    0 <= q <= requested@.len(),
                    p < fetched@.len(),
                    ref_view(oref) == spec_object_reference(fetched@[p as int]@),
                    listed ==> crate::store::spec_ref_listed(requested@, ref_view(oref)),
                    !listed ==> forall|t: int|
                        0 <= t < q ==> ref_view(#[trigger] requested@[t]) != ref_view(oref),
                decreases requested@.len() - q,
            {
                if crate::base_types::object_ref_eq(&requested[q], &oref) {
                    proof {
                        assert(ref_view(requested@[q as int]) =~= ref_view(oref));
                    }
                    listed = true;
                }
                q += 1;
            }
            if !listed {
                proof {
                    if crate::store::spec_ref_listed(requested@, ref_view(oref)) {
                        let t = choose|t: int|
                            0 <= t < requested@.len() && ref_view(#[trigger] requested@[t])
                                == ref_view(oref);
                    }
                }
                return Err(
                    SuiError::InconsistentGatewayResult {
                        error: "an object arrived that was not requested".to_owned(),
                    },
                );
            }
            p += 1;
        }
        Ok(fetched)
    }
}

} // verus!
