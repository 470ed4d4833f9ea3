//! Execution effects: the deterministic record of object-state transitions
//! a transaction produces, and the execution status with its call results.

use vstd::prelude::*;
use crate::base_types::{ObjectRef, SuiAddress, TransactionDigest, bytes_eq, object_ref_eq};
use crate::error::SuiError;
use crate::messages::{ObjectRefV, ref_view, copy_vec};
use crate::object::{Owner, OwnerV};

verus! {

/// One value returned by a Move call.
#[derive(Debug)]
pub enum CallResult {
    Bool(bool),
    U8(u8),
    U64(u64),
    U128(u128),
    Address(SuiAddress),
    BoolVec(Vec<bool>),
    U8Vec(Vec<u8>),
    U64Vec(Vec<u64>),
    U128Vec(Vec<u128>),
    AddrVec(Vec<SuiAddress>),
    BoolVecVec(Vec<bool>),
    U8VecVec(Vec<Vec<u8>>),
    U64VecVec(Vec<Vec<u64>>),
    U128VecVec(Vec<Vec<u128>>),
    AddrVecVec(Vec<Vec<SuiAddress>>),
}

/// A tagged byte model of one call result; injective on the variants used.
pub open spec fn call_result_model(c: CallResult) -> (int, Seq<int>, Seq<Seq<int>>) {
    match c {
        CallResult::Bool(b) => (0int, seq![if b { 1int } else { 0int }], Seq::empty()),
        CallResult::U8(v) => (1int, seq![v as int], Seq::empty()),
        CallResult::U64(v) => (2int, seq![v as int], Seq::empty()),
        CallResult::U128(v) => (3int, seq![v as int], Seq::empty()),
        CallResult::Address(a) => (4int, a@.map_values(|x: u8| x as int), Seq::empty()),
        CallResult::BoolVec(v) => (
            5int,
            v@.map_values(|x: bool| if x { 1int } else { 0int }),
            Seq::empty(),
        ),
        CallResult::U8Vec(v) => (6int, v@.map_values(|x: u8| x as int), Seq::empty()),
        CallResult::U64Vec(v) => (7int, v@.map_values(|x: u64| x as int), Seq::empty()),
        CallResult::U128Vec(v) => (8int, v@.map_values(|x: u128| x as int), Seq::empty()),
        CallResult::AddrVec(v) => (
            9int,
            Seq::empty(),
            v@.map_values(|a: SuiAddress| a@.map_values(|x: u8| x as int)),
        ),
        CallResult::BoolVecVec(v) => (
            10int,
            v@.map_values(|x: bool| if x { 1int } else { 0int }),
            Seq::empty(),
        ),
        CallResult::U8VecVec(v) => (
            11int,
            Seq::empty(),
            v@.map_values(|w: Vec<u8>| w@.map_values(|x: u8| x as int)),
        ),
        CallResult::U64VecVec(v) => (
            12int,
            Seq::empty(),
            v@.map_values(|w: Vec<u64>| w@.map_values(|x: u64| x as int)),
        ),
        CallResult::U128VecVec(v) => (
            13int,
            Seq::empty(),
            v@.map_values(|w: Vec<u128>| w@.map_values(|x: u128| x as int)),
        ),
        CallResult::AddrVecVec(v) => (
            14int,
            Seq::empty(),
            v@.map_values(
                |w: Vec<SuiAddress>| w@.map_values(|a: SuiAddress| a@.first() as int),
            ),
        ),
    }
}

impl View for CallResult {
    type V = (int, Seq<int>, Seq<Seq<int>>);

    open spec fn view(&self) -> (int, Seq<int>, Seq<Seq<int>>) {
        call_result_model(*self)
    }
}

impl Clone for CallResult {
    fn clone(&self) -> (r: Self)
        ensures
            r@ == self@,
    {
        match self {
            CallResult::Bool(b) => CallResult::Bool(*b),
            CallResult::U8(v) => CallResult::U8(*v),
            CallResult::U64(v) => CallResult::U64(*v),
            CallResult::U128(v) => CallResult::U128(*v),
            CallResult::Address(a) => CallResult::Address(*a),
            CallResult::BoolVec(v) => {
                let r = CallResult::BoolVec(copy_vec(v));
                proof {
                    assert(r@ =~~= self@);
                }
                r
            },
            CallResult::U8Vec(v) => {
                let r = CallResult::U8Vec(copy_vec(v));
                proof {
                    assert(r@ =~~= self@);
                }
                r
            },
            CallResult::U64Vec(v) => {
                let r = CallResult::U64Vec(copy_vec(v));
                proof {
                    assert(r@ =~~= self@);
                }
                r
            },
            CallResult::U128Vec(v) => {
                let r = CallResult::U128Vec(copy_vec(v));
                proof {
                    assert(r@ =~~= self@);
                }
                r
            },
            CallResult::AddrVec(v) => {
                let r = CallResult::AddrVec(copy_vec(v));
                proof {
                    assert(r@ =~~= self@);
                }
                r
            },
            CallResult::BoolVecVec(v) => {
                let r = CallResult::BoolVecVec(copy_vec(v));
                proof {
                    assert(r@ =~~= self@);
                }
                r
            },
            CallResult::U8VecVec(v) => {
                let r = CallResult::U8VecVec(v.clone());
                proof {
                    assert(r@ =~~= self@);
                }
                r
            },
            CallResult::U64VecVec(v) => {
                let r = CallResult::U64VecVec(v.clone());
                proof {
                    assert(r@ =~~= self@);
                }
                r
            },
            CallResult::U128VecVec(v) => {
                let r = CallResult::U128VecVec(v.clone());
                proof {
                    assert(r@ =~~= self@);
                }
                r
            },
            CallResult::AddrVecVec(v) => {
                let r = CallResult::AddrVecVec(v.clone());
                proof {
                    assert(r@ =~~= self@);
                }
                r
            },
        }
    }
}

/// The models of a list of call results.
pub open spec fn call_results_view(s: Seq<CallResult>) -> Seq<(int, Seq<int>, Seq<Seq<int>>)> {
    s.map_values(|c: CallResult| c@)
}

/// How an execution ended: success with results, or failure with the gas
/// still charged.
#[derive(Debug)]
pub enum ExecutionStatus {
    Success { gas_used: u64, results: Vec<CallResult> },
    Failure { gas_used: u64, error: Box<SuiError> },
}

/// Mathematical model of [`ExecutionStatus`]. A failure's error value is
/// diagnostic text and is not modelled.
#[verifier::ext_equal]
pub ghost enum ExecutionStatusV {
    Success { gas_used: u64, results: Seq<(int, Seq<int>, Seq<Seq<int>>)> },
    Failure { gas_used: u64 },
}

impl View for ExecutionStatus {
    type V = ExecutionStatusV;

    open spec fn view(&self) -> ExecutionStatusV {
        match self {
            ExecutionStatus::Success { gas_used, results } => ExecutionStatusV::Success {
                gas_used: *gas_used,
                results: call_results_view(results@),
            },
            ExecutionStatus::Failure { gas_used, .. } => ExecutionStatusV::Failure {
                gas_used: *gas_used,
            },
        }
    }
}

impl Clone for ExecutionStatus {
    fn clone(&self) -> (r: Self)
        ensures
            r@ == self@,
    {
        match self {
            ExecutionStatus::Success { gas_used, results } => {
                let mut rs: Vec<CallResult> = Vec::new();
                let mut i: usize = 0;
                while i < results.len()
                    invariant
                        0 <= i <= results@.len(),
                        rs@.len() == i,
                        forall|q: int| 0 <= q < i ==> rs@[q]@ == results@[q]@,
                    decreases results@.len() - i,
                {
                    rs.push(results[i].clone());
                    i += 1;
                }
                let r = ExecutionStatus::Success { gas_used: *gas_used, results: rs };
                proof {
                    assert(call_results_view(rs@) =~= call_results_view(results@));
                }
                r
            },
            ExecutionStatus::Failure { gas_used, error } => ExecutionStatus::Failure {
                gas_used: *gas_used,
                error: Box::new((**error).clone()),
            },
        }
    }
}

impl ExecutionStatus {
    pub fn new_failure(gas_used: u64, error: SuiError) -> (r: ExecutionStatus)
        ensures
            r@ == (ExecutionStatusV::Failure { gas_used }),
    {
        ExecutionStatus::Failure { gas_used, error: Box::new(error) }
    }

    pub fn is_ok(&self) -> (r: bool)
        ensures
            r == (self@ is Success),
    {
        matches!(self, ExecutionStatus::Success { .. })
    }

    pub fn is_err(&self) -> (r: bool)
        ensures
            r == (self@ is Failure),
    {
        matches!(self, ExecutionStatus::Failure { .. })
    }

    /// Take the gas and results of a successful execution.
    pub fn unwrap(self) -> (r: (u64, Vec<CallResult>))
        requires
            self@ is Success,
        ensures
            r.0 == self@->Success_gas_used,
            call_results_view(r.1@) == self@->Success_results,
    {
        match self {
            ExecutionStatus::Success { gas_used, results } => (gas_used, results),
            ExecutionStatus::Failure { .. } => {
                proof {
                    assert(false);
                }
                (0, Vec::new())
            },
        }
    }

    /// Take the gas and error of a failed execution.
    pub fn unwrap_err(self) -> (r: (u64, SuiError))
        requires
            self@ is Failure,
        ensures
            r.0 == self@->Failure_gas_used,
    {
        match self {
            ExecutionStatus::Success { .. } => {
                proof {
                    assert(false);
                }
                (0, SuiError::IncorrectSigner)
            },
            ExecutionStatus::Failure { gas_used, error } => (gas_used, *error),
        }
    }

    /// The gas charged, in success and in failure alike.
    pub fn gas_used(&self) -> (r: u64)
        ensures
            r == (match self@ {
                ExecutionStatusV::Success { gas_used, .. } => gas_used,
                ExecutionStatusV::Failure { gas_used } => gas_used,
            }),
    {
        match self {
            ExecutionStatus::Success { gas_used, .. } => *gas_used,
            ExecutionStatus::Failure { gas_used, .. } => *gas_used,
        }
    }
}

/// An event emitted by execution.
#[derive(Debug)]
pub struct Event {
    pub type_tag: Vec<u8>,
    pub contents: Vec<u8>,
}

/// Mathematical model of [`Event`].
#[verifier::ext_equal]
pub ghost struct EventV {
    pub type_tag: Seq<u8>,
    pub contents: Seq<u8>,
}

impl View for Event {
    type V = EventV;

    open spec fn view(&self) -> EventV {
        EventV { type_tag: self.type_tag@, contents: self.contents@ }
    }
}

impl Clone for Event {
    fn clone(&self) -> (r: Self)
        ensures
            r@ == self@,
    {
        Event { type_tag: self.type_tag.clone(), contents: self.contents.clone() }
    }
}

/// The models of a list of events.
pub open spec fn events_view(s: Seq<Event>) -> Seq<EventV> {
    s.map_values(|e: Event| e@)
}

/// The models of a list of (reference, owner) pairs.
pub open spec fn ref_owners_view(s: Seq<(ObjectRef, Owner)>) -> Seq<(ObjectRefV, OwnerV)> {
    s.map_values(|p: (ObjectRef, Owner)| (ref_view(p.0), p.1@))
}

/// The models of a list of references.
pub open spec fn obj_refs_view(s: Seq<ObjectRef>) -> Seq<ObjectRefV> {
    s.map_values(|r: ObjectRef| ref_view(r))
}

/// The models of a list of transaction digests.
pub open spec fn digests_view(s: Seq<TransactionDigest>) -> Seq<Seq<u8>> {
    s.map_values(|d: TransactionDigest| d@)
}

/// The record of object-state transitions one transaction produced.
#[derive(Debug)]
pub struct TransactionEffects {
    pub status: ExecutionStatus,
    pub transaction_digest: TransactionDigest,
    pub created: Vec<(ObjectRef, Owner)>,
    pub mutated: Vec<(ObjectRef, Owner)>,
    pub unwrapped: Vec<(ObjectRef, Owner)>,
    pub deleted: Vec<ObjectRef>,
    pub wrapped: Vec<ObjectRef>,
    pub gas_object: (ObjectRef, Owner),
    pub events: Vec<Event>,
    pub dependencies: Vec<TransactionDigest>,
}

/// Mathematical model of [`TransactionEffects`].
#[verifier::ext_equal]
pub ghost struct TransactionEffectsV {
    pub status: ExecutionStatusV,
    pub transaction_digest: Seq<u8>,
    pub created: Seq<(ObjectRefV, OwnerV)>,
    pub mutated: Seq<(ObjectRefV, OwnerV)>,
    pub unwrapped: Seq<(ObjectRefV, OwnerV)>,
    pub deleted: Seq<ObjectRefV>,
    pub wrapped: Seq<ObjectRefV>,
    pub gas_object: (ObjectRefV, OwnerV),
    pub events: Seq<EventV>,
    pub dependencies: Seq<Seq<u8>>,
}

impl View for TransactionEffects {
    type V = TransactionEffectsV;

    open spec fn view(&self) -> TransactionEffectsV {
        TransactionEffectsV {
            status: self.status@,
            transaction_digest: self.transaction_digest@,
            created: ref_owners_view(self.created@),
            mutated: ref_owners_view(self.mutated@),
            unwrapped: ref_owners_view(self.unwrapped@),
            deleted: obj_refs_view(self.deleted@),
            wrapped: obj_refs_view(self.wrapped@),
            gas_object: (ref_view(self.gas_object.0), self.gas_object.1@),
            events: events_view(self.events@),
            dependencies: digests_view(self.dependencies@),
        }
    }
}

impl Clone for TransactionEffects {
    fn clone(&self) -> (r: Self)
        ensures
            r@ == self@,
    {
        let mut events: Vec<Event> = Vec::new();
        let mut i: usize = 0;
        while i < self.events.len()
            invariant
                0 <= i <= self.events@.len(),
                events@.len() == i,
                forall|q: int| 0 <= q < i ==> events@[q]@ == self.events@[q]@,
            decreases self.events@.len() - i,
        {
            events.push(self.events[i].clone());
            i += 1;
        }
        let r = TransactionEffects {
            status: self.status.clone(),
            transaction_digest: self.transaction_digest,
            created: copy_vec(&self.created),
            mutated: copy_vec(&self.mutated),
            unwrapped: copy_vec(&self.unwrapped),
            deleted: copy_vec(&self.deleted),
            wrapped: copy_vec(&self.wrapped),
            gas_object: self.gas_object,
            events,
            dependencies: copy_vec(&self.dependencies),
        };
        proof {
            assert(events_view(r.events@) =~= events_view(self.events@));
            assert(r@ =~= self@);
        }
        r
    }
}

/// A list of (reference, owner) pairs with every entry equal to the gas
/// pair removed, in order.
pub open spec fn spec_excluding_gas(
    s: Seq<(ObjectRefV, OwnerV)>,
    gas: (ObjectRefV, OwnerV),
) -> Seq<(ObjectRefV, OwnerV)>
    decreases s.len(),
{
    if s.len() == 0 {
        Seq::empty()
    } else {
        spec_excluding_gas(s.drop_last(), gas) + (if s.last() == gas {
            Seq::empty()
        } else {
            seq![s.last()]
        })
    }
}

/// Whether an effect record touches a reference: it was mutated or created
/// at it, or the reference is the tombstone one past a deletion or a wrap.
pub open spec fn spec_object_mutated_here(e: TransactionEffectsV, obj_ref: ObjectRefV) -> bool {
    ||| (exists|i: int| 0 <= i < e.mutated.len() && (#[trigger] e.mutated[i]).0 == obj_ref)
    ||| (exists|i: int| 0 <= i < e.created.len() && (#[trigger] e.created[i]).0 == obj_ref)
    ||| (obj_ref.digest == crate::base_types::spec_object_digest_deleted() && exists|i: int|
        0 <= i < e.deleted.len() && (#[trigger] e.deleted[i]).id == obj_ref.id
            && e.deleted[i].version < u64::MAX && e.deleted[i].version + 1 == obj_ref.version)
    ||| (obj_ref.digest == crate::base_types::spec_object_digest_wrapped() && exists|i: int|
        0 <= i < e.wrapped.len() && (#[trigger] e.wrapped[i]).id == obj_ref.id
            && e.wrapped[i].version < u64::MAX && e.wrapped[i].version + 1 == obj_ref.version)
}

/// Whether a list of (reference, owner) pairs carries a reference.
fn scan_refs_for(v: &Vec<(ObjectRef, Owner)>, obj_ref: &ObjectRef) -> (r: bool)
    ensures
        r == exists|i: int|
            0 <= i < v@.len() && (#[trigger] ref_owners_view(v@)[i]).0 == ref_view(*obj_ref),
{
    let mut i: usize = 0;
    while i < v.len()
        invariant
            0 <= i <= v@.len(),
            forall|q: int| 0 <= q < i ==> ref_view((#[trigger] v@[q]).0) != ref_view(*obj_ref),
        decreases v@.len() - i,
    {
        if object_ref_eq(&v[i].0, obj_ref) {
            proof {
                assert(ref_view(v@[i as int].0) =~= ref_view(*obj_ref));
                assert(ref_owners_view(v@)[i as int].0 == ref_view(v@[i as int].0));
            }
            return true;
        }
        i += 1;
    }
    proof {
        if exists|q: int|
            0 <= q < v@.len() && (#[trigger] ref_owners_view(v@)[q]).0 == ref_view(*obj_ref) {
            let q = choose|q: int|
                0 <= q < v@.len() && (#[trigger] ref_owners_view(v@)[q]).0 == ref_view(*obj_ref);
            assert(ref_owners_view(v@)[q].0 == ref_view(v@[q].0));
        }
    }
    false
}

/// Whether a list of references carries a tombstone for a reference: same
/// id, one version earlier.
fn scan_tombstones_for(v: &Vec<ObjectRef>, obj_ref: &ObjectRef) -> (r: bool)
    ensures
        r == exists|i: int|
            0 <= i < v@.len() && (#[trigger] obj_refs_view(v@)[i]).id == obj_ref.0@
                && obj_refs_view(v@)[i].version < u64::MAX && obj_refs_view(v@)[i].version + 1
                == obj_ref.1.0,
{
    let mut i: usize = 0;
    while i < v.len()
        invariant
            0 <= i <= v@.len(),
            forall|q: int|
                0 <= q < i ==> !(ref_view(#[trigger] v@[q]).id == obj_ref.0@ && ref_view(
                    v@[q],
                ).version < u64::MAX && ref_view(v@[q]).version + 1 == obj_ref.1.0),
        decreases v@.len() - i,
    {
        let (id, seq, _) = v[i];
        if bytes_eq(&id.0, &obj_ref.0.0) && seq.0 < u64::MAX && seq.0 + 1 == obj_ref.1.0 {
            proof {
                assert(obj_refs_view(v@)[i as int] == ref_view(v@[i as int]));
            }
            return true;
        }
        proof {
            assert(v@[i as int].0 == id && v@[i as int].1 == seq);
        }
        i += 1;
    }
    proof {
        if exists|q: int|
            0 <= q < v@.len() && (#[trigger] obj_refs_view(v@)[q]).id == obj_ref.0@
                && obj_refs_view(v@)[q].version < u64::MAX && obj_refs_view(v@)[q].version + 1
                == obj_ref.1.0 {
            let q = choose|q: int|
                0 <= q < v@.len() && (#[trigger] obj_refs_view(v@)[q]).id == obj_ref.0@
                    && obj_refs_view(v@)[q].version < u64::MAX && obj_refs_view(v@)[q].version + 1
                    == obj_ref.1.0;
            assert(obj_refs_view(v@)[q] == ref_view(v@[q]));
        }
    }
    false
}

impl TransactionEffects {
    /// The mutated and created objects, in that order; deletions excluded.
    pub fn mutated_and_created(&self) -> (r: Vec<(ObjectRef, Owner)>)
        ensures
            ref_owners_view(r@) == ref_owners_view(self.mutated@) + ref_owners_view(
                self.created@,
            ),
            r@ == self.mutated@ + self.created@,
    {
        let mut r = copy_vec(&self.mutated);
        let mut i: usize = 0;
        while i < self.created.len()
            invariant
                0 <= i <= self.created@.len(),
                r@ == self.mutated@ + self.created@.subrange(0, i as int),
            decreases self.created@.len() - i,
        {
            let ghost prev = r@;
            r.push(self.created[i]);
            i += 1;
            proof {
                assert(prev.push(self.created@[i - 1]) =~= self.mutated@ + self.created@.subrange(
                    0,
                    i as int,
                ));
            }
        }
        proof {
            assert(self.created@.subrange(0, self.created@.len() as int) =~= self.created@);
            assert(ref_owners_view(r@) =~= ref_owners_view(self.mutated@) + ref_owners_view(
                self.created@,
            ));
        }
        r
    }

    /// The mutated objects other than the gas object, in order: exactly the
    /// mutated list with every gas entry removed.
    #[verifier::loop_isolation(false)]
    pub fn mutated_excluding_gas(&self) -> (r: Vec<(ObjectRef, Owner)>)
        ensures
            ref_owners_view(r@) == spec_excluding_gas(
                ref_owners_view(self.mutated@),
                (ref_view(self.gas_object.0), self.gas_object.1@),
            ),
    {
        let ghost mv = ref_owners_view(self.mutated@);
        let ghost gasv = (ref_view(self.gas_object.0), self.gas_object.1@);
        let mut r: Vec<(ObjectRef, Owner)> = Vec::new();
        let mut i: usize = 0;
        proof {
            assert(mv.take(0) =~= Seq::<(ObjectRefV, OwnerV)>::empty());
            assert(ref_owners_view(r@) =~= spec_excluding_gas(mv.take(0), gasv));
        }
        while i < self.mutated.len()
            invariant
                0 <= i <= self.mutated@.len(),
                ref_owners_view(r@) == spec_excluding_gas(mv.take(i as int), gasv),
            decreases self.mutated@.len() - i,
        {
            let (oref, owner) = self.mutated[i];
            let same = object_ref_eq(&oref, &self.gas_object.0) && owner.owner_eq(
                &self.gas_object.1,
            );
            proof {
                assert(mv[i as int] == (ref_view(oref), owner@));
                assert(mv.take(i + 1).drop_last() =~= mv.take(i as int));
                assert(mv.take(i + 1).last() == mv[i as int]);
                if same {
                    assert(ref_view(oref) =~= ref_view(self.gas_object.0));
                    assert(mv[i as int] =~= gasv);
                } else {
                    if ref_view(oref) == ref_view(self.gas_object.0) && owner@
                        == self.gas_object.1@ {
                        assert(oref.0@ == self.gas_object.0.0@ && oref.1.0
                            == self.gas_object.0.1.0 && oref.2@ == self.gas_object.0.2@);
                    }
                    assert(mv[i as int] != gasv);
                }
            }
            if !same {
                let ghost prev = r@;
                r.push((oref, owner));
                proof {
                    assert(ref_owners_view(prev.push((oref, owner))) =~= ref_owners_view(
                        prev,
                    ).push(mv[i as int]));
                    assert(ref_owners_view(r@) =~= spec_excluding_gas(mv.take(i + 1), gasv));
                }
            } else {
                proof {
                    assert(spec_excluding_gas(mv.take(i + 1), gasv) =~= spec_excluding_gas(
                        mv.take(i as int),
                        gasv,
                    ));
                }
            }
            i += 1;
        }
        proof {
            assert(mv.take(self.mutated@.len() as int) =~= mv);
        }
        r
    }

    /// Whether this record touches a reference, including through deletion
    /// or wrapping tombstones.
    pub fn is_object_mutated_here(&self, obj_ref: ObjectRef) -> (r: bool)
        ensures
            r == spec_object_mutated_here(self@, ref_view(obj_ref)),
    {
        if scan_refs_for(&self.mutated, &obj_ref) {
            proof {
                let q = choose|i: int|
                    0 <= i < self.mutated@.len() && (#[trigger] ref_owners_view(self.mutated@)[i]).0
                        == ref_view(obj_ref);
                assert(self@.mutated[q].0 == ref_view(obj_ref));
            }
            return true;
        }
        if scan_refs_for(&self.created, &obj_ref) {
            proof {
                let q = choose|i: int|
                    0 <= i < self.created@.len() && (#[trigger] ref_owners_view(self.created@)[i]).0
                        == ref_view(obj_ref);
                assert(self@.created[q].0 == ref_view(obj_ref));
            }
            return true;
        }
        let deleted_digest = crate::base_types::ObjectDigest::deleted();
        let wrapped_digest = crate::base_types::ObjectDigest::wrapped();
        proof {
            assert(crate::base_types::spec_object_digest_deleted()[0] == 99u8);
            assert(crate::base_types::spec_object_digest_wrapped()[0] == 88u8);
        }
        if bytes_eq(&obj_ref.2.0, &deleted_digest.0) {
            let hit = scan_tombstones_for(&self.deleted, &obj_ref);
            proof {
                if hit {
                    let q = choose|i: int|
                        0 <= i < self.deleted@.len() && (#[trigger] obj_refs_view(self.deleted@)[i]).id
                            == obj_ref.0@ && obj_refs_view(self.deleted@)[i].version < u64::MAX
                            && obj_refs_view(self.deleted@)[i].version + 1 == obj_ref.1.0;
                    assert(self@.deleted[q].id == ref_view(obj_ref).id);
                }
            }
            return hit;
        }
        if bytes_eq(&obj_ref.2.0, &wrapped_digest.0) {
            let hit = scan_tombstones_for(&self.wrapped, &obj_ref);
            proof {
                if hit {
                    let q = choose|i: int|
                        0 <= i < self.wrapped@.len() && (#[trigger] obj_refs_view(self.wrapped@)[i]).id
                            == obj_ref.0@ && obj_refs_view(self.wrapped@)[i].version < u64::MAX
                            && obj_refs_view(self.wrapped@)[i].version + 1 == obj_ref.1.0;
                    assert(self@.wrapped[q].id == ref_view(obj_ref).id);
                }
            }
            return hit;
        }
        false
    }
}

} // verus!
