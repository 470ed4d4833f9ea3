//! The gateway's local object store: the live objects table, the
//! parent-sync history with its tombstones, the transaction locks that give
//! owned objects at-most-once semantics, and the certificates and effects
//! of committed transactions. `update_state` applies a whole commit in one
//! call against these tables.

use vstd::prelude::*;
use crate::base_types::{
    bytes_eq, object_ref_eq, ObjectDigest, ObjectID, ObjectRef, SequenceNumber, SuiAddress,
    TransactionDigest,
};
use crate::effects::TransactionEffects;
use crate::error::{SuiError, SuiResult};
use crate::messages::{CertifiedTransaction, ObjectRefV, Transaction, ref_view, CertifiedTransactionV};
use crate::object::{Object, ObjectV, Owner};

verus! {

/// The latest object stored under an id, scanning from the most recent
/// insertion backwards.
pub open spec fn spec_find_object(objs: Seq<Object>, id: Seq<u8>) -> Option<ObjectV>
    decreases objs.len(),
{
    if objs.len() == 0 {
        None
    } else if objs.last()@.id == id {
        Some(objs.last()@)
    } else {
        spec_find_object(objs.drop_last(), id)
    }
}

/// The digest of the transaction holding a lock on a reference, if any.
pub open spec fn spec_lock_of(locks: Seq<(ObjectRef, TransactionDigest)>, r: ObjectRefV) -> Option<
    Seq<u8>,
>
    decreases locks.len(),
{
    if locks.len() == 0 {
        None
    } else if ref_view(locks.last().0) == r {
        Some(locks.last().1@)
    } else {
        spec_lock_of(locks.drop_last(), r)
    }
}

/// Whether the parent-sync table records a reference under a digest.
pub open spec fn spec_parent_contains(
    ps: Seq<(ObjectRef, TransactionDigest)>,
    r: ObjectRefV,
    d: Seq<u8>,
) -> bool {
    exists|i: int|
        0 <= i < ps.len() && ref_view((#[trigger] ps[i]).0) == r && ps[i].1@ == d
}

/// The certificate stored under a transaction digest, if any.
pub open spec fn spec_cert_of(
    cs: Seq<(TransactionDigest, CertifiedTransaction)>,
    d: Seq<u8>,
) -> Option<CertifiedTransactionV>
    decreases cs.len(),
{
    if cs.len() == 0 {
        None
    } else if cs.last().0@ == d {
        Some(cs.last().1@)
    } else {
        spec_cert_of(cs.drop_last(), d)
    }
}

/// The per-transaction overlay of prospective writes the executor produced;
/// applied to the store only on commit.
pub struct TemporaryStore {
    /// Objects created or mutated, at their new versions.
    pub written: Vec<Object>,
    /// Old references of objects removed from the live table (deleted or
    /// wrapped).
    pub deleted: Vec<ObjectRef>,
    /// The owned input references the transaction consumed; their locks are
    /// released on commit.
    pub active_inputs: Vec<ObjectRef>,
}

/// The gateway's mirror of on-chain state.
pub struct GatewayStore {
    pub objects: Vec<Object>,
    pub parent_sync: Vec<(ObjectRef, TransactionDigest)>,
    pub transaction_lock: Vec<(ObjectRef, TransactionDigest)>,
    pub certificates: Vec<(TransactionDigest, CertifiedTransaction)>,
    pub effects: Vec<(TransactionDigest, TransactionEffects)>,
}

impl GatewayStore {
    /// An id appears at most once in the live objects table.
    pub open spec fn objects_unique(self) -> bool {
        forall|i: int, j: int|
            0 <= i < j < self.objects@.len() ==> (#[trigger] self.objects@[i])@.id != (
            #[trigger] self.objects@[j])@.id
    }

    /// A reference is locked at most once.
    pub open spec fn locks_unique(self) -> bool {
        forall|i: int, j: int|
            0 <= i < j < self.transaction_lock@.len() ==> ref_view(
                (#[trigger] self.transaction_lock@[i]).0,
            ) != ref_view((#[trigger] self.transaction_lock@[j]).0)
    }

    pub open spec fn well_formed(self) -> bool {
        self.objects_unique() && self.locks_unique()
    }

    /// An empty store.
    pub fn new() -> (r: GatewayStore)
        ensures
            r.well_formed(),
            r.objects@.len() == 0,
            r.parent_sync@.len() == 0,
            r.transaction_lock@.len() == 0,
            r.certificates@.len() == 0,
            r.effects@.len() == 0,
    {
        GatewayStore {
            objects: Vec::new(),
            parent_sync: Vec::new(),
            transaction_lock: Vec::new(),
            certificates: Vec::new(),
            effects: Vec::new(),
        }
    }

    /// Point read of the latest object under an id.
    pub fn get_object(&self, id: &ObjectID) -> (r: Option<Object>)
        ensures
            match r {
                Some(o) => spec_find_object(self.objects@, id@) == Some(o@),
                None => spec_find_object(self.objects@, id@) is None,
            },
    {
        let n = self.objects.len();
        let mut i: usize = n;
        proof {
            assert(self.objects@.take(n as int) =~= self.objects@);
        }
        while i > 0
            invariant
                0 <= i <= n,
                n == self.objects@.len(),
                spec_find_object(self.objects@, id@) == spec_find_object(
                    self.objects@.take(i as int),
                    id@,
                ),
            decreases i,
        {
            i -= 1;
            proof {
                assert(self.objects@.take(i + 1).drop_last() =~= self.objects@.take(i as int));
                assert(self.objects@.take(i + 1).last() == self.objects@[i as int]);
            }
            if bytes_eq(&self.objects[i].id.0, &id.0) {
                return Some(self.objects[i].clone());
            }
        }
        proof {
            assert(self.objects@.take(0) =~= Seq::<Object>::empty());
        }
        None
    }

    /// Batched point read: one optional object per requested id.
    pub fn get_objects(&self, ids: &Vec<ObjectID>) -> (r: Vec<Option<Object>>)
        ensures
            r@.len() == ids@.len(),
            forall|k: int|
                0 <= k < ids@.len() ==> (match #[trigger] r@[k] {
                    Some(o) => spec_find_object(self.objects@, ids@[k]@) == Some(o@),
                    None => spec_find_object(self.objects@, ids@[k]@) is None,
                }),
    {
        let mut out: Vec<Option<Object>> = Vec::new();
        let mut k: usize = 0;
        while k < ids.len()
            invariant
                0 <= k <= ids@.len(),
                out@.len() == k,
                forall|q: int|
                    0 <= q < k ==> (match #[trigger] out@[q] {
                        Some(o) => spec_find_object(self.objects@, ids@[q]@) == Some(o@),
                        None => spec_find_object(self.objects@, ids@[q]@) is None,
                    }),
            decreases ids@.len() - k,
        {
            out.push(self.get_object(&ids[k]));
            k += 1;
        }
        out
    }

    /// The digest of the transaction locking a reference, if one is
    /// installed.
    pub fn get_lock(&self, r: &ObjectRef) -> (l: Option<TransactionDigest>)
        ensures
            match l {
                Some(t) => spec_lock_of(self.transaction_lock@, ref_view(*r)) == Some(t@),
                None => spec_lock_of(self.transaction_lock@, ref_view(*r)) is None,
            },
    {
        let n = self.transaction_lock.len();
        let mut i: usize = n;
        proof {
            assert(self.transaction_lock@.take(n as int) =~= self.transaction_lock@);
        }
        while i > 0
            invariant
                0 <= i <= n,
                n == self.transaction_lock@.len(),
                spec_lock_of(self.transaction_lock@, ref_view(*r)) == spec_lock_of(
                    self.transaction_lock@.take(i as int),
                    ref_view(*r),
                ),
            decreases i,
        {
            i -= 1;
            proof {
                assert(self.transaction_lock@.take(i + 1).drop_last()
                    =~= self.transaction_lock@.take(i as int));
                assert(self.transaction_lock@.take(i + 1).last()
                    == self.transaction_lock@[i as int]);
            }
            if object_ref_eq(&self.transaction_lock[i].0, r) {
                proof {
                    assert(ref_view(self.transaction_lock@[i as int].0) =~= ref_view(*r));
                }
                return Some(self.transaction_lock[i].1);
            }
            proof {
                assert(ref_view(self.transaction_lock@[i as int].0) != ref_view(*r));
            }
        }
        proof {
            assert(self.transaction_lock@.take(0) =~= Seq::<(ObjectRef, TransactionDigest)>::empty());
        }
        None
    }

    /// The stored certificate for a transaction digest, if any.
    pub fn get_certificate(&self, d: &TransactionDigest) -> (r: Option<&CertifiedTransaction>)
        ensures
            match r {
                Some(c) => spec_cert_of(self.certificates@, d@) == Some(c@),
                None => spec_cert_of(self.certificates@, d@) is None,
            },
    {
        let n = self.certificates.len();
        let mut i: usize = n;
        proof {
            assert(self.certificates@.take(n as int) =~= self.certificates@);
        }
        while i > 0
            invariant
                0 <= i <= n,
                n == self.certificates@.len(),
                spec_cert_of(self.certificates@, d@) == spec_cert_of(
                    self.certificates@.take(i as int),
                    d@,
                ),
            decreases i,
        {
            i -= 1;
            proof {
                assert(self.certificates@.take(i + 1).drop_last() =~= self.certificates@.take(
                    i as int,
                ));
                assert(self.certificates@.take(i + 1).last() == self.certificates@[i as int]);
            }
            if bytes_eq(&self.certificates[i].0.0, &d.0) {
                return Some(&self.certificates[i].1);
            }
        }
        proof {
            assert(self.certificates@.take(0) =~= Seq::<
                (TransactionDigest, CertifiedTransaction),
            >::empty());
        }
        None
    }

    /// The most recent reference the parent-sync table records for an id,
    /// with its parent transaction digest; tombstones included.
    pub fn get_latest_parent_entry(&self, id: &ObjectID) -> (r: Option<
        (ObjectRef, TransactionDigest),
    >)
        ensures
            match r {
                Some((oref, d)) => {
                    &&& oref.0@ == id@
                    &&& spec_parent_contains(self.parent_sync@, ref_view(oref), d@)
                    &&& forall|k: int|
                        0 <= k < self.parent_sync@.len() && ref_view(
                            (#[trigger] self.parent_sync@[k]).0,
                        ).id == id@ ==> ref_view(self.parent_sync@[k].0).version <= oref.1.0
                },
                None => forall|k: int|
                    0 <= k < self.parent_sync@.len() ==> ref_view(
                        (#[trigger] self.parent_sync@[k]).0,
                    ).id != id@,
            },
    {
        let mut best: Option<(ObjectRef, TransactionDigest)> = None;
        let mut i: usize = 0;
        while i < self.parent_sync.len()
            invariant
                0 <= i <= self.parent_sync@.len(),
                match best {
                    Some((oref, d)) => {
                        &&& oref.0@ == id@
                        &&& spec_parent_contains(self.parent_sync@, ref_view(oref), d@)
                        &&& forall|k: int|
                            0 <= k < i && ref_view((#[trigger] self.parent_sync@[k]).0).id == id@
                                ==> ref_view(self.parent_sync@[k].0).version <= oref.1.0
                    },
                    None => forall|k: int|
                        0 <= k < i ==> ref_view((#[trigger] self.parent_sync@[k]).0).id != id@,
                },
            decreases self.parent_sync@.len() - i,
        {
            let (oref, d) = self.parent_sync[i];
            if bytes_eq(&oref.0.0, &id.0) {
                proof {
                    assert(ref_view(self.parent_sync@[i as int].0) == ref_view(oref));
                }
                let replace = match &best {
                    None => true,
                    Some((b, _)) => b.1.0 <= oref.1.0,
                };
                if replace {
                    best = Some((oref, d));
                    proof {
                        assert(spec_parent_contains(self.parent_sync@, ref_view(oref), d@)) by {
                            assert(ref_view(self.parent_sync@[i as int].0) == ref_view(oref)
                                && self.parent_sync@[i as int].1@ == d@);
                        }
                    }
                }
            }
            i += 1;
        }
        best
    }

    /// The references of every object an address owns.
    pub fn get_account_objects(&self, addr: &SuiAddress) -> (r: Vec<ObjectRef>)
        ensures
            forall|k: int|
                0 <= k < r@.len() ==> spec_owned_ref(
                    self.objects@,
                    addr@,
                    ref_view(#[trigger] r@[k]),
                ),
            forall|q: int|
                0 <= q < self.objects@.len() && (#[trigger] self.objects@[q])@.owner
                    == crate::object::OwnerV::AddressOwner(addr@) ==> spec_ref_listed(
                    r@,
                    crate::object::spec_object_reference(self.objects@[q]@),
                ),
    {
        let mut out: Vec<ObjectRef> = Vec::new();
        let mut i: usize = 0;
        while i < self.objects.len()
            invariant
                0 <= i <= self.objects@.len(),
                forall|k: int|
                    0 <= k < out@.len() ==> spec_owned_ref(
                        self.objects@,
                        addr@,
                        ref_view(#[trigger] out@[k]),
                    ),
                forall|q: int|
                    0 <= q < i && (#[trigger] self.objects@[q])@.owner
                        == crate::object::OwnerV::AddressOwner(addr@) ==> spec_ref_listed(
                        out@,
                        crate::object::spec_object_reference(self.objects@[q]@),
                    ),
            decreases self.objects@.len() - i,
        {
            let is_owned = match &self.objects[i].owner {
                Owner::AddressOwner(a) => bytes_eq(&a.0, &addr.0),
                _ => false,
            };
            if is_owned {
                let oref = self.objects[i].compute_object_reference();
                let ghost prev = out@;
                out.push(oref);
                proof {
                    assert(self.objects@[i as int]@.owner == crate::object::OwnerV::AddressOwner(
                        addr@,
                    ));
                    assert forall|k: int|
                        0 <= k < out@.len() implies spec_owned_ref(
                        self.objects@,
                        addr@,
                        ref_view(#[trigger] out@[k]),
                    ) by {
                        lemma_push_index_pub(prev, oref, k);
                        if k == prev.len() {
                            assert(spec_owned_ref(self.objects@, addr@, ref_view(oref))) by {
                                assert(ref_view(oref) == crate::object::spec_object_reference(
                                    self.objects@[i as int]@,
                                ));
                            }
                        }
                    }
                    assert forall|q: int|
                        0 <= q < i + 1 && (#[trigger] self.objects@[q])@.owner
                            == crate::object::OwnerV::AddressOwner(addr@) implies spec_ref_listed(
                        out@,
                        crate::object::spec_object_reference(self.objects@[q]@),
                    ) by {
                        if q < i {
                            lemma_ref_listed_push(
                                prev,
                                oref,
                                crate::object::spec_object_reference(self.objects@[q]@),
                            );
                        } else {
                            lemma_push_index_pub(prev, oref, prev.len() as int);
                            assert(ref_view(out@[prev.len() as int])
                                == crate::object::spec_object_reference(self.objects@[q]@));
                        }
                    }
                }
            } else {
                proof {
                    assert(self.objects@[i as int]@.owner != crate::object::OwnerV::AddressOwner(
                        addr@,
                    ));
                }
            }
            i += 1;
        }
        out
    }

    /// Insert or replace an object by id, without any lock validation: the
    /// privileged bulk-load path used by account sync.
    pub fn insert_object_unsafe(&mut self, object: Object)
        requires
            old(self).well_formed(),
        ensures
            final(self).well_formed(),
            spec_find_object(final(self).objects@, object@.id) == Some(object@),
            forall|id: Seq<u8>|
                id != object@.id ==> #[trigger] spec_find_object(final(self).objects@, id)
                    == spec_find_object(old(self).objects@, id),
            final(self).parent_sync@ == old(self).parent_sync@,
            final(self).transaction_lock@ == old(self).transaction_lock@,
            final(self).certificates@ == old(self).certificates@,
            final(self).effects@ == old(self).effects@,
    {
        let mut i: usize = 0;
        let n = self.objects.len();
        let mut found: Option<usize> = None;
        while i < n
            invariant
                0 <= i <= n,
                n == self.objects@.len(),
                match found {
                    Some(j) => j < i && self.objects@[j as int]@.id == object@.id,
                    None => forall|q: int|
                        0 <= q < i ==> (#[trigger] self.objects@[q])@.id != object@.id,
                },
            decreases n - i,
        {
            if bytes_eq(&self.objects[i].id.0, &object.id.0) {
                found = Some(i);
                proof {
                    assert(self.objects@[i as int]@.id == object@.id);
                }
            }
            i += 1;
        }
        let ghost olds = self.objects@;
        match found {
            Some(j) => {
                self.objects.set(j, object);
                proof {
                    let news = self.objects@;
                    assert(news == olds.update(j as int, object));
                    assert forall|id: Seq<u8>| true implies #[trigger] spec_find_object(
                        news,
                        id,
                    ) == (if id == object@.id {
                        Some(object@)
                    } else {
                        spec_find_object(olds, id)
                    }) by {
                        lemma_find_object_update(olds, j as int, object, id);
                    }
                }
            },
            None => {
                self.objects.push(object);
                proof {
                    let news = self.objects@;
                    assert(news.drop_last() =~= olds);
                    assert(news.last() == object);
                }
            },
        }
    }

    /// Record a certificate under a transaction digest; certificates under
    /// every other digest stay as they were.
    pub fn insert_cert(&mut self, digest: TransactionDigest, cert: CertifiedTransaction)
        requires
            old(self).well_formed(),
        ensures
            final(self).well_formed(),
            spec_cert_of(final(self).certificates@, digest@) == Some(cert@),
            forall|d: Seq<u8>|
                d != digest@ ==> #[trigger] spec_cert_of(final(self).certificates@, d)
                    == spec_cert_of(old(self).certificates@, d),
            final(self).objects@ == old(self).objects@,
            final(self).parent_sync@ == old(self).parent_sync@,
            final(self).transaction_lock@ == old(self).transaction_lock@,
            final(self).effects@ == old(self).effects@,
    {
        let ghost oldc = self.certificates@;
        self.certificates.push((digest, cert));
        proof {
            assert(self.certificates@.drop_last() =~= oldc);
        }
    }
}

/// Whether some object owned by an address has exactly this reference.
pub open spec fn spec_owned_ref(objs: Seq<Object>, addr: Seq<u8>, rv: ObjectRefV) -> bool {
    exists|q: int|
        0 <= q < objs.len() && (#[trigger] objs[q])@.owner == crate::object::OwnerV::AddressOwner(
            addr,
        ) && rv == crate::object::spec_object_reference(objs[q]@)
}

/// Whether a list of references carries this reference value.
pub open spec fn spec_ref_listed(rs: Seq<ObjectRef>, rv: ObjectRefV) -> bool {
    exists|k: int| 0 <= k < rs.len() && ref_view(#[trigger] rs[k]) == rv
}

/// A listed reference stays listed after a push.
pub proof fn lemma_ref_listed_push(rs: Seq<ObjectRef>, e: ObjectRef, rv: ObjectRefV)
    requires
        spec_ref_listed(rs, rv),
    ensures
        spec_ref_listed(rs.push(e), rv),
{
    let k = choose|k: int| 0 <= k < rs.len() && ref_view(#[trigger] rs[k]) == rv;
    lemma_push_index_pub(rs, e, k);
    assert(ref_view(rs.push(e)[k]) == rv);
}

/// A found object carries the id it was looked up under.
pub proof fn lemma_find_object_id(objs: Seq<Object>, id: Seq<u8>)
    ensures
        spec_find_object(objs, id) matches Some(o) ==> o.id == id,
    decreases objs.len(),
{
    if objs.len() > 0 {
        lemma_find_object_id(objs.drop_last(), id);
    }
}

/// The objects table with every entry under one id removed.
pub open spec fn spec_objects_without(s: Seq<Object>, id: Seq<u8>) -> Seq<Object>
    decreases s.len(),
{
    if s.len() == 0 {
        Seq::empty()
    } else {
        spec_objects_without(s.drop_last(), id) + (if s.last()@.id == id {
            Seq::empty()
        } else {
            seq![s.last()]
        })
    }
}

/// Removing one id empties its lookup and leaves every other id alone.
proof fn lemma_objects_without_lookup(s: Seq<Object>, id: Seq<u8>, id2: Seq<u8>)
    ensures
        spec_find_object(spec_objects_without(s, id), id2) == (if id2 == id {
            None::<ObjectV>
        } else {
            spec_find_object(s, id2)
        }),
    decreases s.len(),
{
    if s.len() == 0 {
    } else {
        lemma_objects_without_lookup(s.drop_last(), id, id2);
        let f = spec_objects_without(s, id);
        let fp = spec_objects_without(s.drop_last(), id);
        if s.last()@.id == id {
            assert(f =~= fp);
        } else {
            assert(f =~= fp.push(s.last()));
            assert(f.drop_last() =~= fp);
            assert(f.last() == s.last());
        }
    }
}

/// Removal keeps ids unique: every survivor was already in the table.
proof fn lemma_objects_without_unique(s: Seq<Object>, id: Seq<u8>)
    requires
        forall|a: int, b: int|
            0 <= a < b < s.len() ==> (#[trigger] s[a])@.id != (#[trigger] s[b])@.id,
    ensures
        forall|a: int, b: int|
            0 <= a < b < spec_objects_without(s, id).len() ==> (#[trigger] spec_objects_without(
                s,
                id,
            )[a])@.id != (#[trigger] spec_objects_without(s, id)[b])@.id,
        forall|a: int|
            0 <= a < spec_objects_without(s, id).len() ==> exists|j: int|
                0 <= j < s.len() && #[trigger] spec_objects_without(s, id)[a] == s[j],
    decreases s.len(),
{
    if s.len() == 0 {
    } else {
        lemma_objects_without_unique(s.drop_last(), id);
        let f = spec_objects_without(s, id);
        let fp = spec_objects_without(s.drop_last(), id);
        assert forall|a: int|
            0 <= a < f.len() implies exists|j: int| 0 <= j < s.len() && #[trigger] f[a] == s[j] by {
            if a < fp.len() {
                assert(f[a] == fp[a]);
                let j = choose|j: int| 0 <= j < s.drop_last().len() && fp[a] == s.drop_last()[j];
                assert(f[a] == s[j]);
            } else {
                assert(f[a] == s[s.len() - 1]);
            }
        }
        assert forall|a: int, b: int|
            0 <= a < b < f.len() implies (#[trigger] f[a])@.id != (#[trigger] f[b])@.id by {
            if b < fp.len() {
            } else if a < fp.len() {
                assert(f[b] == s.last());
                let j = choose|j: int| 0 <= j < s.drop_last().len() && fp[a] == s.drop_last()[j];
                assert(f[a] == s[j]);
                assert(s[j]@.id != s[s.len() - 1]@.id);
            }
        }
    }
}

/// Lookups see only the element views, never their identities.
proof fn lemma_find_object_view_eq(s1: Seq<Object>, s2: Seq<Object>, id: Seq<u8>)
    requires
        s1.len() == s2.len(),
        forall|i: int| 0 <= i < s1.len() ==> (#[trigger] s1[i])@ == s2[i]@,
    ensures
        spec_find_object(s1, id) == spec_find_object(s2, id),
    decreases s1.len(),
{
    if s1.len() > 0 {
        assert(s1.drop_last().len() == s2.drop_last().len());
        assert forall|i: int|
            0 <= i < s1.drop_last().len() implies (#[trigger] s1.drop_last()[i])@
            == s2.drop_last()[i]@ by {
            assert(s1[i]@ == s2[i]@);
        }
        lemma_find_object_view_eq(s1.drop_last(), s2.drop_last(), id);
        assert(s1.last()@ == s2.last()@);
    }
}

/// Rebuild an objects table without one id; survivors keep their views.
fn objects_without(objs: &Vec<Object>, id: &ObjectID) -> (r: Vec<Object>)
    ensures
        r@.len() == spec_objects_without(objs@, id@).len(),
        forall|q: int|
            0 <= q < r@.len() ==> (#[trigger] r@[q])@ == spec_objects_without(objs@, id@)[q]@,
{
    let mut kept: Vec<Object> = Vec::new();
    let mut i: usize = 0;
    proof {
        assert(objs@.take(0) =~= Seq::<Object>::empty());
    }
    while i < objs.len()
        invariant
            0 <= i <= objs@.len(),
            kept@.len() == spec_objects_without(objs@.take(i as int), id@).len(),
            forall|q: int|
                0 <= q < kept@.len() ==> (#[trigger] kept@[q])@ == spec_objects_without(
                    objs@.take(i as int),
                    id@,
                )[q]@,
        decreases objs@.len() - i,
    {
        proof {
            assert(objs@.take(i + 1).drop_last() =~= objs@.take(i as int));
            assert(objs@.take(i + 1).last() == objs@[i as int]);
        }
        if !bytes_eq(&objs[i].id.0, &id.0) {
            let ghost prev = kept@;
            kept.push(objs[i].clone());
            proof {
                let f = spec_objects_without(objs@.take(i + 1), id@);
                assert(f =~= spec_objects_without(objs@.take(i as int), id@).push(
                    objs@[i as int],
                ));
                assert forall|q: int| 0 <= q < kept@.len() implies (#[trigger] kept@[q])@ == f[q]@
                    by {
                    lemma_push_index_pub(prev, kept@.last(), q);
                }
            }
        } else {
            proof {
                assert(spec_objects_without(objs@.take(i + 1), id@) =~= spec_objects_without(
                    objs@.take(i as int),
                    id@,
                ));
            }
        }
        i += 1;
    }
    proof {
        assert(objs@.take(objs@.len() as int) =~= objs@);
    }
    kept
}

/// Whether the written set carries an object under an id.
pub open spec fn spec_id_written(written: Seq<Object>, id: Seq<u8>) -> bool {
    exists|k: int| 0 <= k < written.len() && (#[trigger] written[k])@.id == id
}


/// Indexing into a pushed sequence reads the old elements, then the new.
pub proof fn lemma_push_index_pub<A>(s: Seq<A>, e: A, k: int)
    ensures
        0 <= k < s.len() ==> s.push(e)[k] == s[k],
        k == s.len() ==> s.push(e)[k] == e,
{
}

/// After replacing the entry at one position, a lookup finds the new object
/// under its id and is unchanged under every other id, provided ids were
/// unique.
proof fn lemma_find_object_update(objs: Seq<Object>, j: int, object: Object, id: Seq<u8>)
    requires
        0 <= j < objs.len(),
        objs[j]@.id == object@.id,
        forall|a: int, b: int|
            0 <= a < b < objs.len() ==> (#[trigger] objs[a])@.id != (#[trigger] objs[b])@.id,
    ensures
        spec_find_object(objs.update(j, object), id) == (if id == object@.id {
            Some(object@)
        } else {
            spec_find_object(objs, id)
        }),
    decreases objs.len(),
{
    let news = objs.update(j, object);
    if j == objs.len() - 1 {
        assert(news.last() == object);
        assert(news.drop_last() =~= objs.drop_last());
        if id != object@.id {
            assert(objs.last()@.id == object@.id);
        }
    } else {
        assert(news.last() == objs.last());
        assert(news.drop_last() =~= objs.drop_last().update(j, object));
        assert(objs.last()@.id != objs[j]@.id);
        lemma_find_object_update(objs.drop_last(), j, object, id);
    }
}


/// Locks filtered down to the references outside a consumed set.
pub open spec fn spec_filter_locks(
    s: Seq<(ObjectRef, TransactionDigest)>,
    consumed: Seq<ObjectRef>,
) -> Seq<(ObjectRef, TransactionDigest)>
    decreases s.len(),
{
    if s.len() == 0 {
        Seq::empty()
    } else {
        spec_filter_locks(s.drop_last(), consumed) + (if spec_ref_listed(
            consumed,
            ref_view(s.last().0),
        ) {
            Seq::empty()
        } else {
            seq![s.last()]
        })
    }
}

/// Filtering consumed locks out removes exactly their entries.
proof fn lemma_filter_locks_lookup(
    s: Seq<(ObjectRef, TransactionDigest)>,
    consumed: Seq<ObjectRef>,
    rv: ObjectRefV,
)
    ensures
        spec_lock_of(spec_filter_locks(s, consumed), rv) == (if spec_ref_listed(consumed, rv) {
            None::<Seq<u8>>
        } else {
            spec_lock_of(s, rv)
        }),
    decreases s.len(),
{
    if s.len() == 0 {
    } else {
        lemma_filter_locks_lookup(s.drop_last(), consumed, rv);
        let f = spec_filter_locks(s, consumed);
        let fp = spec_filter_locks(s.drop_last(), consumed);
        if spec_ref_listed(consumed, ref_view(s.last().0)) {
            assert(f =~= fp);
        } else {
            assert(f =~= fp.push(s.last()));
            assert(f.drop_last() =~= fp);
            assert(f.last() == s.last());
        }
    }
}

/// Filtering keeps the uniqueness of lock references.
proof fn lemma_filter_locks_unique(s: Seq<(ObjectRef, TransactionDigest)>, consumed: Seq<ObjectRef>)
    requires
        forall|i: int, j: int|
            0 <= i < j < s.len() ==> ref_view((#[trigger] s[i]).0) != ref_view(
                (#[trigger] s[j]).0,
            ),
    ensures
        forall|i: int, j: int|
            0 <= i < j < spec_filter_locks(s, consumed).len() ==> ref_view(
                (#[trigger] spec_filter_locks(s, consumed)[i]).0,
            ) != ref_view((#[trigger] spec_filter_locks(s, consumed)[j]).0),
        forall|i: int|
            0 <= i < spec_filter_locks(s, consumed).len() ==> exists|j: int|
                0 <= j < s.len() && #[trigger] spec_filter_locks(s, consumed)[i] == s[j],
    decreases s.len(),
{
    if s.len() == 0 {
    } else {
        lemma_filter_locks_unique(s.drop_last(), consumed);
        let f = spec_filter_locks(s, consumed);
        let fp = spec_filter_locks(s.drop_last(), consumed);
        assert forall|i: int|
            0 <= i < f.len() implies exists|j: int| 0 <= j < s.len() && #[trigger] f[i] == s[j] by {
            if i < fp.len() {
                assert(f[i] == fp[i]);
                let j = choose|j: int| 0 <= j < s.drop_last().len() && fp[i] == s.drop_last()[j];
                assert(f[i] == s[j]);
            } else {
                assert(f[i] == s[s.len() - 1]);
            }
        }
        assert forall|i: int, j: int|
            0 <= i < j < f.len() implies ref_view((#[trigger] f[i]).0) != ref_view(
            (#[trigger] f[j]).0,
        ) by {
            if j < fp.len() {
            } else if i < fp.len() {
                assert(f[j] == s.last());
                let a = choose|a: int| 0 <= a < s.drop_last().len() && fp[i] == s.drop_last()[a];
                assert(f[i] == s[a]);
                assert(ref_view(s[a].0) != ref_view(s[s.len() - 1].0));
            }
        }
    }
}

/// An absent lock means no entry carries the reference.
proof fn lemma_lock_none_not_present(s: Seq<(ObjectRef, TransactionDigest)>, rv: ObjectRefV)
    requires
        spec_lock_of(s, rv) is None,
    ensures
        forall|i: int| 0 <= i < s.len() ==> ref_view((#[trigger] s[i]).0) != rv,
    decreases s.len(),
{
    if s.len() > 0 {
        lemma_lock_none_not_present(s.drop_last(), rv);
        assert forall|i: int| 0 <= i < s.len() implies ref_view((#[trigger] s[i]).0) != rv by {
            if i < s.len() - 1 {
                assert(s.drop_last()[i] == s[i]);
            }
        }
    }
}

/// A recorded parent entry stays recorded after a push.
proof fn lemma_parent_contains_push(
    ps: Seq<(ObjectRef, TransactionDigest)>,
    e: (ObjectRef, TransactionDigest),
    rv: ObjectRefV,
    d: Seq<u8>,
)
    requires
        spec_parent_contains(ps, rv, d),
    ensures
        spec_parent_contains(ps.push(e), rv, d),
{
    let i = choose|i: int| 0 <= i < ps.len() && ref_view((#[trigger] ps[i]).0) == rv && ps[i].1@ == d;
    lemma_push_index_pub(ps, e, i);
    assert(ref_view(ps.push(e)[i].0) == rv && ps.push(e)[i].1@ == d);
}

impl GatewayStore {
    /// Install a lock on every given owned reference for one transaction.
    /// An existing lock held by a different transaction fails the whole
    /// call with the conflicting digest and changes nothing; a lock already
    /// held by this transaction is left in place, so a retry succeeds.
    #[verifier::loop_isolation(false)]
    pub fn set_transaction_lock(
        &mut self,
        owned_refs: &Vec<ObjectRef>,
        transaction: &Transaction,
    ) -> (r: SuiResult<()>)
        requires
            old(self).well_formed(),
        ensures
            final(self).well_formed(),
            final(self).objects@ == old(self).objects@,
            final(self).parent_sync@ == old(self).parent_sync@,
            final(self).certificates@ == old(self).certificates@,
            final(self).effects@ == old(self).effects@,
            r is Ok <==> (forall|k: int|
                0 <= k < owned_refs@.len() ==> (match spec_lock_of(
                    old(self).transaction_lock@,
                    ref_view(#[trigger] owned_refs@[k]),
                ) {
                    Some(t) => t == crate::envelope::spec_transaction_digest(transaction@.data),
                    None => true,
                })),
            r is Err ==> final(self).transaction_lock@ == old(self).transaction_lock@
                && r->Err_0 is ObjectLockConflict,
            r matches Err(SuiError::ObjectLockConflict { pending_transaction }) ==> (exists|
                k: int,
            |
                0 <= k < owned_refs@.len() && spec_lock_of(
                    old(self).transaction_lock@,
                    ref_view(#[trigger] owned_refs@[k]),
                ) == Some(pending_transaction@)) && pending_transaction@
                != crate::envelope::spec_transaction_digest(transaction@.data),
            r is Ok ==> (forall|rv: ObjectRefV|
                #[trigger] spec_lock_of(final(self).transaction_lock@, rv) == (if spec_ref_listed(
                    owned_refs@,
                    rv,
                ) && spec_lock_of(old(self).transaction_lock@, rv) is None {
                    Some(crate::envelope::spec_transaction_digest(transaction@.data))
                } else {
                    spec_lock_of(old(self).transaction_lock@, rv)
                })),
    {
        let new_digest = transaction.digest();
        let mut k: usize = 0;
        while k < owned_refs.len()
            invariant
                0 <= k <= owned_refs@.len(),
                forall|q: int|
                    0 <= q < k ==> (match spec_lock_of(
                        self.transaction_lock@,
                        ref_view(#[trigger] owned_refs@[q]),
                    ) {
                        Some(t) => t == crate::envelope::spec_transaction_digest(
                            transaction@.data,
                        ),
                        None => true,
                    }),
            decreases owned_refs@.len() - k,
        {
            match self.get_lock(&owned_refs[k]) {
                Some(held_digest) => {
                    if !bytes_eq(&held_digest.0, &new_digest.0) {
                        proof {
                            assert(spec_lock_of(
                                self.transaction_lock@,
                                ref_view(owned_refs@[k as int]),
                            ) == Some(held_digest@));
                        }
                        return Err(
                            SuiError::ObjectLockConflict { pending_transaction: held_digest },
                        );
                    }
                },
                None => {},
            }
            k += 1;
        }
        let mut i: usize = 0;
        let ghost locks0 = self.transaction_lock@;
        while i < owned_refs.len()
            invariant
                0 <= i <= owned_refs@.len(),
                self.locks_unique(),
                self.objects@ == old(self).objects@,
                self.parent_sync@ == old(self).parent_sync@,
                self.certificates@ == old(self).certificates@,
                self.effects@ == old(self).effects@,
                forall|rv: ObjectRefV|
                    #[trigger] spec_lock_of(self.transaction_lock@, rv) == (if spec_ref_listed(
                        owned_refs@.take(i as int),
                        rv,
                    ) && spec_lock_of(locks0, rv) is None {
                        Some(crate::envelope::spec_transaction_digest(transaction@.data))
                    } else {
                        spec_lock_of(locks0, rv)
                    }),
            decreases owned_refs@.len() - i,
        {
            let held = match self.get_lock(&owned_refs[i]) {
                Some(_) => true,
                None => false,
            };
            let ghost prev = self.transaction_lock@;
            if !held {
                let entry = (owned_refs[i], new_digest);
                self.transaction_lock.push(entry);
                proof {
                    lemma_lock_none_not_present(prev, ref_view(owned_refs@[i as int]));
                    assert forall|a: int, b: int|
                        0 <= a < b < self.transaction_lock@.len() implies ref_view(
                        (#[trigger] self.transaction_lock@[a]).0,
                    ) != ref_view((#[trigger] self.transaction_lock@[b]).0) by {
                        lemma_push_index_pub(prev, entry, a);
                        lemma_push_index_pub(prev, entry, b);
                    }
                }
            }
            i += 1;
            proof {
                assert forall|rv: ObjectRefV| #[trigger] spec_lock_of(self.transaction_lock@, rv)
                    == (if spec_ref_listed(owned_refs@.take(i as int), rv) && spec_lock_of(
                    locks0,
                    rv,
                ) is None {
                    Some(crate::envelope::spec_transaction_digest(transaction@.data))
                } else {
                    spec_lock_of(locks0, rv)
                }) by {
                    lemma_ref_listed_take_snoc(owned_refs@, i - 1, rv);
                    if held {
                        assert(spec_lock_of(self.transaction_lock@, rv) == spec_lock_of(prev, rv));
                        if rv == ref_view(owned_refs@[i - 1]) {
                            assert(spec_lock_of(prev, rv) is Some);
                        }
                    } else {
                        let entry = self.transaction_lock@.last();
                        assert(self.transaction_lock@.drop_last() =~= prev);
                        if rv == ref_view(owned_refs@[i - 1]) {
                            assert(spec_lock_of(self.transaction_lock@, rv) == Some(
                                crate::envelope::spec_transaction_digest(transaction@.data),
                            ));
                            assert(spec_lock_of(prev, rv) is None);
                            assert(spec_lock_of(locks0, rv) is None);
                        } else {
                            assert(spec_lock_of(self.transaction_lock@, rv) == spec_lock_of(
                                prev,
                                rv,
                            ));
                        }
                    }
                }
            }
        }
        proof {
            assert(owned_refs@.take(owned_refs@.len() as int) =~= owned_refs@);
        }
        Ok(())
    }

    /// Atomically commit one executed transaction: apply the temporary
    /// store's writes and removals to the live objects, append the parent
    /// history including deletion and wrapping tombstones, release the
    /// consumed locks, and record the certificate and effects under the
    /// transaction digest. Returns the effects unchanged.
    #[verifier::loop_isolation(false)]
    pub fn update_state(
        &mut self,
        temporary_store: TemporaryStore,
        certificate: CertifiedTransaction,
        effects: TransactionEffects,
    ) -> (r: TransactionEffects)
        requires
            old(self).well_formed(),
            forall|i: int, j: int|
                0 <= i < j < temporary_store.written@.len() ==> (
                #[trigger] temporary_store.written@[i])@.id != (
                #[trigger] temporary_store.written@[j])@.id,
            forall|k: int|
                0 <= k < effects.deleted@.len() ==> (#[trigger] effects.deleted@[k]).1.0
                    < u64::MAX,
            forall|k: int|
                0 <= k < effects.wrapped@.len() ==> (#[trigger] effects.wrapped@[k]).1.0
                    < u64::MAX,
        ensures
            final(self).well_formed(),
            r@ == effects@,
            forall|k: int|
                0 <= k < temporary_store.active_inputs@.len() ==> spec_lock_of(
                    final(self).transaction_lock@,
                    ref_view(#[trigger] temporary_store.active_inputs@[k]),
                ) is None,
            forall|rv: ObjectRefV|
                !spec_ref_listed(temporary_store.active_inputs@, rv) ==> #[trigger] spec_lock_of(
                    final(self).transaction_lock@,
                    rv,
                ) == spec_lock_of(old(self).transaction_lock@, rv),
            forall|k: int|
                0 <= k < temporary_store.written@.len() ==> spec_find_object(
                    final(self).objects@,
                    (#[trigger] temporary_store.written@[k])@.id,
                ) == Some(temporary_store.written@[k]@),
            forall|k: int|
                0 <= k < temporary_store.deleted@.len() && !spec_id_written(
                    temporary_store.written@,
                    ref_view(#[trigger] temporary_store.deleted@[k]).id,
                ) ==> spec_find_object(
                    final(self).objects@,
                    ref_view(temporary_store.deleted@[k]).id,
                ) is None,
            forall|k: int|
                0 <= k < effects.created@.len() ==> spec_parent_contains(
                    final(self).parent_sync@,
                    ref_view((#[trigger] effects.created@[k]).0),
                    crate::envelope::spec_transaction_digest(certificate@.transaction.data),
                ),
            forall|k: int|
                0 <= k < effects.mutated@.len() ==> spec_parent_contains(
                    final(self).parent_sync@,
                    ref_view((#[trigger] effects.mutated@[k]).0),
                    crate::envelope::spec_transaction_digest(certificate@.transaction.data),
                ),
            forall|k: int|
                0 <= k < effects.unwrapped@.len() ==> spec_parent_contains(
                    final(self).parent_sync@,
                    ref_view((#[trigger] effects.unwrapped@[k]).0),
                    crate::envelope::spec_transaction_digest(certificate@.transaction.data),
                ),
            forall|k: int|
                0 <= k < effects.deleted@.len() ==> spec_parent_contains(
                    final(self).parent_sync@,
                    ObjectRefV {
                        id: ref_view(#[trigger] effects.deleted@[k]).id,
                        version: (ref_view(effects.deleted@[k]).version + 1) as u64,
                        digest: crate::base_types::spec_object_digest_deleted(),
                    },
                    crate::envelope::spec_transaction_digest(certificate@.transaction.data),
                ),
            forall|k: int|
                0 <= k < effects.wrapped@.len() ==> spec_parent_contains(
                    final(self).parent_sync@,
                    ObjectRefV {
                        id: ref_view(#[trigger] effects.wrapped@[k]).id,
                        version: (ref_view(effects.wrapped@[k]).version + 1) as u64,
                        digest: crate::base_types::spec_object_digest_wrapped(),
                    },
                    crate::envelope::spec_transaction_digest(certificate@.transaction.data),
                ),
            forall|rv: ObjectRefV, d: Seq<u8>|
                #[trigger] spec_parent_contains(old(self).parent_sync@, rv, d)
                    ==> spec_parent_contains(final(self).parent_sync@, rv, d),
            spec_cert_of(
                final(self).certificates@,
                crate::envelope::spec_transaction_digest(certificate@.transaction.data),
            ) == Some(certificate@),
    {
        let digest = certificate.digest();
        // Live objects: drop every deleted id, then apply every write.
        let mut d: usize = 0;
        while d < temporary_store.deleted.len()
            invariant
                0 <= d <= temporary_store.deleted@.len(),
                self.well_formed(),
                self.parent_sync@ == old(self).parent_sync@,
                self.transaction_lock@ == old(self).transaction_lock@,
                self.certificates@ == old(self).certificates@,
                self.effects@ == old(self).effects@,
                forall|k: int|
                    0 <= k < d ==> spec_find_object(
                        self.objects@,
                        ref_view(#[trigger] temporary_store.deleted@[k]).id,
                    ) is None,
            decreases temporary_store.deleted@.len() - d,
        {
            let del_id = temporary_store.deleted[d].0;
            let ghost before = self.objects@;
            let kept = objects_without(&self.objects, &del_id);
            proof {
                lemma_objects_without_unique(before, del_id@);
            }
            self.objects = kept;
            d += 1;
            proof {
                let f = spec_objects_without(before, del_id@);
                assert forall|a: int, b: int|
                    0 <= a < b < self.objects@.len() implies (#[trigger] self.objects@[a])@.id != (
                #[trigger] self.objects@[b])@.id by {
                    assert(self.objects@[a]@ == f[a]@ && self.objects@[b]@ == f[b]@);
                }
                assert forall|k: int|
                    0 <= k < d implies spec_find_object(
                    self.objects@,
                    ref_view(#[trigger] temporary_store.deleted@[k]).id,
                ) is None by {
                    let idk = ref_view(temporary_store.deleted@[k]).id;
                    lemma_find_object_view_eq(self.objects@, f, idk);
                    lemma_objects_without_lookup(before, del_id@, idk);
                }
            }
        }
        // Apply every write.
        let mut w: usize = 0;
        while w < temporary_store.written.len()
            invariant
                0 <= w <= temporary_store.written@.len(),
                self.well_formed(),
                self.parent_sync@ == old(self).parent_sync@,
                self.transaction_lock@ == old(self).transaction_lock@,
                self.certificates@ == old(self).certificates@,
                self.effects@ == old(self).effects@,
                forall|k: int|
                    0 <= k < w ==> spec_find_object(
                        self.objects@,
                        (#[trigger] temporary_store.written@[k])@.id,
                    ) == Some(temporary_store.written@[k]@),
                forall|k: int|
                    0 <= k < temporary_store.deleted@.len() && !spec_id_written(
                        temporary_store.written@,
                        ref_view(#[trigger] temporary_store.deleted@[k]).id,
                    ) ==> spec_find_object(
                        self.objects@,
                        ref_view(temporary_store.deleted@[k]).id,
                    ) is None,
            decreases temporary_store.written@.len() - w,
        {
            self.insert_object_unsafe(temporary_store.written[w].clone());
            w += 1;
            proof {
                assert forall|k: int|
                    0 <= k < w implies spec_find_object(
                    self.objects@,
                    (#[trigger] temporary_store.written@[k])@.id,
                ) == Some(temporary_store.written@[k]@) by {
                    if k < w - 1 {
                        assert(temporary_store.written@[k]@.id != temporary_store.written@[w
                            - 1]@.id);
                    }
                }
                assert forall|k: int|
                    0 <= k < temporary_store.deleted@.len() && !spec_id_written(
                    temporary_store.written@,
                    ref_view(#[trigger] temporary_store.deleted@[k]).id,
                ) implies spec_find_object(
                    self.objects@,
                    ref_view(temporary_store.deleted@[k]).id,
                ) is None by {
                    assert(temporary_store.written@[w - 1]@.id != ref_view(
                        temporary_store.deleted@[k],
                    ).id);
                }
            }
        }
        // Parent history: new references of created, mutated, and unwrapped
        // objects, and tombstones for deletions and wraps.
        let mut p: usize = 0;
        while p < effects.created.len()
            invariant
                0 <= p <= effects.created@.len(),
                self.well_formed(),
                self.transaction_lock@ == old(self).transaction_lock@,
                self.certificates@ == old(self).certificates@,
                self.effects@ == old(self).effects@,
                forall|k: int|
                    0 <= k < temporary_store.written@.len() ==> spec_find_object(
                        self.objects@,
                        (#[trigger] temporary_store.written@[k])@.id,
                    ) == Some(temporary_store.written@[k]@),
                forall|k: int|
                    0 <= k < temporary_store.deleted@.len() && !spec_id_written(
                        temporary_store.written@,
                        ref_view(#[trigger] temporary_store.deleted@[k]).id,
                    ) ==> spec_find_object(
                        self.objects@,
                        ref_view(temporary_store.deleted@[k]).id,
                    ) is None,
                forall|rv: ObjectRefV, d: Seq<u8>|
                    #[trigger] spec_parent_contains(old(self).parent_sync@, rv, d)
                        ==> spec_parent_contains(self.parent_sync@, rv, d),
                forall|k: int|
                    0 <= k < p ==> spec_parent_contains(
                        self.parent_sync@,
                        ref_view((#[trigger] effects.created@[k]).0),
                        digest@,
                    ),
            decreases effects.created@.len() - p,
        {
            push_parent_entry(self, effects.created[p].0, digest);
            p += 1;
        }
        let mut p2: usize = 0;
        while p2 < effects.mutated.len()
            invariant
                0 <= p2 <= effects.mutated@.len(),
                self.well_formed(),
                self.transaction_lock@ == old(self).transaction_lock@,
                self.certificates@ == old(self).certificates@,
                self.effects@ == old(self).effects@,
                forall|k: int|
                    0 <= k < temporary_store.written@.len() ==> spec_find_object(
                        self.objects@,
                        (#[trigger] temporary_store.written@[k])@.id,
                    ) == Some(temporary_store.written@[k]@),
                forall|k: int|
                    0 <= k < temporary_store.deleted@.len() && !spec_id_written(
                        temporary_store.written@,
                        ref_view(#[trigger] temporary_store.deleted@[k]).id,
                    ) ==> spec_find_object(
                        self.objects@,
                        ref_view(temporary_store.deleted@[k]).id,
                    ) is None,
                forall|rv: ObjectRefV, d: Seq<u8>|
                    #[trigger] spec_parent_contains(old(self).parent_sync@, rv, d)
                        ==> spec_parent_contains(self.parent_sync@, rv, d),
                forall|k: int|
                    0 <= k < effects.created@.len() ==> spec_parent_contains(
                        self.parent_sync@,
                        ref_view((#[trigger] effects.created@[k]).0),
                        digest@,
                    ),
                forall|k: int|
                    0 <= k < p2 ==> spec_parent_contains(
                        self.parent_sync@,
                        ref_view((#[trigger] effects.mutated@[k]).0),
                        digest@,
                    ),
            decreases effects.mutated@.len() - p2,
        {
            push_parent_entry(self, effects.mutated[p2].0, digest);
            p2 += 1;
        }
        let mut p3: usize = 0;
        while p3 < effects.unwrapped.len()
            invariant
                0 <= p3 <= effects.unwrapped@.len(),
                self.well_formed(),
                self.transaction_lock@ == old(self).transaction_lock@,
                self.certificates@ == old(self).certificates@,
                self.effects@ == old(self).effects@,
                forall|k: int|
                    0 <= k < temporary_store.written@.len() ==> spec_find_object(
                        self.objects@,
                        (#[trigger] temporary_store.written@[k])@.id,
                    ) == Some(temporary_store.written@[k]@),
                forall|k: int|
                    0 <= k < temporary_store.deleted@.len() && !spec_id_written(
                        temporary_store.written@,
                        ref_view(#[trigger] temporary_store.deleted@[k]).id,
                    ) ==> spec_find_object(
                        self.objects@,
                        ref_view(temporary_store.deleted@[k]).id,
                    ) is None,
                forall|rv: ObjectRefV, d: Seq<u8>|
                    #[trigger] spec_parent_contains(old(self).parent_sync@, rv, d)
                        ==> spec_parent_contains(self.parent_sync@, rv, d),
                forall|k: int|
                    0 <= k < effects.created@.len() ==> spec_parent_contains(
                        self.parent_sync@,
                        ref_view((#[trigger] effects.created@[k]).0),
                        digest@,
                    ),
                forall|k: int|
                    0 <= k < effects.mutated@.len() ==> spec_parent_contains(
                        self.parent_sync@,
                        ref_view((#[trigger] effects.mutated@[k]).0),
                        digest@,
                    ),
                forall|k: int|
                    0 <= k < p3 ==> spec_parent_contains(
                        self.parent_sync@,
                        ref_view((#[trigger] effects.unwrapped@[k]).0),
                        digest@,
                    ),
            decreases effects.unwrapped@.len() - p3,
        {
            push_parent_entry(self, effects.unwrapped[p3].0, digest);
            p3 += 1;
        }
        let mut p4: usize = 0;
        while p4 < effects.deleted.len()
            invariant
                0 <= p4 <= effects.deleted@.len(),
                self.well_formed(),
                self.transaction_lock@ == old(self).transaction_lock@,
                self.certificates@ == old(self).certificates@,
                self.effects@ == old(self).effects@,
                forall|k: int|
                    0 <= k < temporary_store.written@.len() ==> spec_find_object(
                        self.objects@,
                        (#[trigger] temporary_store.written@[k])@.id,
                    ) == Some(temporary_store.written@[k]@),
                forall|k: int|
                    0 <= k < temporary_store.deleted@.len() && !spec_id_written(
                        temporary_store.written@,
                        ref_view(#[trigger] temporary_store.deleted@[k]).id,
                    ) ==> spec_find_object(
                        self.objects@,
                        ref_view(temporary_store.deleted@[k]).id,
                    ) is None,
                forall|rv: ObjectRefV, d: Seq<u8>|
                    #[trigger] spec_parent_contains(old(self).parent_sync@, rv, d)
                        ==> spec_parent_contains(self.parent_sync@, rv, d),
                forall|k: int|
                    0 <= k < effects.created@.len() ==> spec_parent_contains(
                        self.parent_sync@,
                        ref_view((#[trigger] effects.created@[k]).0),
                        digest@,
                    ),
                forall|k: int|
                    0 <= k < effects.mutated@.len() ==> spec_parent_contains(
                        self.parent_sync@,
                        ref_view((#[trigger] effects.mutated@[k]).0),
                        digest@,
                    ),
                forall|k: int|
                    0 <= k < effects.unwrapped@.len() ==> spec_parent_contains(
                        self.parent_sync@,
                        ref_view((#[trigger] effects.unwrapped@[k]).0),
                        digest@,
                    ),
                forall|k: int|
                    0 <= k < p4 ==> spec_parent_contains(
                        self.parent_sync@,
                        ObjectRefV {
                            id: ref_view(#[trigger] effects.deleted@[k]).id,
                            version: (ref_view(effects.deleted@[k]).version + 1) as u64,
                            digest: crate::base_types::spec_object_digest_deleted(),
                        },
                        digest@,
                    ),
            decreases effects.deleted@.len() - p4,
        {
            let (id, version, _) = effects.deleted[p4];
            let tomb = (id, SequenceNumber(version.0 + 1), ObjectDigest::deleted());
            push_parent_entry(self, tomb, digest);
            p4 += 1;
            proof {
                assert(ref_view(tomb) =~= ObjectRefV {
                    id: ref_view(effects.deleted@[p4 - 1]).id,
                    version: (ref_view(effects.deleted@[p4 - 1]).version + 1) as u64,
                    digest: crate::base_types::spec_object_digest_deleted(),
                });
            }
        }
        let mut p5: usize = 0;
        while p5 < effects.wrapped.len()
            invariant
                0 <= p5 <= effects.wrapped@.len(),
                self.well_formed(),
                self.transaction_lock@ == old(self).transaction_lock@,
                self.certificates@ == old(self).certificates@,
                self.effects@ == old(self).effects@,
                forall|k: int|
                    0 <= k < temporary_store.written@.len() ==> spec_find_object(
                        self.objects@,
                        (#[trigger] temporary_store.written@[k])@.id,
                    ) == Some(temporary_store.written@[k]@),
                forall|k: int|
                    0 <= k < temporary_store.deleted@.len() && !spec_id_written(
                        temporary_store.written@,
                        ref_view(#[trigger] temporary_store.deleted@[k]).id,
                    ) ==> spec_find_object(
                        self.objects@,
                        ref_view(temporary_store.deleted@[k]).id,
                    ) is None,
                forall|rv: ObjectRefV, d: Seq<u8>|
                    #[trigger] spec_parent_contains(old(self).parent_sync@, rv, d)
                        ==> spec_parent_contains(self.parent_sync@, rv, d),
                forall|k: int|
                    0 <= k < effects.created@.len() ==> spec_parent_contains(
                        self.parent_sync@,
                        ref_view((#[trigger] effects.created@[k]).0),
                        digest@,
                    ),
                forall|k: int|
                    0 <= k < effects.mutated@.len() ==> spec_parent_contains(
                        self.parent_sync@,
                        ref_view((#[trigger] effects.mutated@[k]).0),
                        digest@,
                    ),
                forall|k: int|
                    0 <= k < effects.unwrapped@.len() ==> spec_parent_contains(
                        self.parent_sync@,
                        ref_view((#[trigger] effects.unwrapped@[k]).0),
                        digest@,
                    ),
                forall|k: int|
                    0 <= k < effects.deleted@.len() ==> spec_parent_contains(
                        self.parent_sync@,
                        ObjectRefV {
                            id: ref_view(#[trigger] effects.deleted@[k]).id,
                            version: (ref_view(effects.deleted@[k]).version + 1) as u64,
                            digest: crate::base_types::spec_object_digest_deleted(),
                        },
                        digest@,
                    ),
                forall|k: int|
                    0 <= k < p5 ==> spec_parent_contains(
                        self.parent_sync@,
                        ObjectRefV {
                            id: ref_view(#[trigger] effects.wrapped@[k]).id,
                            version: (ref_view(effects.wrapped@[k]).version + 1) as u64,
                            digest: crate::base_types::spec_object_digest_wrapped(),
                        },
                        digest@,
                    ),
            decreases effects.wrapped@.len() - p5,
        {
            let (id, version, _) = effects.wrapped[p5];
            let tomb = (id, SequenceNumber(version.0 + 1), ObjectDigest::wrapped());
            push_parent_entry(self, tomb, digest);
            p5 += 1;
            proof {
                assert(ref_view(tomb) =~= ObjectRefV {
                    id: ref_view(effects.wrapped@[p5 - 1]).id,
                    version: (ref_view(effects.wrapped@[p5 - 1]).version + 1) as u64,
                    digest: crate::base_types::spec_object_digest_wrapped(),
                });
            }
        }
        // Locks: release the consumed inputs.
        let ghost locks0 = self.transaction_lock@;
        let mut kept: Vec<(ObjectRef, TransactionDigest)> = Vec::new();
        let mut li: usize = 0;
        proof {
            assert(locks0.take(0) =~= Seq::<(ObjectRef, TransactionDigest)>::empty());
        }
        while li < self.transaction_lock.len()
            invariant
                0 <= li <= self.transaction_lock@.len(),
                self.transaction_lock@ == locks0,
                kept@ == spec_filter_locks(
                    locks0.take(li as int),
                    temporary_store.active_inputs@,
                ),
            decreases self.transaction_lock@.len() - li,
        {
            let listed = ref_in_list(&temporary_store.active_inputs, &self.transaction_lock[li].0);
            let ghost prevk = kept@;
            proof {
                assert(locks0.take(li + 1).drop_last() =~= locks0.take(li as int));
                assert(locks0.take(li + 1).last() == locks0[li as int]);
            }
            if !listed {
                let entry = self.transaction_lock[li];
                kept.push(entry);
                proof {
                    assert(kept@ =~= spec_filter_locks(
                        locks0.take(li + 1),
                        temporary_store.active_inputs@,
                    )) by {
                        assert(spec_filter_locks(
                            locks0.take(li + 1),
                            temporary_store.active_inputs@,
                        ) =~= prevk.push(locks0[li as int]));
                    }
                }
            } else {
                proof {
                    assert(kept@ =~= spec_filter_locks(
                        locks0.take(li + 1),
                        temporary_store.active_inputs@,
                    ));
                }
            }
            li += 1;
        }
        proof {
            assert(locks0.take(locks0.len() as int) =~= locks0);
        }
        self.transaction_lock = kept;
        // Record the certificate and the effects under the digest.
        let effects_copy = effects.clone();
        let ghost oldc = self.certificates@;
        self.certificates.push((digest, certificate));
        let ghost olde = self.effects@;
        self.effects.push((digest, effects_copy));
        proof {
            assert(self.certificates@.drop_last() =~= oldc);
            lemma_filter_locks_unique(locks0, temporary_store.active_inputs@);
            assert forall|k: int|
                0 <= k < temporary_store.active_inputs@.len() implies spec_lock_of(
                self.transaction_lock@,
                ref_view(#[trigger] temporary_store.active_inputs@[k]),
            ) is None by {
                lemma_filter_locks_lookup(
                    locks0,
                    temporary_store.active_inputs@,
                    ref_view(temporary_store.active_inputs@[k]),
                );
                assert(spec_ref_listed(
                    temporary_store.active_inputs@,
                    ref_view(temporary_store.active_inputs@[k]),
                ));
            }
            assert forall|rv: ObjectRefV|
                !spec_ref_listed(temporary_store.active_inputs@, rv) implies #[trigger]
            spec_lock_of(self.transaction_lock@, rv) == spec_lock_of(locks0, rv) by {
                lemma_filter_locks_lookup(locks0, temporary_store.active_inputs@, rv);
            }
        }
        effects
    }
}

/// Whether a reference value appears in a list of references.
fn ref_in_list(v: &Vec<ObjectRef>, r: &ObjectRef) -> (res: bool)
    ensures
        res == spec_ref_listed(v@, ref_view(*r)),
{
    let mut i: usize = 0;
    while i < v.len()
        invariant
            0 <= i <= v@.len(),
            forall|q: int| 0 <= q < i ==> ref_view(#[trigger] v@[q]) != ref_view(*r),
        decreases v@.len() - i,
    {
        if object_ref_eq(&v[i], r) {
            proof {
                assert(ref_view(v@[i as int]) =~= ref_view(*r));
            }
            return true;
        }
        i += 1;
    }
    proof {
        if spec_ref_listed(v@, ref_view(*r)) {
            let q = choose|q: int| 0 <= q < v@.len() && ref_view(#[trigger] v@[q]) == ref_view(*r);
        }
    }
    false
}

/// Append one parent-sync entry, keeping everything already recorded.
fn push_parent_entry(store: &mut GatewayStore, oref: ObjectRef, digest: TransactionDigest)
    requires
        old(store).well_formed(),
    ensures
        final(store).well_formed(),
        final(store).objects@ == old(store).objects@,
        final(store).transaction_lock@ == old(store).transaction_lock@,
        final(store).certificates@ == old(store).certificates@,
        final(store).effects@ == old(store).effects@,
        spec_parent_contains(final(store).parent_sync@, ref_view(oref), digest@),
        forall|rv: ObjectRefV, d: Seq<u8>|
            #[trigger] spec_parent_contains(old(store).parent_sync@, rv, d)
                ==> spec_parent_contains(final(store).parent_sync@, rv, d),
{
    let ghost prev = store.parent_sync@;
    store.parent_sync.push((oref, digest));
    proof {
        lemma_push_index_pub(prev, (oref, digest), prev.len() as int);
        assert(spec_parent_contains(store.parent_sync@, ref_view(oref), digest@)) by {
            assert(ref_view(store.parent_sync@[prev.len() as int].0) == ref_view(oref));
        }
        assert forall|rv: ObjectRefV, d: Seq<u8>|
            #[trigger] spec_parent_contains(prev, rv, d) implies spec_parent_contains(
            store.parent_sync@,
            rv,
            d,
        ) by {
            lemma_parent_contains_push(prev, (oref, digest), rv, d);
        }
    }
}

/// The second occurrence of a reference makes a take-prefix list it.
proof fn lemma_ref_listed_take_snoc(rs: Seq<ObjectRef>, i: int, rv: ObjectRefV)
    requires
        0 <= i < rs.len(),
    ensures
        spec_ref_listed(rs.take(i + 1), rv) <==> (spec_ref_listed(rs.take(i), rv) || rv
            == ref_view(rs[i])),
{
    if spec_ref_listed(rs.take(i + 1), rv) {
        let k = choose|k: int|
            0 <= k < rs.take(i + 1).len() && ref_view(#[trigger] rs.take(i + 1)[k]) == rv;
        if k < i {
            assert(rs.take(i)[k] == rs.take(i + 1)[k]);
        } else {
            assert(rs.take(i + 1)[k] == rs[i]);
        }
    }
    if spec_ref_listed(rs.take(i), rv) {
        let k = choose|k: int| 0 <= k < rs.take(i).len() && ref_view(#[trigger] rs.take(i)[k]) == rv;
        assert(rs.take(i + 1)[k] == rs.take(i)[k]);
        assert(ref_view(rs.take(i + 1)[k]) == rv);
    }
    if rv == ref_view(rs[i]) {
        assert(rs.take(i + 1)[i] == rs[i]);
        assert(ref_view(rs.take(i + 1)[i]) == rv);
    }
}

} // verus!
