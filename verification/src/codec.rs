//! The canonical binary encoding of the data model: a deterministic,
//! self-describing layout over which digests are computed and signatures are
//! made. Fixed-width integers are little-endian; variable-length values
//! carry a 64-bit length or count prefix; identifiers and digests are raw
//! fixed-width bytes; sum types carry a one-byte tag.

use vstd::prelude::*;
use crate::messages::{
    ObjectRefV, TransferV, MoveCallV, MoveModulePublishV, SingleTransactionKindV, TransactionKindV,
    TransactionDataV, Transfer, MoveCall, MoveModulePublish, SingleTransactionKind,
    TransactionKind, TransactionData, Transaction, ref_view, refs_view, object_ids_view,
    singles_view,
};
use crate::modules::vecs_as_seqs;
use crate::base_types::{ObjectRef, ObjectID};

verus! {

/// Little-endian bytes of a 64-bit integer.
pub open spec fn enc_u64(n: u64) -> Seq<u8> {
    seq![
        n as u8,
        (n >> 8) as u8,
        (n >> 16) as u8,
        (n >> 24) as u8,
        (n >> 32) as u8,
        (n >> 40) as u8,
        (n >> 48) as u8,
        (n >> 56) as u8,
    ]
}

/// Recombine eight little-endian bytes.
pub open spec fn u64_from_bytes(
    b0: u8,
    b1: u8,
    b2: u8,
    b3: u8,
    b4: u8,
    b5: u8,
    b6: u8,
    b7: u8,
) -> u64 {
    (b0 as u64) | (b1 as u64) << 8 | (b2 as u64) << 16 | (b3 as u64) << 24 | (b4 as u64) << 32 | (
    b5 as u64) << 40 | (b6 as u64) << 48 | (b7 as u64) << 56
}

/// Decode a 64-bit integer at a position.
pub open spec fn dec_u64_at(b: Seq<u8>, pos: int) -> Option<(u64, int)> {
    if 0 <= pos && pos + 8 <= b.len() {
        Some(
            (
                u64_from_bytes(
                    b[pos],
                    b[pos + 1],
                    b[pos + 2],
                    b[pos + 3],
                    b[pos + 4],
                    b[pos + 5],
                    b[pos + 6],
                    b[pos + 7],
                ),
                pos + 8,
            ),
        )
    } else {
        None
    }
}

/// Splitting an integer into bytes and recombining them is the identity.
pub proof fn lemma_u64_bytes_roundtrip(n: u64)
    ensures
        u64_from_bytes(
            n as u8,
            (n >> 8) as u8,
            (n >> 16) as u8,
            (n >> 24) as u8,
            (n >> 32) as u8,
            (n >> 40) as u8,
            (n >> 48) as u8,
            (n >> 56) as u8,
        ) == n,
{
    assert(((n as u8) as u64) | ((((n >> 8) as u8) as u64) << 8) | ((((n >> 16) as u8) as u64)
        << 16) | ((((n >> 24) as u8) as u64) << 24) | ((((n >> 32) as u8) as u64) << 32) | ((((n
        >> 40) as u8) as u64) << 40) | ((((n >> 48) as u8) as u64) << 48) | ((((n >> 56) as u8)
        as u64) << 56) == n) by (bit_vector);
}

/// An integer decodes back from wherever its encoding is embedded.
pub proof fn lemma_dec_u64(b: Seq<u8>, pos: int, n: u64)
    requires
        0 <= pos,
        pos + 8 <= b.len(),
        b.subrange(pos, pos + 8) == enc_u64(n),
    ensures
        dec_u64_at(b, pos) == Some((n, pos + 8)),
{
    let e = enc_u64(n);
    assert(forall|i: int| 0 <= i < 8 ==> #[trigger] b.subrange(pos, pos + 8)[i] == b[pos + i]);
    assert(b[pos] == e[0]);
    assert(b[pos + 1] == e[1]);
    assert(b[pos + 2] == e[2]);
    assert(b[pos + 3] == e[3]);
    assert(b[pos + 4] == e[4]);
    assert(b[pos + 5] == e[5]);
    assert(b[pos + 6] == e[6]);
    assert(b[pos + 7] == e[7]);
    lemma_u64_bytes_roundtrip(n);
}

/// A length-prefixed byte string.
pub open spec fn enc_bytes(s: Seq<u8>) -> Seq<u8> {
    enc_u64(s.len() as u64) + s
}

/// Decode a length-prefixed byte string at a position.
pub open spec fn dec_bytes_at(b: Seq<u8>, pos: int) -> Option<(Seq<u8>, int)> {
    match dec_u64_at(b, pos) {
        Some((n, p)) => {
            if p + n <= b.len() {
                Some((b.subrange(p, p + n), p + n))
            } else {
                None
            }
        },
        None => None,
    }
}

/// Whether a byte string's length fits the 64-bit length prefix.
pub open spec fn fits_u64(n: int) -> bool {
    0 <= n < 0x10000000000000000
}

/// A byte string decodes back from wherever its encoding is embedded.
pub proof fn lemma_dec_bytes(b: Seq<u8>, pos: int, s: Seq<u8>)
    requires
        fits_u64(s.len() as int),
        0 <= pos,
        pos + 8 + s.len() <= b.len(),
        b.subrange(pos, pos + 8 + s.len()) == enc_bytes(s),
    ensures
        dec_bytes_at(b, pos) == Some((s, pos + 8 + s.len())),
{
    let seg = b.subrange(pos, pos + 8 + s.len());
    assert(b.subrange(pos, pos + 8) =~= seg.subrange(0, 8));
    assert(seg.subrange(0, 8) =~= enc_u64(s.len() as u64));
    lemma_dec_u64(b, pos, s.len() as u64);
    assert((s.len() as u64) as int == s.len() as int);
    assert(b.subrange(pos + 8, pos + 8 + s.len()) =~= s) by {
        assert(forall|i: int|
            0 <= i < s.len() ==> #[trigger] b.subrange(pos + 8, pos + 8 + s.len())[i] == seg[8
                + i]);
        assert(forall|i: int| 0 <= i < s.len() ==> #[trigger] seg[8 + i] == enc_bytes(s)[8 + i]);
    }
}

/// The concatenated encodings of a run of values, under any element
/// encoding.
pub open spec fn enc_run<T>(s: Seq<T>, f: spec_fn(T) -> Seq<u8>) -> Seq<u8>
    decreases s.len(),
{
    if s.len() == 0 {
        Seq::empty()
    } else {
        f(s[0]) + enc_run(s.drop_first(), f)
    }
}

/// Appending one value appends its encoding.
pub proof fn lemma_enc_run_snoc<T>(s: Seq<T>, x: T, f: spec_fn(T) -> Seq<u8>)
    ensures
        enc_run(s.push(x), f) == enc_run(s, f) + f(x),
    decreases s.len(),
{
    if s.len() == 0 {
        assert(s.push(x).drop_first() =~= Seq::<T>::empty());
        assert(s.push(x)[0] == x);
        assert(enc_run(s.push(x), f) == f(x) + enc_run(s.push(x).drop_first(), f));
        assert(f(x) + Seq::<u8>::empty() =~= f(x));
        assert(enc_run(s, f) + f(x) =~= f(x));
    } else {
        assert(s.push(x).drop_first() =~= s.drop_first().push(x));
        lemma_enc_run_snoc(s.drop_first(), x, f);
        assert(enc_run(s.push(x), f) =~= enc_run(s, f) + f(x)) by {
            assert(s.push(x)[0] == s[0]);
            assert(enc_run(s.push(x), f) == f(s[0]) + enc_run(s.drop_first().push(x), f));
            assert(enc_run(s.drop_first().push(x), f) == enc_run(s.drop_first(), f) + f(x));
            assert((f(s[0]) + (enc_run(s.drop_first(), f) + f(x))) =~= (f(s[0]) + enc_run(
                s.drop_first(),
                f,
            )) + f(x));
        }
    }
}

/// A count-prefixed run of values.
pub open spec fn enc_counted<T>(s: Seq<T>, f: spec_fn(T) -> Seq<u8>) -> Seq<u8> {
    enc_u64(s.len() as u64) + enc_run(s, f)
}


/// Decode a fixed-width field at a position.
pub open spec fn dec_fixed_at(b: Seq<u8>, pos: int, n: int) -> Option<(Seq<u8>, int)> {
    if 0 <= pos && 0 <= n && pos + n <= b.len() {
        Some((b.subrange(pos, pos + n), pos + n))
    } else {
        None
    }
}

/// Splitting an embedded concatenation recovers both halves.
pub proof fn lemma_seg_split(b: Seq<u8>, pos: int, x: Seq<u8>, y: Seq<u8>)
    requires
        0 <= pos,
        pos + x.len() + y.len() <= b.len(),
        b.subrange(pos, pos + x.len() + y.len()) == x + y,
    ensures
        b.subrange(pos, pos + x.len()) == x,
        b.subrange(pos + x.len(), pos + x.len() + y.len()) == y,
{
    let seg = b.subrange(pos, pos + x.len() + y.len());
    assert(forall|i: int|
        0 <= i < x.len() + y.len() ==> #[trigger] seg[i] == b[pos + i]);
    assert(b.subrange(pos, pos + x.len()) =~= x) by {
        assert(forall|i: int|
            0 <= i < x.len() ==> #[trigger] b.subrange(pos, pos + x.len())[i] == b[pos + i]);
        assert(forall|i: int| 0 <= i < x.len() ==> (x + y)[i] == x[i]);
    }
    assert(b.subrange(pos + x.len(), pos + x.len() + y.len()) =~= y) by {
        assert(forall|i: int|
            0 <= i < y.len() ==> #[trigger] b.subrange(pos + x.len(), pos + x.len() + y.len())[i]
                == b[pos + x.len() + i]);
        assert(forall|i: int| 0 <= i < y.len() ==> (x + y)[x.len() + i] == y[i]);
    }
}

/// A fixed-width field decodes back from wherever it is embedded.
pub proof fn lemma_dec_fixed(b: Seq<u8>, pos: int, s: Seq<u8>)
    requires
        0 <= pos,
        pos + s.len() <= b.len(),
        b.subrange(pos, pos + s.len()) == s,
    ensures
        dec_fixed_at(b, pos, s.len() as int) == Some((s, pos + s.len())),
{
}

/// The element encoder for byte strings.
pub open spec fn enc_bytes_fn() -> spec_fn(Seq<u8>) -> Seq<u8> {
    |s: Seq<u8>| enc_bytes(s)
}

/// The element encoder for object references.
pub open spec fn enc_ref_fn() -> spec_fn(ObjectRefV) -> Seq<u8> {
    |r: ObjectRefV| enc_ref(r)
}

/// The element encoder for fixed-width identifiers.
pub open spec fn enc_id_fn() -> spec_fn(Seq<u8>) -> Seq<u8> {
    |s: Seq<u8>| s
}

/// The element encoder for 64-bit integers.
pub open spec fn enc_u64_fn() -> spec_fn(u64) -> Seq<u8> {
    |n: u64| enc_u64(n)
}

/// The encoding of an object reference: its id, version, and digest.
pub open spec fn enc_ref(r: ObjectRefV) -> Seq<u8> {
    r.id + (enc_u64(r.version) + r.digest)
}

/// Well-formedness of an object reference model: exact field widths.
pub open spec fn wf_ref(r: ObjectRefV) -> bool {
    r.id.len() == 20 && r.digest.len() == 32
}

/// Decode an object reference at a position.
pub open spec fn dec_ref_at(b: Seq<u8>, pos: int) -> Option<(ObjectRefV, int)> {
    match dec_fixed_at(b, pos, 20) {
        Some((id, p1)) => match dec_u64_at(b, p1) {
            Some((version, p2)) => match dec_fixed_at(b, p2, 32) {
                Some((digest, p3)) => Some(
                    (ObjectRefV { id, version, digest }, p3),
                ),
                None => None,
            },
            None => None,
        },
        None => None,
    }
}

/// An object reference decodes back from wherever it is embedded.
pub proof fn lemma_dec_ref(b: Seq<u8>, pos: int, r: ObjectRefV)
    requires
        wf_ref(r),
        0 <= pos,
        pos + 60 <= b.len(),
        b.subrange(pos, pos + 60) == enc_ref(r),
    ensures
        dec_ref_at(b, pos) == Some((r, pos + 60)),
{
    lemma_seg_split(b, pos, r.id, enc_u64(r.version) + r.digest);
    lemma_dec_fixed(b, pos, r.id);
    lemma_seg_split(b, pos + 20, enc_u64(r.version), r.digest);
    lemma_dec_u64(b, pos + 20, r.version);
    lemma_dec_fixed(b, pos + 28, r.digest);
    assert(dec_ref_at(b, pos) == Some((r, pos + 60))) by {
        let rr = ObjectRefV { id: r.id, version: r.version, digest: r.digest };
        assert(rr =~= r);
    }
}

/// The encoding of a transfer: recipient, then the transferred reference.
pub open spec fn enc_transfer(t: TransferV) -> Seq<u8> {
    t.recipient + enc_ref(t.object_ref)
}

/// Well-formedness of a transfer model.
pub open spec fn wf_transfer(t: TransferV) -> bool {
    t.recipient.len() == 20 && wf_ref(t.object_ref)
}

/// Decode a transfer at a position.
pub open spec fn dec_transfer_at(b: Seq<u8>, pos: int) -> Option<
    (TransferV, int),
> {
    match dec_fixed_at(b, pos, 20) {
        Some((recipient, p1)) => match dec_ref_at(b, p1) {
            Some((object_ref, p2)) => Some(
                (TransferV { recipient, object_ref }, p2),
            ),
            None => None,
        },
        None => None,
    }
}

/// A transfer decodes back from wherever it is embedded.
pub proof fn lemma_dec_transfer(b: Seq<u8>, pos: int, t: TransferV)
    requires
        wf_transfer(t),
        0 <= pos,
        pos + 80 <= b.len(),
        b.subrange(pos, pos + 80) == enc_transfer(t),
    ensures
        dec_transfer_at(b, pos) == Some((t, pos + 80)),
{
    lemma_seg_split(b, pos, t.recipient, enc_ref(t.object_ref));
    lemma_dec_fixed(b, pos, t.recipient);
    lemma_dec_ref(b, pos + 20, t.object_ref);
    assert(dec_transfer_at(b, pos) == Some((t, pos + 80))) by {
        let tt = TransferV { recipient: t.recipient, object_ref: t.object_ref };
        assert(tt =~= t);
    }
}


/// Decode a run of length-prefixed byte strings.
pub open spec fn dec_bytes_run(b: Seq<u8>, pos: int, n: nat) -> Option<(Seq<Seq<u8>>, int)>
    decreases n,
{
    if n == 0 {
        Some((Seq::empty(), pos))
    } else {
        match dec_bytes_at(b, pos) {
            Some((v, p)) => match dec_bytes_run(b, p, (n - 1) as nat) {
                Some((vs, q)) => Some((seq![v] + vs, q)),
                None => None,
            },
            None => None,
        }
    }
}

/// A run of byte strings decodes back from wherever it is embedded.
pub proof fn lemma_dec_bytes_run(b: Seq<u8>, pos: int, s: Seq<Seq<u8>>)
    requires
        forall|k: int| 0 <= k < s.len() ==> fits_u64(#[trigger] s[k].len() as int),
        0 <= pos,
        pos + enc_run(s, enc_bytes_fn()).len() <= b.len(),
        b.subrange(pos, pos + enc_run(s, enc_bytes_fn()).len()) == enc_run(s, enc_bytes_fn()),
    ensures
        dec_bytes_run(b, pos, s.len()) == Some((s, pos + enc_run(s, enc_bytes_fn()).len())),
    decreases s.len(),
{
    let f = enc_bytes_fn();
    if s.len() == 0 {
        assert(s =~= Seq::<Seq<u8>>::empty());
    } else {
        assert(enc_run(s, f) == f(s[0]) + enc_run(s.drop_first(), f));
        lemma_seg_split(b, pos, f(s[0]), enc_run(s.drop_first(), f));
        assert(f(s[0]) == enc_bytes(s[0]));
        lemma_dec_bytes(b, pos, s[0]);
        let p1 = pos + 8 + s[0].len();
        assert(forall|k: int|
            0 <= k < s.drop_first().len() ==> fits_u64(#[trigger] s.drop_first()[k].len() as int));
        lemma_dec_bytes_run(b, p1, s.drop_first());
        assert(seq![s[0]] + s.drop_first() =~= s);
    }
}

/// Decode a run of object references.
pub open spec fn dec_refs_run(b: Seq<u8>, pos: int, n: nat) -> Option<(Seq<ObjectRefV>, int)>
    decreases n,
{
    if n == 0 {
        Some((Seq::empty(), pos))
    } else {
        match dec_ref_at(b, pos) {
            Some((v, p)) => match dec_refs_run(b, p, (n - 1) as nat) {
                Some((vs, q)) => Some((seq![v] + vs, q)),
                None => None,
            },
            None => None,
        }
    }
}

/// A run of object references decodes back from wherever it is embedded.
pub proof fn lemma_dec_refs_run(b: Seq<u8>, pos: int, s: Seq<ObjectRefV>)
    requires
        forall|k: int| 0 <= k < s.len() ==> wf_ref(#[trigger] s[k]),
        0 <= pos,
        pos + enc_run(s, enc_ref_fn()).len() <= b.len(),
        b.subrange(pos, pos + enc_run(s, enc_ref_fn()).len()) == enc_run(s, enc_ref_fn()),
    ensures
        dec_refs_run(b, pos, s.len()) == Some((s, pos + enc_run(s, enc_ref_fn()).len())),
    decreases s.len(),
{
    let f = enc_ref_fn();
    if s.len() == 0 {
        assert(s =~= Seq::<ObjectRefV>::empty());
    } else {
        assert(enc_run(s, f) == f(s[0]) + enc_run(s.drop_first(), f));
        lemma_seg_split(b, pos, f(s[0]), enc_run(s.drop_first(), f));
        assert(f(s[0]) == enc_ref(s[0]));
        assert(f(s[0]).len() == 60);
        lemma_dec_ref(b, pos, s[0]);
        assert(forall|k: int|
            0 <= k < s.drop_first().len() ==> wf_ref(#[trigger] s.drop_first()[k]));
        lemma_dec_refs_run(b, pos + 60, s.drop_first());
        assert(seq![s[0]] + s.drop_first() =~= s);
    }
}

/// Decode a run of fixed-width identifiers.
pub open spec fn dec_ids_run(b: Seq<u8>, pos: int, n: nat) -> Option<(Seq<Seq<u8>>, int)>
    decreases n,
{
    if n == 0 {
        Some((Seq::empty(), pos))
    } else {
        match dec_fixed_at(b, pos, 20) {
            Some((v, p)) => match dec_ids_run(b, p, (n - 1) as nat) {
                Some((vs, q)) => Some((seq![v] + vs, q)),
                None => None,
            },
            None => None,
        }
    }
}

/// A run of identifiers decodes back from wherever it is embedded.
pub proof fn lemma_dec_ids_run(b: Seq<u8>, pos: int, s: Seq<Seq<u8>>)
    requires
        forall|k: int| 0 <= k < s.len() ==> (#[trigger] s[k]).len() == 20,
        0 <= pos,
        pos + enc_run(s, enc_id_fn()).len() <= b.len(),
        b.subrange(pos, pos + enc_run(s, enc_id_fn()).len()) == enc_run(s, enc_id_fn()),
    ensures
        dec_ids_run(b, pos, s.len()) == Some((s, pos + enc_run(s, enc_id_fn()).len())),
    decreases s.len(),
{
    let f = enc_id_fn();
    if s.len() == 0 {
        assert(s =~= Seq::<Seq<u8>>::empty());
    } else {
        assert(enc_run(s, f) == f(s[0]) + enc_run(s.drop_first(), f));
        lemma_seg_split(b, pos, f(s[0]), enc_run(s.drop_first(), f));
        assert(f(s[0]) == s[0]);
        lemma_dec_fixed(b, pos, s[0]);
        assert(forall|k: int|
            0 <= k < s.drop_first().len() ==> (#[trigger] s.drop_first()[k]).len() == 20);
        lemma_dec_ids_run(b, pos + 20, s.drop_first());
        assert(seq![s[0]] + s.drop_first() =~= s);
    }
}

/// Decode a run of 64-bit integers.
pub open spec fn dec_u64_run(b: Seq<u8>, pos: int, n: nat) -> Option<(Seq<u64>, int)>
    decreases n,
{
    if n == 0 {
        Some((Seq::empty(), pos))
    } else {
        match dec_u64_at(b, pos) {
            Some((v, p)) => match dec_u64_run(b, p, (n - 1) as nat) {
                Some((vs, q)) => Some((seq![v] + vs, q)),
                None => None,
            },
            None => None,
        }
    }
}

/// A run of integers decodes back from wherever it is embedded.
pub proof fn lemma_dec_u64_run(b: Seq<u8>, pos: int, s: Seq<u64>)
    requires
        0 <= pos,
        pos + enc_run(s, enc_u64_fn()).len() <= b.len(),
        b.subrange(pos, pos + enc_run(s, enc_u64_fn()).len()) == enc_run(s, enc_u64_fn()),
    ensures
        dec_u64_run(b, pos, s.len()) == Some((s, pos + enc_run(s, enc_u64_fn()).len())),
    decreases s.len(),
{
    let f = enc_u64_fn();
    if s.len() == 0 {
        assert(s =~= Seq::<u64>::empty());
    } else {
        assert(enc_run(s, f) == f(s[0]) + enc_run(s.drop_first(), f));
        lemma_seg_split(b, pos, f(s[0]), enc_run(s.drop_first(), f));
        assert(f(s[0]) == enc_u64(s[0]));
        lemma_dec_u64(b, pos, s[0]);
        lemma_dec_u64_run(b, pos + 8, s.drop_first());
        assert(seq![s[0]] + s.drop_first() =~= s);
    }
}

/// Decode a count-prefixed list of byte strings.
pub open spec fn dec_counted_bytes_at(b: Seq<u8>, pos: int) -> Option<(Seq<Seq<u8>>, int)> {
    match dec_u64_at(b, pos) {
        Some((n, p)) => dec_bytes_run(b, p, n as nat),
        None => None,
    }
}

/// A count-prefixed list of byte strings decodes back.
pub proof fn lemma_dec_counted_bytes(b: Seq<u8>, pos: int, s: Seq<Seq<u8>>)
    requires
        fits_u64(s.len() as int),
        forall|k: int| 0 <= k < s.len() ==> fits_u64(#[trigger] s[k].len() as int),
        0 <= pos,
        pos + enc_counted(s, enc_bytes_fn()).len() <= b.len(),
        b.subrange(pos, pos + enc_counted(s, enc_bytes_fn()).len()) == enc_counted(
            s,
            enc_bytes_fn(),
        ),
    ensures
        dec_counted_bytes_at(b, pos) == Some((s, pos + enc_counted(s, enc_bytes_fn()).len())),
{
    lemma_seg_split(b, pos, enc_u64(s.len() as u64), enc_run(s, enc_bytes_fn()));
    lemma_dec_u64(b, pos, s.len() as u64);
    lemma_dec_bytes_run(b, pos + 8, s);
}

/// Decode a count-prefixed list of object references.
pub open spec fn dec_counted_refs_at(b: Seq<u8>, pos: int) -> Option<(Seq<ObjectRefV>, int)> {
    match dec_u64_at(b, pos) {
        Some((n, p)) => dec_refs_run(b, p, n as nat),
        None => None,
    }
}

/// A count-prefixed list of references decodes back.
pub proof fn lemma_dec_counted_refs(b: Seq<u8>, pos: int, s: Seq<ObjectRefV>)
    requires
        fits_u64(s.len() as int),
        forall|k: int| 0 <= k < s.len() ==> wf_ref(#[trigger] s[k]),
        0 <= pos,
        pos + enc_counted(s, enc_ref_fn()).len() <= b.len(),
        b.subrange(pos, pos + enc_counted(s, enc_ref_fn()).len()) == enc_counted(s, enc_ref_fn()),
    ensures
        dec_counted_refs_at(b, pos) == Some((s, pos + enc_counted(s, enc_ref_fn()).len())),
{
    lemma_seg_split(b, pos, enc_u64(s.len() as u64), enc_run(s, enc_ref_fn()));
    lemma_dec_u64(b, pos, s.len() as u64);
    lemma_dec_refs_run(b, pos + 8, s);
}

/// Decode a count-prefixed list of identifiers.
pub open spec fn dec_counted_ids_at(b: Seq<u8>, pos: int) -> Option<(Seq<Seq<u8>>, int)> {
    match dec_u64_at(b, pos) {
        Some((n, p)) => dec_ids_run(b, p, n as nat),
        None => None,
    }
}

/// A count-prefixed list of identifiers decodes back.
pub proof fn lemma_dec_counted_ids(b: Seq<u8>, pos: int, s: Seq<Seq<u8>>)
    requires
        fits_u64(s.len() as int),
        forall|k: int| 0 <= k < s.len() ==> (#[trigger] s[k]).len() == 20,
        0 <= pos,
        pos + enc_counted(s, enc_id_fn()).len() <= b.len(),
        b.subrange(pos, pos + enc_counted(s, enc_id_fn()).len()) == enc_counted(s, enc_id_fn()),
    ensures
        dec_counted_ids_at(b, pos) == Some((s, pos + enc_counted(s, enc_id_fn()).len())),
{
    lemma_seg_split(b, pos, enc_u64(s.len() as u64), enc_run(s, enc_id_fn()));
    lemma_dec_u64(b, pos, s.len() as u64);
    lemma_dec_ids_run(b, pos + 8, s);
}

/// Decode a count-prefixed list of 64-bit integers.
pub open spec fn dec_counted_u64s_at(b: Seq<u8>, pos: int) -> Option<(Seq<u64>, int)> {
    match dec_u64_at(b, pos) {
        Some((n, p)) => dec_u64_run(b, p, n as nat),
        None => None,
    }
}

/// A count-prefixed list of integers decodes back.
pub proof fn lemma_dec_counted_u64s(b: Seq<u8>, pos: int, s: Seq<u64>)
    requires
        fits_u64(s.len() as int),
        0 <= pos,
        pos + enc_counted(s, enc_u64_fn()).len() <= b.len(),
        b.subrange(pos, pos + enc_counted(s, enc_u64_fn()).len()) == enc_counted(s, enc_u64_fn()),
    ensures
        dec_counted_u64s_at(b, pos) == Some((s, pos + enc_counted(s, enc_u64_fn()).len())),
{
    lemma_seg_split(b, pos, enc_u64(s.len() as u64), enc_run(s, enc_u64_fn()));
    lemma_dec_u64(b, pos, s.len() as u64);
    lemma_dec_u64_run(b, pos + 8, s);
}

/// The encoding of a move call.
pub open spec fn enc_call(c: MoveCallV) -> Seq<u8> {
    enc_ref(c.package) + (enc_bytes(c.module) + (enc_bytes(c.function) + (enc_counted(
        c.type_arguments,
        enc_bytes_fn(),
    ) + (enc_counted(c.object_arguments, enc_ref_fn()) + (enc_counted(
        c.shared_object_arguments,
        enc_id_fn(),
    ) + (enc_counted(c.pure_arguments, enc_bytes_fn()) + enc_u64(c.gas_budget)))))))
}

/// Well-formedness of a move-call model.
pub open spec fn wf_call(c: MoveCallV) -> bool {
    &&& wf_ref(c.package)
    &&& fits_u64(c.module.len() as int)
    &&& fits_u64(c.function.len() as int)
    &&& fits_u64(c.type_arguments.len() as int)
    &&& (forall|k: int|
        0 <= k < c.type_arguments.len() ==> fits_u64(#[trigger] c.type_arguments[k].len() as int))
    &&& fits_u64(c.object_arguments.len() as int)
    &&& (forall|k: int| 0 <= k < c.object_arguments.len() ==> wf_ref(#[trigger] c.object_arguments[k]))
    &&& fits_u64(c.shared_object_arguments.len() as int)
    &&& (forall|k: int|
        0 <= k < c.shared_object_arguments.len() ==> (#[trigger] c.shared_object_arguments[k]).len()
            == 20)
    &&& fits_u64(c.pure_arguments.len() as int)
    &&& (forall|k: int|
        0 <= k < c.pure_arguments.len() ==> fits_u64(#[trigger] c.pure_arguments[k].len() as int))
}

/// Decode a move call at a position.
pub open spec fn dec_call_at(b: Seq<u8>, pos: int) -> Option<(MoveCallV, int)> {
    match dec_ref_at(b, pos) {
        Some((package, p1)) => match dec_bytes_at(b, p1) {
            Some((module, p2)) => match dec_bytes_at(b, p2) {
                Some((function, p3)) => match dec_counted_bytes_at(b, p3) {
                    Some((type_arguments, p4)) => match dec_counted_refs_at(b, p4) {
                        Some((object_arguments, p5)) => match dec_counted_ids_at(b, p5) {
                            Some((shared_object_arguments, p6)) => match dec_counted_bytes_at(
                                b,
                                p6,
                            ) {
                                Some((pure_arguments, p7)) => match dec_u64_at(b, p7) {
                                    Some((gas_budget, p8)) => Some(
                                        (
                                            MoveCallV {
                                                package,
                                                module,
                                                function,
                                                type_arguments,
                                                object_arguments,
                                                shared_object_arguments,
                                                pure_arguments,
                                                gas_budget,
                                            },
                                            p8,
                                        ),
                                    ),
                                    None => None,
                                },
                                None => None,
                            },
                            None => None,
                        },
                        None => None,
                    },
                    None => None,
                },
                None => None,
            },
            None => None,
        },
        None => None,
    }
}

/// A move call decodes back from wherever it is embedded.
pub proof fn lemma_dec_call(b: Seq<u8>, pos: int, c: MoveCallV)
    requires
        wf_call(c),
        0 <= pos,
        pos + enc_call(c).len() <= b.len(),
        b.subrange(pos, pos + enc_call(c).len()) == enc_call(c),
    ensures
        dec_call_at(b, pos) == Some((c, pos + enc_call(c).len())),
{
    let e1 = enc_ref(c.package);
    let e2 = enc_bytes(c.module);
    let e3 = enc_bytes(c.function);
    let e4 = enc_counted(c.type_arguments, enc_bytes_fn());
    let e5 = enc_counted(c.object_arguments, enc_ref_fn());
    let e6 = enc_counted(c.shared_object_arguments, enc_id_fn());
    let e7 = enc_counted(c.pure_arguments, enc_bytes_fn());
    let e8 = enc_u64(c.gas_budget);
    lemma_seg_split(b, pos, e1, e2 + (e3 + (e4 + (e5 + (e6 + (e7 + e8))))));
    let p1 = pos + e1.len();
    lemma_dec_ref(b, pos, c.package);
    lemma_seg_split(b, p1, e2, e3 + (e4 + (e5 + (e6 + (e7 + e8)))));
    let p2 = p1 + e2.len();
    lemma_dec_bytes(b, p1, c.module);
    lemma_seg_split(b, p2, e3, e4 + (e5 + (e6 + (e7 + e8))));
    let p3 = p2 + e3.len();
    lemma_dec_bytes(b, p2, c.function);
    lemma_seg_split(b, p3, e4, e5 + (e6 + (e7 + e8)));
    let p4 = p3 + e4.len();
    lemma_dec_counted_bytes(b, p3, c.type_arguments);
    lemma_seg_split(b, p4, e5, e6 + (e7 + e8));
    let p5 = p4 + e5.len();
    lemma_dec_counted_refs(b, p4, c.object_arguments);
    lemma_seg_split(b, p5, e6, e7 + e8);
    let p6 = p5 + e6.len();
    lemma_dec_counted_ids(b, p5, c.shared_object_arguments);
    lemma_seg_split(b, p6, e7, e8);
    let p7 = p6 + e7.len();
    lemma_dec_counted_bytes(b, p6, c.pure_arguments);
    lemma_dec_u64(b, p7, c.gas_budget);
    assert(dec_call_at(b, pos) == Some((c, pos + enc_call(c).len()))) by {
        let cc = MoveCallV {
            package: c.package,
            module: c.module,
            function: c.function,
            type_arguments: c.type_arguments,
            object_arguments: c.object_arguments,
            shared_object_arguments: c.shared_object_arguments,
            pure_arguments: c.pure_arguments,
            gas_budget: c.gas_budget,
        };
        assert(cc =~= c);
    }
}

/// The encoding of a module publish.
pub open spec fn enc_publish(p: MoveModulePublishV) -> Seq<u8> {
    enc_counted(p.modules, enc_bytes_fn()) + enc_u64(p.gas_budget)
}

/// Well-formedness of a publish model.
pub open spec fn wf_publish(p: MoveModulePublishV) -> bool {
    &&& fits_u64(p.modules.len() as int)
    &&& (forall|k: int|
        0 <= k < p.modules.len() ==> fits_u64(#[trigger] p.modules[k].len() as int))
}

/// Decode a module publish at a position.
pub open spec fn dec_publish_at(b: Seq<u8>, pos: int) -> Option<(MoveModulePublishV, int)> {
    match dec_counted_bytes_at(b, pos) {
        Some((modules, p1)) => match dec_u64_at(b, p1) {
            Some((gas_budget, p2)) => Some((MoveModulePublishV { modules, gas_budget }, p2)),
            None => None,
        },
        None => None,
    }
}

/// A module publish decodes back from wherever it is embedded.
pub proof fn lemma_dec_publish(b: Seq<u8>, pos: int, p: MoveModulePublishV)
    requires
        wf_publish(p),
        0 <= pos,
        pos + enc_publish(p).len() <= b.len(),
        b.subrange(pos, pos + enc_publish(p).len()) == enc_publish(p),
    ensures
        dec_publish_at(b, pos) == Some((p, pos + enc_publish(p).len())),
{
    lemma_seg_split(b, pos, enc_counted(p.modules, enc_bytes_fn()), enc_u64(p.gas_budget));
    let p1 = pos + enc_counted(p.modules, enc_bytes_fn()).len();
    lemma_dec_counted_bytes(b, pos, p.modules);
    lemma_dec_u64(b, p1, p.gas_budget);
    assert(dec_publish_at(b, pos) == Some((p, pos + enc_publish(p).len()))) by {
        let pp = MoveModulePublishV { modules: p.modules, gas_budget: p.gas_budget };
        assert(pp =~= p);
    }
}

/// The encoding of a single transaction: a tag byte, then the payload.
pub open spec fn enc_single(k: SingleTransactionKindV) -> Seq<u8> {
    match k {
        SingleTransactionKindV::Transfer(t) => seq![0u8] + enc_transfer(t),
        SingleTransactionKindV::Publish(p) => seq![1u8] + enc_publish(p),
        SingleTransactionKindV::Call(c) => seq![2u8] + enc_call(c),
    }
}

/// The element encoder for single transactions.
pub open spec fn enc_single_fn() -> spec_fn(SingleTransactionKindV) -> Seq<u8> {
    |k: SingleTransactionKindV| enc_single(k)
}

/// Well-formedness of a single-transaction model.
pub open spec fn wf_single(k: SingleTransactionKindV) -> bool {
    match k {
        SingleTransactionKindV::Transfer(t) => wf_transfer(t),
        SingleTransactionKindV::Publish(p) => wf_publish(p),
        SingleTransactionKindV::Call(c) => wf_call(c),
    }
}

/// Decode a single transaction at a position.
pub open spec fn dec_single_at(b: Seq<u8>, pos: int) -> Option<(SingleTransactionKindV, int)> {
    if 0 <= pos && pos < b.len() {
        if b[pos] == 0 {
            match dec_transfer_at(b, pos + 1) {
                Some((t, p)) => Some((SingleTransactionKindV::Transfer(t), p)),
                None => None,
            }
        } else if b[pos] == 1 {
            match dec_publish_at(b, pos + 1) {
                Some((p, q)) => Some((SingleTransactionKindV::Publish(p), q)),
                None => None,
            }
        } else if b[pos] == 2 {
            match dec_call_at(b, pos + 1) {
                Some((c, q)) => Some((SingleTransactionKindV::Call(c), q)),
                None => None,
            }
        } else {
            None
        }
    } else {
        None
    }
}

/// A single transaction decodes back from wherever it is embedded.
pub proof fn lemma_dec_single(b: Seq<u8>, pos: int, k: SingleTransactionKindV)
    requires
        wf_single(k),
        0 <= pos,
        pos + enc_single(k).len() <= b.len(),
        b.subrange(pos, pos + enc_single(k).len()) == enc_single(k),
    ensures
        dec_single_at(b, pos) == Some((k, pos + enc_single(k).len())),
{
    assert(b.subrange(pos, pos + enc_single(k).len())[0] == b[pos]);
    match k {
        SingleTransactionKindV::Transfer(t) => {
            lemma_seg_split(b, pos, seq![0u8], enc_transfer(t));
            assert(b[pos] == enc_single(k)[0]);
            assert(enc_single(k)[0] == 0u8);
            lemma_dec_transfer(b, pos + 1, t);
        },
        SingleTransactionKindV::Publish(p) => {
            lemma_seg_split(b, pos, seq![1u8], enc_publish(p));
            assert(b[pos] == enc_single(k)[0]);
            assert(enc_single(k)[0] == 1u8);
            lemma_dec_publish(b, pos + 1, p);
        },
        SingleTransactionKindV::Call(c) => {
            lemma_seg_split(b, pos, seq![2u8], enc_call(c));
            assert(b[pos] == enc_single(k)[0]);
            assert(enc_single(k)[0] == 2u8);
            lemma_dec_call(b, pos + 1, c);
        },
    }
}

/// Decode a run of single transactions.
pub open spec fn dec_singles_run(b: Seq<u8>, pos: int, n: nat) -> Option<
    (Seq<SingleTransactionKindV>, int),
>
    decreases n,
{
    if n == 0 {
        Some((Seq::empty(), pos))
    } else {
        match dec_single_at(b, pos) {
            Some((v, p)) => match dec_singles_run(b, p, (n - 1) as nat) {
                Some((vs, q)) => Some((seq![v] + vs, q)),
                None => None,
            },
            None => None,
        }
    }
}

/// A run of single transactions decodes back.
pub proof fn lemma_dec_singles_run(b: Seq<u8>, pos: int, s: Seq<SingleTransactionKindV>)
    requires
        forall|k: int| 0 <= k < s.len() ==> wf_single(#[trigger] s[k]),
        0 <= pos,
        pos + enc_run(s, enc_single_fn()).len() <= b.len(),
        b.subrange(pos, pos + enc_run(s, enc_single_fn()).len()) == enc_run(s, enc_single_fn()),
    ensures
        dec_singles_run(b, pos, s.len()) == Some((s, pos + enc_run(s, enc_single_fn()).len())),
    decreases s.len(),
{
    let f = enc_single_fn();
    if s.len() == 0 {
        assert(s =~= Seq::<SingleTransactionKindV>::empty());
    } else {
        assert(enc_run(s, f) == f(s[0]) + enc_run(s.drop_first(), f));
        lemma_seg_split(b, pos, f(s[0]), enc_run(s.drop_first(), f));
        assert(f(s[0]) == enc_single(s[0]));
        lemma_dec_single(b, pos, s[0]);
        assert(forall|k: int|
            0 <= k < s.drop_first().len() ==> wf_single(#[trigger] s.drop_first()[k]));
        lemma_dec_singles_run(b, pos + enc_single(s[0]).len(), s.drop_first());
        assert(seq![s[0]] + s.drop_first() =~= s);
    }
}

/// The encoding of a transaction kind: a tag byte, then the single or the
/// counted batch.
pub open spec fn enc_kind(k: TransactionKindV) -> Seq<u8> {
    match k {
        TransactionKindV::Single(s) => seq![0u8] + enc_single(s),
        TransactionKindV::Batch(bb) => seq![1u8] + enc_counted(bb, enc_single_fn()),
    }
}

/// Well-formedness of a transaction-kind model.
pub open spec fn wf_kind(k: TransactionKindV) -> bool {
    match k {
        TransactionKindV::Single(s) => wf_single(s),
        TransactionKindV::Batch(bb) => fits_u64(bb.len() as int) && (forall|i: int|
            0 <= i < bb.len() ==> wf_single(#[trigger] bb[i])),
    }
}

/// Decode a transaction kind at a position.
pub open spec fn dec_kind_at(b: Seq<u8>, pos: int) -> Option<(TransactionKindV, int)> {
    if 0 <= pos && pos < b.len() {
        if b[pos] == 0 {
            match dec_single_at(b, pos + 1) {
                Some((s, p)) => Some((TransactionKindV::Single(s), p)),
                None => None,
            }
        } else if b[pos] == 1 {
            match dec_u64_at(b, pos + 1) {
                Some((n, p)) => match dec_singles_run(b, p, n as nat) {
                    Some((ss, q)) => Some((TransactionKindV::Batch(ss), q)),
                    None => None,
                },
                None => None,
            }
        } else {
            None
        }
    } else {
        None
    }
}

/// A transaction kind decodes back from wherever it is embedded.
#[verifier::rlimit(100)]
pub proof fn lemma_dec_kind(b: Seq<u8>, pos: int, k: TransactionKindV)
    requires
        wf_kind(k),
        0 <= pos,
        pos + enc_kind(k).len() <= b.len(),
        b.subrange(pos, pos + enc_kind(k).len()) == enc_kind(k),
    ensures
        dec_kind_at(b, pos) == Some((k, pos + enc_kind(k).len())),
{
    assert(b.subrange(pos, pos + enc_kind(k).len())[0] == b[pos]);
    match k {
        TransactionKindV::Single(s) => {
            lemma_seg_split(b, pos, seq![0u8], enc_single(s));
            assert(b[pos] == enc_kind(k)[0]);
            assert(enc_kind(k)[0] == 0u8);
            lemma_dec_single(b, pos + 1, s);
        },
        TransactionKindV::Batch(bb) => {
            lemma_seg_split(b, pos, seq![1u8], enc_counted(bb, enc_single_fn()));
            assert(b[pos] == enc_kind(k)[0]);
            assert(enc_kind(k)[0] == 1u8);
            lemma_seg_split(b, pos + 1, enc_u64(bb.len() as u64), enc_run(bb, enc_single_fn()));
            lemma_dec_u64(b, pos + 1, bb.len() as u64);
            lemma_dec_singles_run(b, pos + 9, bb);
        },
    }
}

/// The encoding of the data a client signs: the kind, the sender, and the
/// gas payment reference.
pub open spec fn enc_data(d: TransactionDataV) -> Seq<u8> {
    enc_kind(d.kind) + (d.sender + enc_ref(d.gas_payment))
}

/// Well-formedness of a transaction-data model. The model of every value of
/// the executable type is well formed.
pub open spec fn wf_data(d: TransactionDataV) -> bool {
    wf_kind(d.kind) && d.sender.len() == 20 && wf_ref(d.gas_payment)
}

/// Decode transaction data at a position.
pub open spec fn dec_data_at(b: Seq<u8>, pos: int) -> Option<(TransactionDataV, int)> {
    match dec_kind_at(b, pos) {
        Some((kind, p1)) => match dec_fixed_at(b, p1, 20) {
            Some((sender, p2)) => match dec_ref_at(b, p2) {
                Some((gas_payment, p3)) => Some(
                    (TransactionDataV { kind, sender, gas_payment }, p3),
                ),
                None => None,
            },
            None => None,
        },
        None => None,
    }
}

/// Transaction data decodes back from wherever it is embedded.
pub proof fn lemma_dec_data(b: Seq<u8>, pos: int, d: TransactionDataV)
    requires
        wf_data(d),
        0 <= pos,
        pos + enc_data(d).len() <= b.len(),
        b.subrange(pos, pos + enc_data(d).len()) == enc_data(d),
    ensures
        dec_data_at(b, pos) == Some((d, pos + enc_data(d).len())),
{
    lemma_seg_split(b, pos, enc_kind(d.kind), d.sender + enc_ref(d.gas_payment));
    let p1 = pos + enc_kind(d.kind).len();
    lemma_dec_kind(b, pos, d.kind);
    lemma_seg_split(b, p1, d.sender, enc_ref(d.gas_payment));
    lemma_dec_fixed(b, p1, d.sender);
    lemma_dec_ref(b, p1 + 20, d.gas_payment);
    assert(dec_data_at(b, pos) == Some((d, pos + enc_data(d).len()))) by {
        let dd = TransactionDataV { kind: d.kind, sender: d.sender, gas_payment: d.gas_payment };
        assert(dd =~= d);
    }
}

/// Encoding then decoding any well-formed data-model value returns exactly
/// that value: the canonical layout loses nothing.
pub proof fn lemma_data_round_trip(d: TransactionDataV)
    requires
        wf_data(d),
    ensures
        dec_data_at(enc_data(d), 0) == Some((d, enc_data(d).len() as int)),
{
    let b = enc_data(d);
    assert(b.subrange(0, b.len() as int) =~= b);
    lemma_dec_data(b, 0, d);
}


/// Append the little-endian bytes of an integer.
pub fn encode_u64(n: u64, out: &mut Vec<u8>)
    ensures
        final(out)@ == old(out)@ + enc_u64(n),
{
    let ghost base = out@;
    out.push(n as u8);
    out.push((n >> 8) as u8);
    out.push((n >> 16) as u8);
    out.push((n >> 24) as u8);
    out.push((n >> 32) as u8);
    out.push((n >> 40) as u8);
    out.push((n >> 48) as u8);
    out.push((n >> 56) as u8);
    proof {
        assert(out@ =~= base + enc_u64(n));
    }
}

/// Append a fixed-width field.
pub fn encode_fixed<const N: usize>(a: &[u8; N], out: &mut Vec<u8>)
    ensures
        final(out)@ == old(out)@ + a@,
{
    let ghost base = out@;
    let mut i: usize = 0;
    while i < N
        invariant
            0 <= i <= N,
            a@.len() == N,
            out@ == base + a@.subrange(0, i as int),
        decreases N - i,
    {
        let ghost prev = out@;
        out.push(a[i]);
        i += 1;
        proof {
            assert(prev.push(a@[i - 1]) =~= base + a@.subrange(0, i as int));
        }
    }
    proof {
        assert(a@.subrange(0, N as int) =~= a@);
    }
}

/// Append a length-prefixed byte string.
pub fn encode_byte_field(v: &Vec<u8>, out: &mut Vec<u8>)
    ensures
        final(out)@ == old(out)@ + enc_bytes(v@),
{
    let ghost base = out@;
    encode_u64(v.len() as u64, out);
    let ghost mid = out@;
    let n = v.len();
    let mut i: usize = 0;
    while i < n
        invariant
            0 <= i <= n,
            n == v@.len(),
            out@ == mid + v@.subrange(0, i as int),
            mid == base + enc_u64(v@.len() as u64),
        decreases n - i,
    {
        let ghost prev = out@;
        out.push(v[i]);
        i += 1;
        proof {
            assert(prev.push(v@[i - 1]) =~= mid + v@.subrange(0, i as int));
        }
    }
    proof {
        assert(v@.subrange(0, n as int) =~= v@);
        assert(out@ =~= base + enc_bytes(v@));
    }
}

/// Append an object reference.
pub fn encode_ref(r: &ObjectRef, out: &mut Vec<u8>)
    ensures
        final(out)@ == old(out)@ + enc_ref(ref_view(*r)),
{
    let ghost base = out@;
    encode_fixed(&r.0.0, out);
    encode_u64(r.1.0, out);
    encode_fixed(&r.2.0, out);
    proof {
        assert(out@ =~= base + enc_ref(ref_view(*r)));
    }
}

/// Append a count-prefixed list of integers.
pub fn encode_u64_list(v: &Vec<u64>, out: &mut Vec<u8>)
    ensures
        final(out)@ == old(out)@ + enc_counted(v@, enc_u64_fn()),
{
    let ghost base = out@;
    encode_u64(v.len() as u64, out);
    let ghost mid = out@;
    let n = v.len();
    let mut i: usize = 0;
    proof {
        assert(v@.take(0) =~= Seq::<u64>::empty());
        assert(mid + enc_run(v@.take(0), enc_u64_fn()) =~= mid);
    }
    while i < n
        invariant
            0 <= i <= n,
            n == v@.len(),
            out@ == mid + enc_run(v@.take(i as int), enc_u64_fn()),
            mid == base + enc_u64(v@.len() as u64),
        decreases n - i,
    {
        let ghost prev = out@;
        encode_u64(v[i], out);
        i += 1;
        proof {
            assert(v@.take(i as int) =~= v@.take(i - 1).push(v@[i - 1]));
            lemma_enc_run_snoc(v@.take(i - 1), v@[i - 1], enc_u64_fn());
            assert(enc_u64_fn()(v@[i - 1]) == enc_u64(v@[i - 1]));
            assert(prev + enc_u64(v@[i - 1]) =~= mid + enc_run(v@.take(i as int), enc_u64_fn()));
        }
    }
    proof {
        assert(v@.take(n as int) =~= v@);
        assert(out@ =~= base + enc_counted(v@, enc_u64_fn()));
    }
}

/// Append a count-prefixed list of byte strings.
pub fn encode_bytes_list(v: &Vec<Vec<u8>>, out: &mut Vec<u8>)
    ensures
        final(out)@ == old(out)@ + enc_counted(vecs_as_seqs(v@), enc_bytes_fn()),
{
    let ghost sv = vecs_as_seqs(v@);
    let ghost base = out@;
    encode_u64(v.len() as u64, out);
    let ghost mid = out@;
    let n = v.len();
    let mut i: usize = 0;
    proof {
        assert(sv.take(0) =~= Seq::<Seq<u8>>::empty());
        assert(mid + enc_run(sv.take(0), enc_bytes_fn()) =~= mid);
    }
    while i < n
        invariant
            0 <= i <= n,
            n == v@.len(),
            sv == vecs_as_seqs(v@),
            sv.len() == n,
            out@ == mid + enc_run(sv.take(i as int), enc_bytes_fn()),
            mid == base + enc_u64(sv.len() as u64),
        decreases n - i,
    {
        let ghost prev = out@;
        encode_byte_field(&v[i], out);
        i += 1;
        proof {
            assert(sv.take(i as int) =~= sv.take(i - 1).push(sv[i - 1]));
            lemma_enc_run_snoc(sv.take(i - 1), sv[i - 1], enc_bytes_fn());
            assert(enc_bytes_fn()(sv[i - 1]) == enc_bytes(sv[i - 1]));
            assert(sv[i - 1] == v@[i - 1]@);
            assert(prev + enc_bytes(v@[i - 1]@) =~= mid + enc_run(
                sv.take(i as int),
                enc_bytes_fn(),
            ));
        }
    }
    proof {
        assert(sv.take(n as int) =~= sv);
        assert(out@ =~= base + enc_counted(sv, enc_bytes_fn()));
    }
}

/// Append a count-prefixed list of object references.
pub fn encode_ref_list(v: &Vec<ObjectRef>, out: &mut Vec<u8>)
    ensures
        final(out)@ == old(out)@ + enc_counted(refs_view(v@), enc_ref_fn()),
{
    let ghost sv = refs_view(v@);
    let ghost base = out@;
    encode_u64(v.len() as u64, out);
    let ghost mid = out@;
    let n = v.len();
    let mut i: usize = 0;
    proof {
        assert(sv.take(0) =~= Seq::<ObjectRefV>::empty());
        assert(mid + enc_run(sv.take(0), enc_ref_fn()) =~= mid);
    }
    while i < n
        invariant
            0 <= i <= n,
            n == v@.len(),
            sv == refs_view(v@),
            sv.len() == n,
            out@ == mid + enc_run(sv.take(i as int), enc_ref_fn()),
            mid == base + enc_u64(sv.len() as u64),
        decreases n - i,
    {
        let ghost prev = out@;
        encode_ref(&v[i], out);
        i += 1;
        proof {
            assert(sv.take(i as int) =~= sv.take(i - 1).push(sv[i - 1]));
            lemma_enc_run_snoc(sv.take(i - 1), sv[i - 1], enc_ref_fn());
            assert(enc_ref_fn()(sv[i - 1]) == enc_ref(sv[i - 1]));
            assert(sv[i - 1] == ref_view(v@[i - 1]));
            assert(prev + enc_ref(ref_view(v@[i - 1])) =~= mid + enc_run(
                sv.take(i as int),
                enc_ref_fn(),
            ));
        }
    }
    proof {
        assert(sv.take(n as int) =~= sv);
        assert(out@ =~= base + enc_counted(sv, enc_ref_fn()));
    }
}

/// Append a count-prefixed list of identifiers.
pub fn encode_id_list(v: &Vec<ObjectID>, out: &mut Vec<u8>)
    ensures
        final(out)@ == old(out)@ + enc_counted(object_ids_view(v@), enc_id_fn()),
{
    let ghost sv = object_ids_view(v@);
    let ghost base = out@;
    encode_u64(v.len() as u64, out);
    let ghost mid = out@;
    let n = v.len();
    let mut i: usize = 0;
    proof {
        assert(sv.take(0) =~= Seq::<Seq<u8>>::empty());
        assert(mid + enc_run(sv.take(0), enc_id_fn()) =~= mid);
    }
    while i < n
        invariant
            0 <= i <= n,
            n == v@.len(),
            sv == object_ids_view(v@),
            sv.len() == n,
            out@ == mid + enc_run(sv.take(i as int), enc_id_fn()),
            mid == base + enc_u64(sv.len() as u64),
        decreases n - i,
    {
        let ghost prev = out@;
        encode_fixed(&v[i].0, out);
        i += 1;
        proof {
            assert(sv.take(i as int) =~= sv.take(i - 1).push(sv[i - 1]));
            lemma_enc_run_snoc(sv.take(i - 1), sv[i - 1], enc_id_fn());
            assert(enc_id_fn()(sv[i - 1]) == sv[i - 1]);
            assert(sv[i - 1] == v@[i - 1]@);
            assert(prev + v@[i - 1]@ =~= mid + enc_run(sv.take(i as int), enc_id_fn()));
        }
    }
    proof {
        assert(sv.take(n as int) =~= sv);
        assert(out@ =~= base + enc_counted(sv, enc_id_fn()));
    }
}

/// Append the encoding of a transfer.
pub fn encode_transfer(t: &Transfer, out: &mut Vec<u8>)
    ensures
        final(out)@ == old(out)@ + enc_transfer(t@),
{
    let ghost base = out@;
    encode_fixed(&t.recipient.0, out);
    encode_ref(&t.object_ref, out);
    proof {
        assert(out@ =~= base + enc_transfer(t@));
    }
}

/// Append the encoding of a move call.
pub fn encode_call(c: &MoveCall, out: &mut Vec<u8>)
    ensures
        final(out)@ == old(out)@ + enc_call(c@),
{
    let ghost base = out@;
    encode_ref(&c.package, out);
    encode_byte_field(&c.module, out);
    encode_byte_field(&c.function, out);
    encode_bytes_list(&c.type_arguments, out);
    encode_ref_list(&c.object_arguments, out);
    encode_id_list(&c.shared_object_arguments, out);
    encode_bytes_list(&c.pure_arguments, out);
    encode_u64(c.gas_budget, out);
    proof {
        assert(out@ =~= base + enc_call(c@));
    }
}

/// Append the encoding of a module publish.
pub fn encode_publish(p: &MoveModulePublish, out: &mut Vec<u8>)
    ensures
        final(out)@ == old(out)@ + enc_publish(p@),
{
    let ghost base = out@;
    encode_bytes_list(&p.modules, out);
    encode_u64(p.gas_budget, out);
    proof {
        assert(out@ =~= base + enc_publish(p@));
    }
}

/// Append the encoding of a single transaction.
pub fn encode_single(k: &SingleTransactionKind, out: &mut Vec<u8>)
    ensures
        final(out)@ == old(out)@ + enc_single(k@),
{
    let ghost base = out@;
    match k {
        SingleTransactionKind::Transfer(t) => {
            out.push(0);
            encode_transfer(t, out);
            proof {
                assert(out@ =~= base + enc_single(k@));
            }
        },
        SingleTransactionKind::Publish(p) => {
            out.push(1);
            encode_publish(p, out);
            proof {
                assert(out@ =~= base + enc_single(k@));
            }
        },
        SingleTransactionKind::Call(c) => {
            out.push(2);
            encode_call(c, out);
            proof {
                assert(out@ =~= base + enc_single(k@));
            }
        },
    }
}

/// Append the encoding of a transaction kind.
pub fn encode_kind(k: &TransactionKind, out: &mut Vec<u8>)
    ensures
        final(out)@ == old(out)@ + enc_kind(k@),
{
    let ghost base = out@;
    match k {
        TransactionKind::Single(s) => {
            out.push(0);
            encode_single(s, out);
            proof {
                assert(out@ =~= base + enc_kind(k@));
            }
        },
        TransactionKind::Batch(b) => {
            out.push(1);
            let ghost sv = singles_view(b@);
            let ghost base1 = out@;
            encode_u64(b.len() as u64, out);
            let ghost mid = out@;
            let n = b.len();
            let mut i: usize = 0;
            proof {
                assert(sv.take(0) =~= Seq::<SingleTransactionKindV>::empty());
                assert(mid + enc_run(sv.take(0), enc_single_fn()) =~= mid);
            }
            while i < n
                invariant
                    0 <= i <= n,
                    n == b@.len(),
                    sv == singles_view(b@),
                    sv.len() == n,
                    out@ == mid + enc_run(sv.take(i as int), enc_single_fn()),
                    mid == base1 + enc_u64(sv.len() as u64),
                decreases n - i,
            {
                let ghost prev = out@;
                encode_single(&b[i], out);
                i += 1;
                proof {
                    assert(sv.take(i as int) =~= sv.take(i - 1).push(sv[i - 1]));
                    lemma_enc_run_snoc(sv.take(i - 1), sv[i - 1], enc_single_fn());
                    assert(enc_single_fn()(sv[i - 1]) == enc_single(sv[i - 1]));
                    assert(sv[i - 1] == b@[i - 1]@);
                    assert(prev + enc_single(b@[i - 1]@) =~= mid + enc_run(
                        sv.take(i as int),
                        enc_single_fn(),
                    ));
                }
            }
            proof {
                assert(sv.take(n as int) =~= sv);
                assert(out@ =~= base + enc_kind(k@));
            }
        },
    }
}

impl TransactionData {
    /// The canonical encoding of this data: the bytes that are hashed into
    /// the transaction digest and that clients sign.
    pub fn to_bytes(&self) -> (r: Vec<u8>)
        ensures
            r@ == enc_data(self@),
    {
        let mut out: Vec<u8> = Vec::new();
        encode_kind(self.kind(), &mut out);
        let sender = self.signer();
        encode_fixed(&sender.0, &mut out);
        let gas = self.gas();
        encode_ref(&gas, &mut out);
        proof {
            assert(out@ =~= enc_data(self@));
        }
        out
    }
}

/// Decode a count-prefixed list of integers from a byte string.
#[verifier::loop_isolation(false)]
pub fn decode_u64_list(b: &Vec<u8>, pos: usize) -> (r: Option<(Vec<u64>, usize)>)
    ensures
        match (r, dec_counted_u64s_at(b@, pos as int)) {
            (Some((v, p)), Some((sv, sp))) => v@ == sv && p as int == sp,
            (None, None) => true,
            _ => false,
        },
{
    let (n, p0) = match decode_u64_at(b, pos) {
        Some(x) => x,
        None => {
            return None;
        },
    };
    let mut out: Vec<u64> = Vec::new();
    let mut p = p0;
    let mut i: u64 = 0;
    proof {
        assert forall|rest: Seq<u64>| (Seq::<u64>::empty() + rest) =~= rest by {}
        assert(out@ =~= Seq::<u64>::empty());
    }
    while i < n
        invariant
            0 <= i <= n,
            dec_u64_run(b@, p0 as int, n as nat) == (match dec_u64_run(
                b@,
                p as int,
                (n - i) as nat,
            ) {
                Some((rest, q)) => Some((out@ + rest, q)),
                None => None::<(Seq<u64>, int)>,
            }),
        decreases n - i,
    {
        let (v, q) = match decode_u64_at(b, p) {
            Some(x) => x,
            None => {
                return None;
            },
        };
        let ghost prev = out@;
        out.push(v);
        p = q;
        i += 1;
        proof {
            assert(prev.push(v) =~= prev + seq![v]);
            assert forall|rest: Seq<u64>| ((prev + seq![v]) + rest) =~= (prev + (seq![v] + rest))
                by {}
        }
    }
    proof {
        assert(out@ + Seq::<u64>::empty() =~= out@);
    }
    Some((out, p))
}

/// Decode a 64-bit integer from a byte string.
pub fn decode_u64_at(b: &Vec<u8>, pos: usize) -> (r: Option<(u64, usize)>)
    ensures
        match (r, dec_u64_at(b@, pos as int)) {
            (Some((v, p)), Some((sv, sp))) => v == sv && p as int == sp,
            (None, None) => true,
            _ => false,
        },
{
    if b.len() >= 8 && pos <= b.len() - 8 {
        let v = (b[pos] as u64) | (b[pos + 1] as u64) << 8 | (b[pos + 2] as u64) << 16 | (b[pos
            + 3] as u64) << 24 | (b[pos + 4] as u64) << 32 | (b[pos + 5] as u64) << 40 | (b[pos
            + 6] as u64) << 48 | (b[pos + 7] as u64) << 56;
        Some((v, pos + 8))
    } else {
        None
    }
}


/// Witness that one member's model is well formed: every collection is
/// bounded by the machine word, so every length fits the 64-bit prefixes.
fn member_model_well_formed(k: &SingleTransactionKind) -> (r: bool)
    ensures
        r,
        wf_single(k@),
{
    match k {
        SingleTransactionKind::Transfer(_t) => true,
        SingleTransactionKind::Publish(p) => {
            let n = p.modules.len();
            let mut i: usize = 0;
            while i < n
                invariant
                    0 <= i <= n,
                    n == p.modules@.len(),
                    forall|q: int|
                        0 <= q < i ==> fits_u64(#[trigger] vecs_as_seqs(p.modules@)[q].len() as int),
                decreases n - i,
            {
                let _len = p.modules[i].len();
                i += 1;
                proof {
                    assert(vecs_as_seqs(p.modules@)[i - 1] == p.modules@[i - 1]@);
                }
            }
            true
        },
        SingleTransactionKind::Call(c) => {
            let _na = c.object_arguments.len();
            let _ns = c.shared_object_arguments.len();
            let _nm = c.module.len();
            let _nf = c.function.len();
            let nt = c.type_arguments.len();
            let mut i: usize = 0;
            while i < nt
                invariant
                    0 <= i <= nt,
                    nt == c.type_arguments@.len(),
                    forall|q: int|
                        0 <= q < i ==> fits_u64(
                            #[trigger] vecs_as_seqs(c.type_arguments@)[q].len() as int,
                        ),
                decreases nt - i,
            {
                let _len = c.type_arguments[i].len();
                i += 1;
                proof {
                    assert(vecs_as_seqs(c.type_arguments@)[i - 1] == c.type_arguments@[i - 1]@);
                }
            }
            let np = c.pure_arguments.len();
            let mut j: usize = 0;
            while j < np
                invariant
                    0 <= j <= np,
                    np == c.pure_arguments@.len(),
                    forall|q: int|
                        0 <= q < j ==> fits_u64(
                            #[trigger] vecs_as_seqs(c.pure_arguments@)[q].len() as int,
                        ),
                decreases np - j,
            {
                let _len = c.pure_arguments[j].len();
                j += 1;
                proof {
                    assert(vecs_as_seqs(c.pure_arguments@)[j - 1] == c.pure_arguments@[j - 1]@);
                }
            }
            proof {
                assert forall|q: int|
                    0 <= q < c@.object_arguments.len() implies wf_ref(
                    #[trigger] c@.object_arguments[q],
                ) by {
                    assert(c@.object_arguments[q] == ref_view(c.object_arguments@[q]));
                }
                assert forall|q: int|
                    0 <= q < c@.shared_object_arguments.len() implies (
                #[trigger] c@.shared_object_arguments[q]).len() == 20 by {
                    assert(c@.shared_object_arguments[q] == c.shared_object_arguments@[q]@);
                }
            }
            true
        },
    }
}

/// Witness that an executable data value has a well-formed model: the
/// round-trip law therefore applies to every value the library can hold.
pub fn data_model_well_formed(d: &TransactionData) -> (r: bool)
    ensures
        r,
        wf_data(d@),
{
    let sender = d.signer();
    let gas = d.gas();
    proof {
        assert(sender@.len() == 20);
        assert(wf_ref(ref_view(gas)));
    }
    match d.kind() {
        TransactionKind::Single(member) => {
            let _ok = member_model_well_formed(member);
            proof {
                assert(d@.kind == crate::messages::TransactionKindV::Single(member@));
            }
        },
        TransactionKind::Batch(members) => {
            let n = members.len();
            let mut i: usize = 0;
            while i < n
                invariant
                    0 <= i <= n,
                    n == members@.len(),
                    forall|q: int|
                        0 <= q < i ==> wf_single(#[trigger] singles_view(members@)[q]),
                decreases n - i,
            {
                let _ok = member_model_well_formed(&members[i]);
                i += 1;
                proof {
                    assert(singles_view(members@)[i - 1] == members@[i - 1]@);
                }
            }
            proof {
                assert(d@.kind == crate::messages::TransactionKindV::Batch(
                    singles_view(members@),
                ));
            }
        },
    }
    true
}


/// Whether two byte vectors hold the same bytes.
fn bytes_vecs_equal(a: &Vec<u8>, b: &Vec<u8>) -> (r: bool)
    ensures
        r == (a@ == b@),
{
    if a.len() != b.len() {
        proof {
            assert(a@.len() != b@.len());
        }
        return false;
    }
    let mut i: usize = 0;
    while i < a.len()
        invariant
            0 <= i <= a@.len(),
            a@.len() == b@.len(),
            forall|q: int| 0 <= q < i ==> a@[q] == b@[q],
        decreases a@.len() - i,
    {
        if a[i] != b[i] {
            proof {
                assert(a@ != b@);
            }
            return false;
        }
        i += 1;
    }
    proof {
        assert(a@ =~= b@);
    }
    true
}

impl PartialEq for Transaction {
    /// Transactions compare by their data alone — the signature and the
    /// checked mark play no part — through the canonical encoding, which
    /// the round-trip law shows loses nothing.
    fn eq(&self, other: &Transaction) -> (r: bool) {
        let _wf_a = data_model_well_formed(&self.data);
        let _wf_b = data_model_well_formed(&other.data);
        let ea = self.data.to_bytes();
        let eb = other.data.to_bytes();
        let r = bytes_vecs_equal(&ea, &eb);
        proof {
            if r {
                lemma_data_round_trip(self.data@);
                lemma_data_round_trip(other.data@);
            }
        }
        r
    }
}

impl Eq for Transaction {}

impl vstd::std_specs::cmp::PartialEqSpecImpl for Transaction {
    open spec fn obeys_eq_spec() -> bool {
        true
    }

    open spec fn eq_spec(&self, other: &Transaction) -> bool {
        self.data@ == other.data@
    }
}

} // verus!
