//! Reading dependent-package addresses out of compiled Move module bytes.
//!
//! A publish transaction implicitly reads every package its modules import,
//! so the declared module handles of each compiled module are inputs of the
//! transaction. Only the binary header is read here: the magic, the table
//! headers, the module-handle table and the address-identifier table. A
//! module that does not parse contributes nothing — execution will discover
//! the malformed module and fail the transaction there, charging gas.

use vstd::prelude::*;
use crate::base_types::ObjectID;

verus! {

/// The four magic bytes that open a compiled module.
pub open spec fn spec_module_magic() -> Seq<u8> {
    seq![0xA1u8, 0x1Cu8, 0xEBu8, 0x0Bu8]
}

/// The all-zero address, which never names a real package.
pub open spec fn spec_zero_address() -> Seq<u8> {
    Seq::<u8>::new(20, |i: int| 0u8)
}

/// Decode one unsigned LEB128 value of at most `fuel` bytes (so at most
/// 28 bits of payload when `fuel` is 4). Returns the value and the position
/// after it.
pub open spec fn spec_dec_uleb(b: Seq<u8>, pos: int, fuel: nat) -> Option<(int, int)>
    decreases fuel,
{
    if fuel == 0 || pos < 0 || pos >= b.len() {
        None
    } else if b[pos] < 0x80 {
        Some((b[pos] as int, pos + 1))
    } else {
        match spec_dec_uleb(b, pos + 1, (fuel - 1) as nat) {
            Some((rest, p)) => if rest < 0x200000 {
                Some(((b[pos] - 0x80) + 0x80 * rest, p))
            } else {
                None
            },
            None => None,
        }
    }
}

/// Decode `n` table headers, each a (kind, offset, length) triple of LEB128
/// values. Returns the headers and the position after them.
pub open spec fn spec_dec_tables(b: Seq<u8>, pos: int, n: nat) -> Option<(Seq<(int, int, int)>, int)>
    decreases n,
{
    if n == 0 {
        Some((Seq::empty(), pos))
    } else {
        match spec_dec_uleb(b, pos, 4) {
            Some((kind, p1)) => match spec_dec_uleb(b, p1, 4) {
                Some((off, p2)) => match spec_dec_uleb(b, p2, 4) {
                    Some((len, p3)) => match spec_dec_tables(b, p3, (n - 1) as nat) {
                        Some((rest, end)) => Some((seq![(kind, off, len)] + rest, end)),
                        None => None,
                    },
                    None => None,
                },
                None => None,
            },
            None => None,
        }
    }
}

/// The (offset, length) of the first table of the given kind, if any.
pub open spec fn spec_find_table(tables: Seq<(int, int, int)>, kind: int) -> Option<(int, int)>
    decreases tables.len(),
{
    if tables.len() == 0 {
        None
    } else if tables[0].0 == kind {
        Some((tables[0].1, tables[0].2))
    } else {
        spec_find_table(tables.drop_first(), kind)
    }
}

/// Decode the module-handle table: a run of (address index, name index)
/// pairs that must fill the region exactly. Returns the address indices.
pub open spec fn spec_dec_handles(region: Seq<u8>, pos: int, fuel: nat) -> Option<Seq<int>>
    decreases fuel,
{
    if pos == region.len() {
        Some(Seq::empty())
    } else if fuel == 0 {
        None
    } else {
        match spec_dec_uleb(region, pos, 4) {
            Some((addr_idx, p1)) => match spec_dec_uleb(region, p1, 4) {
                Some((_name_idx, p2)) => match spec_dec_handles(region, p2, (fuel - 1) as nat) {
                    Some(rest) => Some(seq![addr_idx] + rest),
                    None => None,
                },
                None => None,
            },
            None => None,
        }
    }
}

/// Resolve address indices against the address-identifier table, a run of
/// 20-byte entries. Any index out of range makes the module malformed.
pub open spec fn spec_resolve_addrs(idxs: Seq<int>, addr_region: Seq<u8>) -> Option<Seq<Seq<u8>>>
    decreases idxs.len(),
{
    if idxs.len() == 0 {
        Some(Seq::empty())
    } else if 0 <= idxs[0] && 20 * idxs[0] + 20 <= addr_region.len() {
        match spec_resolve_addrs(idxs.drop_first(), addr_region) {
            Some(rest) => Some(
                seq![addr_region.subrange(20 * idxs[0], 20 * idxs[0] + 20)] + rest,
            ),
            None => None,
        }
    } else {
        None
    }
}

/// The addresses named by the module handles of one compiled module, in
/// handle order, or `None` when the header does not parse.
pub open spec fn spec_module_dep_addrs(bytes: Seq<u8>) -> Option<Seq<Seq<u8>>> {
    if bytes.len() < 8 || bytes.subrange(0, 4) != spec_module_magic() {
        None
    } else {
        match spec_dec_uleb(bytes, 8, 4) {
            Some((count, p)) => match spec_dec_tables(bytes, p, count as nat) {
                Some((tables, header_end)) => match spec_find_table(tables, 1) {
                    None => Some(Seq::empty()),
                    Some((hoff, hlen)) => {
                        if header_end + hoff + hlen > bytes.len() {
                            None
                        } else {
                            let hregion = bytes.subrange(
                                header_end + hoff,
                                header_end + hoff + hlen,
                            );
                            match spec_dec_handles(hregion, 0, hlen as nat) {
                                Some(idxs) => {
                                    if idxs.len() == 0 {
                                        Some(Seq::empty())
                                    } else {
                                        match spec_find_table(tables, 8) {
                                            None => None,
                                            Some((aoff, alen)) => {
                                                if header_end + aoff + alen > bytes.len() {
                                                    None
                                                } else {
                                                    spec_resolve_addrs(
                                                        idxs,
                                                        bytes.subrange(
                                                            header_end + aoff,
                                                            header_end + aoff + alen,
                                                        ),
                                                    )
                                                }
                                            },
                                        }
                                    }
                                },
                                None => None,
                            }
                        }
                    },
                },
                None => None,
            },
            None => None,
        }
    }
}


/// View of a vector of indices as mathematical integers.
pub open spec fn idxs_as_ints(s: Seq<u32>) -> Seq<int> {
    s.map_values(|x: u32| x as int)
}

/// View of a vector of identifiers as byte sequences.
pub open spec fn ids_as_seqs(s: Seq<ObjectID>) -> Seq<Seq<u8>> {
    s.map_values(|o: ObjectID| o@)
}

/// View of a vector of byte vectors as a sequence of byte sequences.
pub open spec fn vecs_as_seqs(s: Seq<Vec<u8>>) -> Seq<Seq<u8>> {
    s.map_values(|v: Vec<u8>| v@)
}

/// View of an optional (offset, length) pair as mathematical integers.
pub open spec fn opt_pair_as_ints(o: Option<(u32, u32)>) -> Option<(int, int)> {
    match o {
        Some((a, b)) => Some((a as int, b as int)),
        None => None,
    }
}

/// Looking a table up in a concatenation finds the first half's entry first.
proof fn lemma_find_table_concat(s1: Seq<(int, int, int)>, s2: Seq<(int, int, int)>, kind: int)
    ensures
        spec_find_table(s1 + s2, kind) == (if spec_find_table(s1, kind) is Some {
            spec_find_table(s1, kind)
        } else {
            spec_find_table(s2, kind)
        }),
    decreases s1.len(),
{
    if s1.len() == 0 {
        assert(s1 + s2 =~= s2);
    } else {
        assert((s1 + s2).drop_first() =~= s1.drop_first() + s2);
        lemma_find_table_concat(s1.drop_first(), s2, kind);
    }
}

/// Decode one LEB128 value; the executable twin of [`spec_dec_uleb`].
fn read_uleb(b: &Vec<u8>, pos: usize, fuel: u8) -> (r: Option<(u32, usize)>)
    requires
        fuel <= 4,
    ensures
        match (r, spec_dec_uleb(b@, pos as int, fuel as nat)) {
            (Some((v, p)), Some((sv, sp))) => v as int == sv && p as int == sp,
            (None, None) => true,
            _ => false,
        },
        r matches Some((v, p)) ==> v < 0x10000000 && pos < p <= b@.len(),
    decreases fuel,
{
    if fuel == 0 || pos >= b.len() {
        None
    } else {
        let byte = b[pos];
        if byte < 0x80 {
            Some((byte as u32, pos + 1))
        } else {
            match read_uleb(b, pos + 1, fuel - 1) {
                Some((rest, p)) => {
                    if rest < 0x200000 {
                        Some(((byte - 0x80) as u32 + 0x80 * rest, p))
                    } else {
                        None
                    }
                },
                None => None,
            }
        }
    }
}

/// Copy `b[start..end]` into a fresh vector.
fn copy_range(b: &Vec<u8>, start: usize, end: usize) -> (r: Vec<u8>)
    requires
        start <= end <= b@.len(),
    ensures
        r@ == b@.subrange(start as int, end as int),
{
    let mut r: Vec<u8> = Vec::new();
    let mut i: usize = start;
    while i < end
        invariant
            start <= i <= end <= b@.len(),
            r@ == b@.subrange(start as int, i as int),
        decreases end - i,
    {
        r.push(b[i]);
        i += 1;
        proof {
            assert(r@ =~= b@.subrange(start as int, i as int));
        }
    }
    r
}

/// Scan the table headers; returns the first module-handle table, the first
/// address-identifier table, and the position after the headers.
fn read_table_headers(b: &Vec<u8>, pos0: usize, n: u32) -> (r: Option<
    (Option<(u32, u32)>, Option<(u32, u32)>, usize),
>)
    requires
        pos0 <= b@.len(),
    ensures
        match (r, spec_dec_tables(b@, pos0 as int, n as nat)) {
            (Some((ht, at, end)), Some((tables, send))) => {
                &&& end as int == send
                &&& end <= b@.len()
                &&& opt_pair_as_ints(ht) == spec_find_table(tables, 1)
                &&& opt_pair_as_ints(at) == spec_find_table(tables, 8)
            },
            (None, None) => true,
            _ => false,
        },
{
    let mut handle_tab: Option<(u32, u32)> = None;
    let mut addr_tab: Option<(u32, u32)> = None;
    let mut pos = pos0;
    let ghost mut prefix: Seq<(int, int, int)> = Seq::empty();
    let mut i: u32 = 0;
    while i < n
        invariant
            0 <= i <= n,
            pos <= b@.len(),
            spec_dec_tables(b@, pos0 as int, n as nat) == (match spec_dec_tables(
                b@,
                pos as int,
                (n - i) as nat,
            ) {
                Some((rest, end)) => Some((prefix + rest, end)),
                None => None::<(Seq<(int, int, int)>, int)>,
            }),
            opt_pair_as_ints(handle_tab) == spec_find_table(prefix, 1),
            opt_pair_as_ints(addr_tab) == spec_find_table(prefix, 8),
        decreases n - i,
    {
        let (kind, p1) = match read_uleb(b, pos, 4) {
            Some(x) => x,
            None => {
                return None;
            },
        };
        let (off, p2) = match read_uleb(b, p1, 4) {
            Some(x) => x,
            None => {
                return None;
            },
        };
        let (len, p3) = match read_uleb(b, p2, 4) {
            Some(x) => x,
            None => {
                return None;
            },
        };
        if kind == 1 && handle_tab.is_none() {
            handle_tab = Some((off, len));
        }
        if kind == 8 && addr_tab.is_none() {
            addr_tab = Some((off, len));
        }
        proof {
            let t = (kind as int, off as int, len as int);
            lemma_find_table_concat(prefix, seq![t], 1);
            lemma_find_table_concat(prefix, seq![t], 8);
            assert(spec_find_table(seq![t], 1) == (if t.0 == 1 {
                Some((t.1, t.2))
            } else {
                None::<(int, int)>
            })) by {
                assert(seq![t].len() == 1);
                assert(seq![t][0] == t);
                assert(seq![t].drop_first() =~= Seq::<(int, int, int)>::empty());
                assert(spec_find_table(Seq::<(int, int, int)>::empty(), 1) is None);
                assert(spec_find_table(Seq::<(int, int, int)>::empty(), 8) is None);
            }
            assert(spec_find_table(seq![t], 8) == (if t.0 == 8 {
                Some((t.1, t.2))
            } else {
                None::<(int, int)>
            })) by {
                assert(seq![t].len() == 1);
                assert(seq![t][0] == t);
                assert(seq![t].drop_first() =~= Seq::<(int, int, int)>::empty());
                assert(spec_find_table(Seq::<(int, int, int)>::empty(), 1) is None);
                assert(spec_find_table(Seq::<(int, int, int)>::empty(), 8) is None);
            }
            assert forall|rest: Seq<(int, int, int)>|
                ((prefix + seq![t]) + rest) =~= (prefix + (seq![t] + rest)) by {}
            prefix = prefix + seq![t];
        }
        pos = p3;
        i += 1;
    }
    proof {
        assert(prefix + Seq::<(int, int, int)>::empty() =~= prefix);
    }
    Some((handle_tab, addr_tab, pos))
}

/// Parse the module-handle region into the address indices it references.
fn read_handles(region: &Vec<u8>) -> (r: Option<Vec<u32>>)
    ensures
        match (r, spec_dec_handles(region@, 0, region@.len() as nat)) {
            (Some(v), Some(s)) => idxs_as_ints(v@) == s,
            (None, None) => true,
            _ => false,
        },
{
    let mut idxs: Vec<u32> = Vec::new();
    let mut pos: usize = 0;
    while pos < region.len()
        invariant
            pos <= region@.len(),
            2 * idxs@.len() <= pos,
            spec_dec_handles(region@, 0, region@.len() as nat) == (match spec_dec_handles(
                region@,
                pos as int,
                (region@.len() - idxs@.len()) as nat,
            ) {
                Some(rest) => Some(idxs_as_ints(idxs@) + rest),
                None => None::<Seq<int>>,
            }),
        decreases region@.len() - pos,
    {
        let (addr_idx, p1) = match read_uleb(region, pos, 4) {
            Some(x) => x,
            None => {
                return None;
            },
        };
        let (_name_idx, p2) = match read_uleb(region, p1, 4) {
            Some(x) => x,
            None => {
                return None;
            },
        };
        proof {
            assert(idxs_as_ints(idxs@.push(addr_idx)) =~= idxs_as_ints(idxs@) + seq![
                addr_idx as int,
            ]);
            assert forall|rest: Seq<int>|
                ((idxs_as_ints(idxs@) + seq![addr_idx as int]) + rest) =~= (idxs_as_ints(idxs@) + (
            seq![addr_idx as int] + rest)) by {}
        }
        idxs.push(addr_idx);
        pos = p2;
    }
    Some(idxs)
}

/// Resolve address indices against the address-identifier region.
fn resolve_addrs(idxs: &Vec<u32>, region: &Vec<u8>) -> (r: Option<Vec<ObjectID>>)
    ensures
        match (r, spec_resolve_addrs(idxs_as_ints(idxs@), region@)) {
            (Some(v), Some(s)) => ids_as_seqs(v@) == s,
            (None, None) => true,
            _ => false,
        },
{
    let mut out: Vec<ObjectID> = Vec::new();
    let mut i: usize = 0;
    proof {
        assert(idxs_as_ints(idxs@).skip(0) =~= idxs_as_ints(idxs@));
        assert(ids_as_seqs(out@) =~= Seq::<Seq<u8>>::empty());
        assert forall|rest: Seq<Seq<u8>>| (Seq::<Seq<u8>>::empty() + rest) =~= rest by {}
    }
    while i < idxs.len()
        invariant
            0 <= i <= idxs@.len(),
            out@.len() == i,
            spec_resolve_addrs(idxs_as_ints(idxs@), region@) == (match spec_resolve_addrs(
                idxs_as_ints(idxs@).skip(i as int),
                region@,
            ) {
                Some(rest) => Some(ids_as_seqs(out@) + rest),
                None => None::<Seq<Seq<u8>>>,
            }),
        decreases idxs@.len() - i,
    {
        let idx = idxs[i];
        proof {
            assert(idxs_as_ints(idxs@).skip(i as int)[0] == idx as int);
        }
        let start64 = 20u64 * (idx as u64);
        let rlen = region.len();
        if start64 + 20 > rlen as u64 {
            return None;
        }
        let start = start64 as usize;
        let mut a = [0u8; 20];
        let mut k: usize = 0;
        while k < 20
            invariant
                0 <= k <= 20,
                start as int == 20 * (idx as int),
                start + 20 <= rlen,
                rlen == region@.len(),
                a@.len() == 20,
                forall|j: int| 0 <= j < k ==> a@[j] == region@[start + j],
            decreases 20 - k,
        {
            a[k] = region[start + k];
            k += 1;
        }
        proof {
            assert(a@ =~= region@.subrange(20 * (idx as int), 20 * (idx as int) + 20));
            assert(ids_as_seqs(out@.push(ObjectID(a))) =~= ids_as_seqs(out@) + seq![a@]);
            let tail = idxs_as_ints(idxs@).skip(i as int);
            assert(tail.drop_first() =~= idxs_as_ints(idxs@).skip(i + 1));
            assert forall|rest: Seq<Seq<u8>>|
                ((ids_as_seqs(out@) + seq![a@]) + rest) =~= (ids_as_seqs(out@) + (seq![a@]
                    + rest)) by {}
        }
        out.push(ObjectID(a));
        i += 1;
    }
    proof {
        assert(idxs_as_ints(idxs@).skip(i as int) =~= Seq::<int>::empty());
        assert(ids_as_seqs(out@) + Seq::<Seq<u8>>::empty() =~= ids_as_seqs(out@));
    }
    Some(out)
}

/// Parse one compiled module and return the package addresses its module
/// handles name, in handle order; `None` when the header does not parse.
pub fn parse_module_dep_addrs(bytes: &Vec<u8>) -> (r: Option<Vec<ObjectID>>)
    ensures
        match (r, spec_module_dep_addrs(bytes@)) {
            (Some(v), Some(s)) => ids_as_seqs(v@) == s,
            (None, None) => true,
            _ => false,
        },
{
    if bytes.len() < 8 {
        return None;
    }
    if !(bytes[0] == 0xA1 && bytes[1] == 0x1C && bytes[2] == 0xEB && bytes[3] == 0x0B) {
        proof {
            if bytes@.subrange(0, 4) == spec_module_magic() {
                assert(bytes@[0] == spec_module_magic()[0]);
                assert(bytes@[1] == spec_module_magic()[1]);
                assert(bytes@[2] == spec_module_magic()[2]);
                assert(bytes@[3] == spec_module_magic()[3]);
            }
        }
        return None;
    }
    proof {
        assert(bytes@.subrange(0, 4) =~= spec_module_magic());
    }
    let (count, p) = match read_uleb(bytes, 8, 4) {
        Some(x) => x,
        None => {
            return None;
        },
    };
    let (handle_tab, addr_tab, header_end) = match read_table_headers(bytes, p, count) {
        Some(x) => x,
        None => {
            return None;
        },
    };
    let (hoff, hlen) = match handle_tab {
        Some(x) => x,
        None => {
            return Some(Vec::new());
        },
    };
    if header_end as u128 + hoff as u128 + hlen as u128 > bytes.len() as u128 {
        return None;
    }
    let hstart = header_end + hoff as usize;
    let hregion = copy_range(bytes, hstart, hstart + hlen as usize);
    let idxs = match read_handles(&hregion) {
        Some(x) => x,
        None => {
            return None;
        },
    };
    if idxs.len() == 0 {
        proof {
            assert(idxs_as_ints(idxs@) =~= Seq::<int>::empty());
            assert(ids_as_seqs(Seq::<ObjectID>::empty()) =~= Seq::<Seq<u8>>::empty());
        }
        return Some(Vec::new());
    }
    let (aoff, alen) = match addr_tab {
        Some(x) => x,
        None => {
            return None;
        },
    };
    if header_end as u128 + aoff as u128 + alen as u128 > bytes.len() as u128 {
        return None;
    }
    let astart = header_end + aoff as usize;
    let aregion = copy_range(bytes, astart, astart + alen as usize);
    resolve_addrs(&idxs, &aregion)
}


/// The nonzero addresses one module contributes: its handle addresses with
/// the reserved zero address removed, or nothing when it does not parse.
pub open spec fn spec_addrs_of_module(m: Seq<u8>) -> Seq<Seq<u8>> {
    match spec_module_dep_addrs(m) {
        Some(s) => spec_filter_nonzero(s),
        None => Seq::empty(),
    }
}

/// Remove the reserved zero address from a sequence of addresses.
pub open spec fn spec_filter_nonzero(s: Seq<Seq<u8>>) -> Seq<Seq<u8>>
    decreases s.len(),
{
    if s.len() == 0 {
        Seq::empty()
    } else {
        spec_filter_nonzero(s.drop_last()) + (if s.last() == spec_zero_address() {
            Seq::empty()
        } else {
            seq![s.last()]
        })
    }
}

/// All nonzero handle addresses of a run of modules, in order.
pub open spec fn spec_all_dep_addrs(modules: Seq<Seq<u8>>) -> Seq<Seq<u8>>
    decreases modules.len(),
{
    if modules.len() == 0 {
        Seq::empty()
    } else {
        spec_all_dep_addrs(modules.drop_last()) + spec_addrs_of_module(modules.last())
    }
}

/// Keep the first occurrence of every element, in order of first appearance.
pub open spec fn spec_dedup_first(s: Seq<Seq<u8>>) -> Seq<Seq<u8>>
    decreases s.len(),
{
    if s.len() == 0 {
        Seq::empty()
    } else {
        spec_dedup_first(s.drop_last()) + (if s.drop_last().contains(s.last()) {
            Seq::empty()
        } else {
            seq![s.last()]
        })
    }
}

/// Deduplication keeps exactly the members of its input sequence.
pub proof fn lemma_dedup_first_membership(s: Seq<Seq<u8>>, a: Seq<u8>)
    ensures
        spec_dedup_first(s).contains(a) <==> s.contains(a),
    decreases s.len(),
{
    if s.len() == 0 {
    } else {
        lemma_dedup_first_membership(s.drop_last(), a);
        assert(s.contains(a) <==> (s.drop_last().contains(a) || s.last() == a)) by {
            if s.contains(a) {
                let i = choose|i: int| 0 <= i < s.len() && s[i] == a;
                if i < s.len() - 1 {
                    assert(s.drop_last()[i] == a);
                }
            }
            if s.drop_last().contains(a) {
                let i = choose|i: int| 0 <= i < s.drop_last().len() && s.drop_last()[i] == a;
                assert(s[i] == a);
            }
            if s.last() == a {
                assert(s[s.len() - 1] == a);
            }
        }
        if spec_dedup_first(s).contains(a) {
            let i = choose|i: int|
                0 <= i < spec_dedup_first(s).len() && spec_dedup_first(s)[i] == a;
            if i < spec_dedup_first(s.drop_last()).len() {
                assert(spec_dedup_first(s.drop_last())[i] == a);
            }
        }
        if s.contains(a) {
            if s.drop_last().contains(a) {
                let i = choose|i: int|
                    0 <= i < spec_dedup_first(s.drop_last()).len() && spec_dedup_first(
                        s.drop_last(),
                    )[i] == a;
                assert(spec_dedup_first(s)[i] == a);
            } else {
                assert(s.last() == a);
                assert(spec_dedup_first(s).last() == a);
                assert(spec_dedup_first(s).contains(a));
            }
        }
    }
}

/// Deduplication never repeats an element.
pub proof fn lemma_dedup_first_unique(s: Seq<Seq<u8>>)
    ensures
        forall|i: int, j: int|
            0 <= i < j < spec_dedup_first(s).len() ==> spec_dedup_first(s)[i]
                != spec_dedup_first(s)[j],
    decreases s.len(),
{
    if s.len() == 0 {
    } else {
        lemma_dedup_first_unique(s.drop_last());
        let d = spec_dedup_first(s);
        let dp = spec_dedup_first(s.drop_last());
        assert forall|i: int, j: int| 0 <= i < j < d.len() implies d[i] != d[j] by {
            if j < dp.len() {
                assert(dp[i] == d[i] && dp[j] == d[j]);
            } else {
                assert(!s.drop_last().contains(s.last()));
                assert(d[j] == s.last());
                assert(d[i] == dp[i]);
                lemma_dedup_first_membership(s.drop_last(), dp[i]);
                assert(dp.contains(dp[i]));
            }
        }
    }
}

/// The dependent packages a publish transaction implicitly reads: every
/// nonzero address named by a handle of a parseable module, first
/// occurrences in order. The order is deliberately that of the module
/// stream, not ascending by id: every party derives it from the same
/// transaction bytes, so it is deterministic wherever it is recomputed.
pub open spec fn spec_publish_deps(modules: Seq<Seq<u8>>) -> Seq<Seq<u8>> {
    spec_dedup_first(spec_all_dep_addrs(modules))
}

/// Whether a vector of identifiers already holds one.
fn contains_id(v: &Vec<ObjectID>, a: &ObjectID) -> (r: bool)
    ensures
        r == ids_as_seqs(v@).contains(a@),
{
    let mut i: usize = 0;
    while i < v.len()
        invariant
            0 <= i <= v@.len(),
            forall|j: int| 0 <= j < i ==> v@[j]@ != a@,
        decreases v@.len() - i,
    {
        if crate::base_types::bytes_eq(&v[i].0, &a.0) {
            proof {
                assert(ids_as_seqs(v@)[i as int] == a@);
            }
            return true;
        }
        i += 1;
    }
    proof {
        if ids_as_seqs(v@).contains(a@) {
            let j = choose|j: int| 0 <= j < v@.len() && ids_as_seqs(v@)[j] == a@;
            assert(v@[j]@ == a@);
        }
    }
    false
}

/// Collect the dependent-package addresses of a run of compiled modules:
/// parse each module, drop the zero address, and keep first occurrences.
pub fn publish_dep_addresses(modules: &Vec<Vec<u8>>) -> (r: Vec<ObjectID>)
    ensures
        ids_as_seqs(r@) == spec_publish_deps(vecs_as_seqs(modules@)),
{
    let zero = [0u8; 20];
    proof {
        assert(zero@ =~= spec_zero_address());
    }
    let mut out: Vec<ObjectID> = Vec::new();
    let ghost mut seen: Seq<Seq<u8>> = Seq::empty();
    let mut i: usize = 0;
    proof {
        assert(vecs_as_seqs(modules@).take(0) =~= Seq::<Seq<u8>>::empty());
    }
    while i < modules.len()
        invariant
            0 <= i <= modules@.len(),
            zero@ == spec_zero_address(),
            seen == spec_all_dep_addrs(vecs_as_seqs(modules@).take(i as int)),
            ids_as_seqs(out@) == spec_dedup_first(seen),
        decreases modules@.len() - i,
    {
        let parsed = parse_module_dep_addrs(&modules[i]);
        match parsed {
            None => {
                proof {
                    let ms = vecs_as_seqs(modules@);
                    assert(ms.take(i + 1).drop_last() =~= ms.take(i as int));
                    assert(ms.take(i + 1).last() == modules@[i as int]@);
                    assert(spec_addrs_of_module(modules@[i as int]@) =~= Seq::<Seq<u8>>::empty());
                    assert(spec_all_dep_addrs(ms.take(i + 1)) =~= seen);
                    seen = spec_all_dep_addrs(ms.take(i + 1));
                }
            },
            Some(addrs) => {
                let mut j: usize = 0;
                let ghost sv = ids_as_seqs(addrs@);
                proof {
                    assert(sv.take(0) =~= Seq::<Seq<u8>>::empty());
                    assert(spec_filter_nonzero(sv.take(0)) =~= Seq::<Seq<u8>>::empty());
                    assert(seen + spec_filter_nonzero(sv.take(0)) =~= seen);
                }
                while j < addrs.len()
                    invariant
                        0 <= j <= addrs@.len(),
                        zero@ == spec_zero_address(),
                        sv == ids_as_seqs(addrs@),
                        ids_as_seqs(out@) == spec_dedup_first(
                            seen + spec_filter_nonzero(sv.take(j as int)),
                        ),
                    decreases addrs@.len() - j,
                {
                    let a = addrs[j];
                    let ghost acc = seen + spec_filter_nonzero(sv.take(j as int));
                    proof {
                        assert(sv.take(j + 1).drop_last() =~= sv.take(j as int));
                        assert(sv.take(j + 1).last() == a@);
                    }
                    if !crate::base_types::bytes_eq(&a.0, &zero) {
                        proof {
                            assert(spec_filter_nonzero(sv.take(j + 1)) =~= spec_filter_nonzero(
                                sv.take(j as int),
                            ) + seq![a@]);
                            assert(seen + spec_filter_nonzero(sv.take(j + 1)) =~= acc.push(a@));
                            assert(acc.push(a@).drop_last() =~= acc);
                        }
                        if !contains_id(&out, &a) {
                            proof {
                                lemma_dedup_first_membership(acc, a@);
                                assert(!acc.contains(a@));
                                assert(spec_dedup_first(acc.push(a@)) =~= spec_dedup_first(acc)
                                    + seq![a@]);
                                assert(ids_as_seqs(out@.push(a)) =~= ids_as_seqs(out@) + seq![a@]);
                            }
                            out.push(a);
                        } else {
                            proof {
                                lemma_dedup_first_membership(acc, a@);
                                assert(acc.contains(a@));
                                assert(spec_dedup_first(acc.push(a@)) =~= spec_dedup_first(acc));
                            }
                        }
                    } else {
                        proof {
                            assert(spec_filter_nonzero(sv.take(j + 1)) =~= spec_filter_nonzero(
                                sv.take(j as int),
                            ));
                            assert(seen + spec_filter_nonzero(sv.take(j + 1)) =~= acc);
                        }
                    }
                    j += 1;
                }
                proof {
                    let ms = vecs_as_seqs(modules@);
                    assert(sv.take(addrs@.len() as int) =~= sv);
                    assert(ms.take(i + 1).drop_last() =~= ms.take(i as int));
                    assert(ms.take(i + 1).last() == modules@[i as int]@);
                    assert(spec_addrs_of_module(modules@[i as int]@) == spec_filter_nonzero(sv));
                    assert(spec_all_dep_addrs(ms.take(i + 1)) =~= seen + spec_filter_nonzero(sv));
                    seen = seen + spec_filter_nonzero(sv);
                }
            },
        }
        i += 1;
    }
    proof {
        assert(vecs_as_seqs(modules@).take(modules@.len() as int) =~= vecs_as_seqs(modules@));
    }
    out
}

} // verus!
