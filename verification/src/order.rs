//! Key comparators for the traversal engine.
//!
//! Each tree orders its keys by a tree-specific rule: raw lexicographic
//! byte order, or the object map's (virtual object id, transaction id)
//! numeric order. The engine only relies on the order being strict and
//! total over well-formed keys, which the lemmas here establish.

use vstd::prelude::*;

verus! {

use vstd::bytes::{lemma_auto_spec_u64_to_from_le_bytes, u64_from_le_bytes};
use vstd::slice::slice_subrange;
use crate::node::spec_u64_at;

/// The ordering rule a tree applies to its key bytes.
#[derive(Clone, Copy, Debug, PartialEq, Eq, Structural)]
pub enum KeyComparator {
    /// Plain lexicographic comparison of the raw key bytes.
    Bytes,
    /// Object-map order: by virtual object id, then by transaction id,
    /// both read as little-endian 64-bit fields of a 16-byte key.
    ObjectMap,
}

/// The outcome of comparing two keys.
#[derive(Clone, Copy, Debug, PartialEq, Eq, Structural)]
pub enum KeyOrdering {
    /// The first key sorts before the second.
    Less,
    /// The keys are equal.
    Equal,
    /// The first key sorts after the second.
    Greater,
}

/// Strict lexicographic order on byte sequences.
pub open spec fn spec_bytes_lt(a: Seq<u8>, b: Seq<u8>) -> bool
    decreases a.len(),
{
    if b.len() == 0 {
        false
    } else if a.len() == 0 {
        true
    } else if a[0] < b[0] {
        true
    } else if a[0] > b[0] {
        false
    } else {
        spec_bytes_lt(a.skip(1), b.skip(1))
    }
}

/// The virtual object id of an object-map key.
pub open spec fn spec_omap_key_oid(k: Seq<u8>) -> u64 {
    spec_u64_at(k, 0)
}

/// The transaction id of an object-map key.
pub open spec fn spec_omap_key_xid(k: Seq<u8>) -> u64 {
    spec_u64_at(k, 8)
}

/// Object-map key order: by id, then by transaction id.
pub open spec fn spec_omap_key_lt(a: Seq<u8>, b: Seq<u8>) -> bool {
    ||| spec_omap_key_oid(a) < spec_omap_key_oid(b)
    ||| (spec_omap_key_oid(a) == spec_omap_key_oid(b) && spec_omap_key_xid(a) < spec_omap_key_xid(
        b,
    ))
}

/// Whether `k` is a well-formed key for comparator `c`.
pub open spec fn spec_key_wf(c: KeyComparator, k: Seq<u8>) -> bool {
    match c {
        KeyComparator::Bytes => true,
        KeyComparator::ObjectMap => k.len() == 16,
    }
}

/// Strict key order under comparator `c`.
pub open spec fn spec_key_lt(c: KeyComparator, a: Seq<u8>, b: Seq<u8>) -> bool {
    match c {
        KeyComparator::Bytes => spec_bytes_lt(a, b),
        KeyComparator::ObjectMap => spec_omap_key_lt(a, b),
    }
}

/// Lexicographic order is a strict total order: for any two sequences,
/// exactly one of `a < b`, `a == b`, `b < a` holds.
proof fn lemma_bytes_lt_trichotomy(a: Seq<u8>, b: Seq<u8>)
    ensures
        spec_bytes_lt(a, b) || spec_bytes_lt(b, a) || a == b,
        spec_bytes_lt(a, b) ==> !spec_bytes_lt(b, a) && a != b,
        spec_bytes_lt(b, a) ==> !spec_bytes_lt(a, b) && a != b,
    decreases a.len(),
{
    if a.len() > 0 && b.len() > 0 && a[0] == b[0] {
        lemma_bytes_lt_trichotomy(a.skip(1), b.skip(1));
        if a.skip(1) == b.skip(1) {
            assert forall|i: int| 0 <= i < a.len() implies a[i] == b[i] by {
                if i > 0 {
                    assert(a[i] == a.skip(1)[i - 1]);
                    assert(b[i] == b.skip(1)[i - 1]);
                }
            }
            assert(a =~= b);
        }
        if a == b {
            assert(a.skip(1) =~= b.skip(1));
        }
    } else if a == b {
        assert(a.len() == b.len());
    }
}

/// Lexicographic order is transitive.
proof fn lemma_bytes_lt_trans(a: Seq<u8>, b: Seq<u8>, c: Seq<u8>)
    requires
        spec_bytes_lt(a, b),
        spec_bytes_lt(b, c),
    ensures
        spec_bytes_lt(a, c),
    decreases a.len(),
{
    if a.len() > 0 && b.len() > 0 && c.len() > 0 && a[0] == b[0] && b[0] == c[0] {
        lemma_bytes_lt_trans(a.skip(1), b.skip(1), c.skip(1));
    }
}

/// Equal object-map fields force equal key bytes for 16-byte keys.
proof fn lemma_omap_key_fields_injective(a: Seq<u8>, b: Seq<u8>)
    requires
        a.len() == 16,
        b.len() == 16,
        spec_omap_key_oid(a) == spec_omap_key_oid(b),
        spec_omap_key_xid(a) == spec_omap_key_xid(b),
    ensures
        a == b,
{
    lemma_auto_spec_u64_to_from_le_bytes();
    assert(vstd::bytes::spec_u64_to_le_bytes(spec_omap_key_oid(a)) == a.subrange(0, 8));
    assert(vstd::bytes::spec_u64_to_le_bytes(spec_omap_key_oid(b)) == b.subrange(0, 8));
    assert(vstd::bytes::spec_u64_to_le_bytes(spec_omap_key_xid(a)) == a.subrange(8, 16));
    assert(vstd::bytes::spec_u64_to_le_bytes(spec_omap_key_xid(b)) == b.subrange(8, 16));
    assert(a =~= a.subrange(0, 8) + a.subrange(8, 16));
    assert(b =~= b.subrange(0, 8) + b.subrange(8, 16));
}

/// Key order under any comparator is a strict total order on well-formed
/// keys: exactly one of `a < b`, `a == b`, `b < a` holds.
pub proof fn lemma_key_lt_trichotomy(c: KeyComparator, a: Seq<u8>, b: Seq<u8>)
    requires
        spec_key_wf(c, a),
        spec_key_wf(c, b),
    ensures
        spec_key_lt(c, a, b) || spec_key_lt(c, b, a) || a == b,
        spec_key_lt(c, a, b) ==> !spec_key_lt(c, b, a) && a != b,
        spec_key_lt(c, b, a) ==> !spec_key_lt(c, a, b) && a != b,
{
    match c {
        KeyComparator::Bytes => {
            lemma_bytes_lt_trichotomy(a, b);
        },
        KeyComparator::ObjectMap => {
            if !spec_omap_key_lt(a, b) && !spec_omap_key_lt(b, a) {
                lemma_omap_key_fields_injective(a, b);
            }
        },
    }
}

/// Key order under any comparator is transitive.
pub proof fn lemma_key_lt_trans(c: KeyComparator, a: Seq<u8>, b: Seq<u8>, k: Seq<u8>)
    requires
        spec_key_lt(c, a, b),
        spec_key_lt(c, b, k),
    ensures
        spec_key_lt(c, a, k),
{
    match c {
        KeyComparator::Bytes => {
            lemma_bytes_lt_trans(a, b, k);
        },
        KeyComparator::ObjectMap => {
        },
    }
}

/// Compare two well-formed keys under comparator `c`.
pub fn compare_keys(c: KeyComparator, a: &[u8], b: &[u8]) -> (r: KeyOrdering)
    requires
        spec_key_wf(c, a@),
        spec_key_wf(c, b@),
    ensures
        r is Less <==> spec_key_lt(c, a@, b@),
        r is Greater <==> spec_key_lt(c, b@, a@),
        r is Equal <==> a@ == b@,
{
    proof {
        lemma_key_lt_trichotomy(c, a@, b@);
    }
    match c {
        KeyComparator::Bytes => compare_bytes(a, b),
        KeyComparator::ObjectMap => {
            let a_oid = u64_from_le_bytes(slice_subrange(a, 0, 8));
            let b_oid = u64_from_le_bytes(slice_subrange(b, 0, 8));
            let a_xid = u64_from_le_bytes(slice_subrange(a, 8, 16));
            let b_xid = u64_from_le_bytes(slice_subrange(b, 8, 16));
            proof {
                assert(a@.subrange(0, 8) =~= a@.subrange(0, 8));
                assert(a_oid == spec_omap_key_oid(a@));
                assert(b_oid == spec_omap_key_oid(b@));
                assert(a_xid == spec_omap_key_xid(a@));
                assert(b_xid == spec_omap_key_xid(b@));
            }
            if a_oid < b_oid {
                KeyOrdering::Less
            } else if a_oid > b_oid {
                KeyOrdering::Greater
            } else if a_xid < b_xid {
                KeyOrdering::Less
            } else if a_xid > b_xid {
                KeyOrdering::Greater
            } else {
                proof {
                    lemma_omap_key_fields_injective(a@, b@);
                }
                KeyOrdering::Equal
            }
        },
    }
}

/// Compare two byte strings lexicographically.
fn compare_bytes(a: &[u8], b: &[u8]) -> (r: KeyOrdering)
    ensures
        r is Less <==> spec_bytes_lt(a@, b@),
        r is Greater <==> spec_bytes_lt(b@, a@),
        r is Equal <==> a@ == b@,
{
    proof {
        lemma_bytes_lt_trichotomy(a@, b@);
    }
    let a_len = a.len();
    let b_len = b.len();
    let mut i: usize = 0;
    proof {
        assert(a@.skip(0) =~= a@);
        assert(b@.skip(0) =~= b@);
        assert(a@.subrange(0, 0) =~= b@.subrange(0, 0));
    }
    while i < a_len && i < b_len
        invariant
            0 <= i <= a_len,
            0 <= i <= b_len,
            a_len == a@.len(),
            b_len == b@.len(),
            a@.subrange(0, i as int) == b@.subrange(0, i as int),
            spec_bytes_lt(a@, b@) == spec_bytes_lt(a@.skip(i as int), b@.skip(i as int)),
            spec_bytes_lt(b@, a@) == spec_bytes_lt(b@.skip(i as int), a@.skip(i as int)),
        decreases a_len - i,
    {
        let ab = a[i];
        let bb = b[i];
        if ab < bb {
            return KeyOrdering::Less;
        }
        if ab > bb {
            return KeyOrdering::Greater;
        }
        proof {
            assert(a@.skip(i as int).skip(1) =~= a@.skip(i + 1));
            assert(b@.skip(i as int).skip(1) =~= b@.skip(i + 1));
            assert(a@.subrange(0, i + 1) =~= a@.subrange(0, i as int).push(a@[i as int]));
            assert(b@.subrange(0, i + 1) =~= b@.subrange(0, i as int).push(b@[i as int]));
        }
        i = i + 1;
    }
    if a_len < b_len {
        KeyOrdering::Less
    } else if a_len > b_len {
        KeyOrdering::Greater
    } else {
        proof {
            assert(a@ =~= b@);
        }
        KeyOrdering::Equal
    }
}

} // verus!
