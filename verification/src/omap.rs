//! The object map: a B-tree keyed by (virtual object id, transaction id)
//! whose values carry physical block addresses, giving snapshot-consistent
//! resolution of virtual object references.
//!
//! Versions of an object are never mutated in place: each new version is a
//! new entry under a larger transaction id, and a reader pinned to an older
//! transaction id resolves to the newest version at or before it.

use vstd::prelude::*;

verus! {

use vstd::bytes::{u64_from_le_bytes, u64_to_le_bytes};
use vstd::slice::slice_subrange;
use crate::block::BlockReader;
use crate::error::ApfsError;
use crate::node::{spec_u32_at, spec_u64_at};
use crate::order::{spec_omap_key_oid, spec_omap_key_xid, spec_key_lt, KeyComparator};
use crate::tree::{find_floor, lemma_tree_entries_sorted, spec_tree_entries, spec_tree_wf};

/// A decoded object-map value: flags, object size, and the physical
/// address the versioned object lives at.
#[derive(Clone, Copy, Debug, PartialEq, Eq, Structural)]
pub struct ObjectMapValue {
    /// Per-entry flags.
    pub flags: u32,
    /// Size of the object in bytes.
    pub size: u32,
    /// Physical block address of the object.
    pub address: u64,
}

/// The object-map value denoted by the first 16 bytes of `v`.
pub open spec fn spec_omap_value(v: Seq<u8>) -> ObjectMapValue
    recommends
        v.len() >= 16,
{
    ObjectMapValue {
        flags: spec_u32_at(v, 0),
        size: spec_u32_at(v, 4),
        address: spec_u64_at(v, 8),
    }
}

/// Whether entry `t` of `es` is a version of `oid` visible at or before
/// `max_xid`.
pub open spec fn spec_omap_candidate(
    es: Seq<(Seq<u8>, Seq<u8>)>,
    oid: u64,
    max_xid: u64,
    t: int,
) -> bool {
    &&& 0 <= t < es.len()
    &&& spec_omap_key_oid(es[t].0) == oid
    &&& spec_omap_key_xid(es[t].0) <= max_xid
}

/// Whether entry `t` is the newest visible version of `oid` at `max_xid`.
pub open spec fn spec_omap_best(
    es: Seq<(Seq<u8>, Seq<u8>)>,
    oid: u64,
    max_xid: u64,
    t: int,
) -> bool {
    &&& spec_omap_candidate(es, oid, max_xid, t)
    &&& forall|u: int|
        #[trigger] spec_omap_candidate(es, oid, max_xid, u) ==> spec_omap_key_xid(es[u].0)
            <= spec_omap_key_xid(es[t].0)
}

/// Build the 16-byte object-map key for `(oid, xid)`.
pub fn make_omap_key(oid: u64, xid: u64) -> (r: Vec<u8>)
    ensures
        r@.len() == 16,
        spec_omap_key_oid(r@) == oid,
        spec_omap_key_xid(r@) == xid,
{
    let mut key = u64_to_le_bytes(oid);
    let mut xid_bytes = u64_to_le_bytes(xid);
    key.append(&mut xid_bytes);
    proof {
        vstd::bytes::lemma_auto_spec_u64_to_from_le_bytes();
        assert(key@.subrange(0, 8) =~= vstd::bytes::spec_u64_to_le_bytes(oid));
        assert(key@.subrange(8, 16) =~= vstd::bytes::spec_u64_to_le_bytes(xid));
    }
    key
}

/// Resolve `oid` against the object map rooted at `root`, pinned to
/// transaction id `max_xid`: the entry for `oid` with the greatest
/// transaction id not exceeding `max_xid`, or `None` if no version of
/// `oid` existed at or before it.
pub fn resolve<R: BlockReader>(reader: &R, root: u64, oid: u64, max_xid: u64) -> (r: Result<
    Option<ObjectMapValue>,
    ApfsError,
>)
    requires
        reader.medium().wf(),
    ensures
        spec_tree_wf(reader.medium(), KeyComparator::ObjectMap, root) && reader.reliable() ==> ({
            let es = spec_tree_entries(reader.medium(), root);
            match r {
                Ok(Some(v)) => exists|t: int|
                    {
                        &&& #[trigger] spec_omap_best(es, oid, max_xid, t)
                        &&& es[t].1.len() >= 16
                        &&& v == spec_omap_value(es[t].1)
                    },
                Ok(None) => forall|t: int| !(#[trigger] spec_omap_candidate(es, oid, max_xid, t)),
                Err(e) => e is Malformed && exists|t: int|
                    {
                        &&& #[trigger] spec_omap_best(es, oid, max_xid, t)
                        &&& es[t].1.len() < 16
                    },
            }
        }),
{
    let ghost m = reader.medium();
    let ghost wf = spec_tree_wf(m, KeyComparator::ObjectMap, root) && reader.reliable();
    let ghost es = spec_tree_entries(m, root);
    let target = make_omap_key(oid, max_xid);
    let floor = find_floor(reader, KeyComparator::ObjectMap, root, target.as_slice())?;
    match floor {
        None => {
            proof {
                if wf {
                    assert forall|t: int| !(#[trigger] spec_omap_candidate(
                        es,
                        oid,
                        max_xid,
                        t,
                    )) by {
                        if spec_omap_candidate(es, oid, max_xid, t) {
                            assert(spec_key_lt(KeyComparator::ObjectMap, target@, es[t].0));
                            assert(false);
                        }
                    }
                }
            }
            Ok(None)
        },
        Some((k, v)) => {
            if k.len() != 16 {
                proof {
                    if wf {
                        lemma_tree_entries_sorted(m, KeyComparator::ObjectMap, root);
                        let t = choose|t: int| 0 <= t < es.len() && es[t] == (k@, v@);
                        assert(false);
                    }
                }
                return Err(ApfsError::CorruptTree);
            }
            let found_oid = u64_from_le_bytes(slice_subrange(k.as_slice(), 0, 8));
            let found_xid = u64_from_le_bytes(slice_subrange(k.as_slice(), 8, 16));
            proof {
                assert(found_oid == spec_omap_key_oid(k@));
                assert(found_xid == spec_omap_key_xid(k@));
            }
            if found_oid != oid {
                proof {
                    if wf {
                        assert forall|t: int| !(#[trigger] spec_omap_candidate(
                            es,
                            oid,
                            max_xid,
                            t,
                        )) by {
                            if spec_omap_candidate(es, oid, max_xid, t) {
                                assert(!spec_key_lt(KeyComparator::ObjectMap, target@, es[t].0));
                                assert(!spec_key_lt(KeyComparator::ObjectMap, k@, es[t].0));
                                assert(!spec_key_lt(KeyComparator::ObjectMap, target@, k@));
                                assert(spec_omap_key_oid(es[t].0) == oid);
                                assert(false);
                            }
                        }
                    }
                }
                return Ok(None);
            }
            let ghost t0 = choose|t: int| 0 <= t < es.len() && es[t] == (k@, v@);
            proof {
                if wf {
                    assert(es.contains((k@, v@)));
                    assert(es[t0] == (k@, v@));
                    assert(!spec_key_lt(KeyComparator::ObjectMap, target@, k@));
                    assert(spec_omap_key_xid(k@) <= max_xid);
                    assert(spec_omap_candidate(es, oid, max_xid, t0));
                    assert forall|u: int|
                        #[trigger] spec_omap_candidate(es, oid, max_xid, u) implies
                        spec_omap_key_xid(es[u].0) <= spec_omap_key_xid(es[t0].0) by {
                        assert(!spec_key_lt(KeyComparator::ObjectMap, target@, es[u].0));
                        assert(!spec_key_lt(KeyComparator::ObjectMap, k@, es[u].0));
                    }
                    assert(spec_omap_best(es, oid, max_xid, t0));
                }
            }
            if v.len() < 16 {
                proof {
                    if wf {
                        assert(es[t0].1.len() < 16);
                    }
                }
                return Err(ApfsError::Malformed);
            }
            let flags = crate::node::read_u32_at(v.as_slice(), 0);
            let size = crate::node::read_u32_at(v.as_slice(), 4);
            let address = crate::node::read_u64_at(v.as_slice(), 8);
            let value = ObjectMapValue { flags, size, address };
            proof {
                if wf {
                    assert(value == spec_omap_value(es[t0].1));
                }
            }
            Ok(Some(value))
        },
    }
}

} // verus!
