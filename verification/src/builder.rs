//! Serialization of synthetic fixed-size leaf nodes.
//!
//! The builder lays out a single-node tree — a root leaf with fixed-size
//! keys and values — exactly as the node codec reads it: header, table of
//! contents, key area growing forward, value area growing backward from
//! the footer, and the checksum over everything past its own field. Every
//! successful build round-trips: parsing the bytes yields the same
//! entries, in the same order.

use vstd::prelude::*;

verus! {

use vstd::bytes::{
    lemma_auto_spec_u16_to_from_le_bytes, lemma_auto_spec_u32_to_from_le_bytes,
    lemma_auto_spec_u64_to_from_le_bytes, spec_u16_to_le_bytes, spec_u32_to_le_bytes,
    spec_u64_to_le_bytes, u16_to_le_bytes, u32_to_le_bytes, u64_to_le_bytes,
};
use vstd::slice::slice_subrange;
use crate::block::{
    spec_block_len_ok, spec_checksum_ok, spec_object_header, BLOCK_SIZE_MAX, BLOCK_SIZE_MIN,
};
use crate::checksum::fletcher64;
use crate::error::ApfsError;
use crate::node::{
    spec_entry_ok, spec_entry_ranges, spec_parse_node, spec_parse_node_ok, spec_u16_at,
    spec_u64_at, TreeInfo, NODE_FLAG_FIXED_KV_SIZE, NODE_FLAG_LEAF, NODE_FLAG_ROOT,
    NODE_HEADER_SIZE, TREE_INFO_SIZE,
};
use crate::visitors::spec_entry_views;

/// Overwrite `buf[off..off + bytes.len())` with `bytes`, leaving every
/// other byte as it was.
fn write_at(buf: &mut Vec<u8>, off: usize, bytes: &[u8])
    requires
        off + bytes@.len() <= old(buf)@.len(),
    ensures
        final(buf)@.len() == old(buf)@.len(),
        final(buf)@.subrange(off as int, off + bytes@.len()) == bytes@,
        forall|t: int|
            0 <= t < old(buf)@.len() && !(off <= t < off + bytes@.len()) ==> final(buf)@[t] == old(
                buf,
            )@[t],
{
    let mut i: usize = 0;
    let n = bytes.len();
    let total = buf.len();
    while i < n
        invariant
            0 <= i <= n,
            n == bytes@.len(),
            off + n <= total,
            total == buf@.len(),
            buf@.len() == old(buf)@.len(),
            forall|t: int| 0 <= t < i ==> buf@[off + t] == bytes@[t],
            forall|t: int|
                0 <= t < buf@.len() && !(off <= t < off + n) ==> buf@[t] == old(buf)@[t],
        decreases n - i,
    {
        buf.set(off + i, bytes[i]);
        i = i + 1;
    }
    proof {
        assert(buf@.subrange(off as int, off + n) =~= bytes@);
    }
}

/// Ranges that do not overlap the written range read the same before and
/// after a write.
proof fn lemma_frame_subrange(a: Seq<u8>, b: Seq<u8>, lo: int, hi: int, wlo: int, whi: int)
    requires
        a.len() == b.len(),
        0 <= lo <= hi <= a.len(),
        hi <= wlo || whi <= lo,
        forall|t: int| 0 <= t < a.len() && !(wlo <= t < whi) ==> b[t] == a[t],
    ensures
        b.subrange(lo, hi) == a.subrange(lo, hi),
{
    assert(b.subrange(lo, hi) =~= a.subrange(lo, hi));
}

/// Whether the builder's inputs describe a representable single-node
/// tree: an acceptable block size, entry sizes that match the fixed key
/// and value lengths, offsets that fit the table of contents, and
/// contents that fit the block.
pub open spec fn spec_build_ok(
    block_size: nat,
    key_size: u32,
    val_size: u32,
    entries: Seq<(Seq<u8>, Seq<u8>)>,
) -> bool {
    &&& spec_block_len_ok(block_size)
    &&& entries.len() <= 0xffff
    &&& entries.len() * key_size <= 0xffff
    &&& entries.len() * val_size <= 0xffff
    &&& NODE_HEADER_SIZE + 4 * entries.len() + entries.len() * key_size + entries.len() * val_size
        + TREE_INFO_SIZE <= block_size
    &&& forall|j: int|
        0 <= j < entries.len() ==> (#[trigger] entries[j]).0.len() == key_size
            && entries[j].1.len() == val_size
}

/// Whether entry `j`'s table-of-contents fields, key bytes, and value
/// bytes stand written in `s` at the fixed-size layout's positions.
spec fn spec_entry_written(
    s: Seq<u8>,
    key_start: int,
    de: int,
    ks: int,
    vs: int,
    ent: (Seq<u8>, Seq<u8>),
    j: int,
) -> bool {
    &&& s.subrange(40 + 4 * j, 40 + 4 * j + 2) == spec_u16_to_le_bytes((j * ks) as u16)
    &&& s.subrange(40 + 4 * j + 2, 40 + 4 * j + 4) == spec_u16_to_le_bytes(((j + 1) * vs) as u16)
    &&& s.subrange(key_start + j * ks, key_start + j * ks + ks) == ent.0
    &&& s.subrange(de - (j + 1) * vs, de - (j + 1) * vs + vs) == ent.1
}

/// Serialize a synthetic single-node tree: a root leaf with `entries`
/// as its fixed-size keys and values.
///
/// The build succeeds exactly on representable inputs, and then the
/// returned block-sized buffer carries a valid checksum and parses back
/// to a root leaf holding exactly the given entries in the given order,
/// with the footer recording the fixed sizes and the entry count.
#[verifier::rlimit(100)]
#[verifier::spinoff_prover]
pub fn build_fixed_leaf(
    block_size: usize,
    key_size: u32,
    val_size: u32,
    entries: &Vec<(Vec<u8>, Vec<u8>)>,
) -> (r: Result<Vec<u8>, ApfsError>)
    ensures
        r is Ok <==> spec_build_ok(
            block_size as nat,
            key_size,
            val_size,
            spec_entry_views(entries@),
        ),
        r matches Ok(bytes) ==> {
            &&& bytes@.len() == block_size
            &&& spec_checksum_ok(bytes@)
            &&& spec_parse_node(bytes@, None) matches Some(n) && {
                &&& n.is_root
                &&& n.is_leaf
                &&& n.fixed_kv_size
                &&& n.level == 0
                &&& n.entries == spec_entry_views(entries@)
                &&& n.info == Some(
                    TreeInfo {
                        key_size,
                        val_size,
                        key_count: entries@.len() as u64,
                        node_count: 1,
                    },
                )
            }
        },
        r matches Err(e) ==> e is Malformed,
{
    let n = entries.len();
    if !(block_size >= BLOCK_SIZE_MIN && block_size <= BLOCK_SIZE_MAX && block_size % 4 == 0) {
        return Err(ApfsError::Malformed);
    }
    if n > 0xffff {
        return Err(ApfsError::Malformed);
    }
    let ks = key_size as u64;
    let vs = val_size as u64;
    let n64 = n as u64;
    proof {
        assert(n64 * ks <= 0xffff * 0xffffffff && n64 * vs <= 0xffff * 0xffffffff)
            by (nonlinear_arith)
            requires
                0 <= n64 <= 0xffff,
                0 <= ks <= 0xffffffff,
                0 <= vs <= 0xffffffff,
        ;
    }
    if n64 * ks > 0xffff || n64 * vs > 0xffff {
        return Err(ApfsError::Malformed);
    }
    let needed: u64 = NODE_HEADER_SIZE as u64 + 4 * n64 + n64 * ks + n64 * vs
        + TREE_INFO_SIZE as u64;
    if needed > block_size as u64 {
        return Err(ApfsError::Malformed);
    }
    let mut i: usize = 0;
    while i < n
        invariant
            0 <= i <= n,
            n == entries@.len(),
            ks == key_size as u64,
            vs == val_size as u64,
            forall|j: int|
                0 <= j < i ==> (#[trigger] entries@[j]).0@.len() == ks && entries@[j].1@.len()
                    == vs,
        decreases n - i,
    {
        if entries[i].0.len() as u64 != ks || entries[i].1.len() as u64 != vs {
            proof {
                assert(spec_entry_views(entries@)[i as int] == (
                    entries@[i as int].0@,
                    entries@[i as int].1@,
                ));
            }
            return Err(ApfsError::Malformed);
        }
        i = i + 1;
    }
    proof {
        assert(spec_build_ok(block_size as nat, key_size, val_size, spec_entry_views(entries@)));
    }
    let mut buf: Vec<u8> = Vec::new();
    let mut z: usize = 0;
    while z < block_size
        invariant
            0 <= z <= block_size,
            buf@.len() == z,
        decreases block_size - z,
    {
        buf.push(0u8);
        z = z + 1;
    }
    let flags: u16 = NODE_FLAG_ROOT | NODE_FLAG_LEAF | NODE_FLAG_FIXED_KV_SIZE;
    // Header: flags, level 0, entry count.
    let mut header: Vec<u8> = u16_to_le_bytes(flags);
    let mut level_bytes = u16_to_le_bytes(0u16);
    let mut count_bytes = u32_to_le_bytes(n as u32);
    header.append(&mut level_bytes);
    header.append(&mut count_bytes);
    write_at(&mut buf, 32, header.as_slice());
    proof {
        assert(buf@.subrange(32, 40) == header@);
        assert(buf@.subrange(32, 34) =~= header@.subrange(0, 2));
        assert(header@.subrange(0, 2) =~= spec_u16_to_le_bytes(flags));
        assert(buf@.subrange(34, 36) =~= header@.subrange(2, 4));
        assert(header@.subrange(2, 4) =~= spec_u16_to_le_bytes(0u16));
        assert(buf@.subrange(36, 40) =~= header@.subrange(4, 8));
        assert(header@.subrange(4, 8) =~= spec_u32_to_le_bytes(n as u32));
    }
    let data_end = block_size - TREE_INFO_SIZE;
    let key_start = NODE_HEADER_SIZE + 4 * n;
    let ghost de = data_end as int;
    let mut i: usize = 0;
    while i < n
        invariant
            0 <= i <= n,
            n == entries@.len(),
            buf@.len() == block_size,
            n <= 0xffff,
            n as u64 * ks <= 0xffff,
            n as u64 * vs <= 0xffff,
            ks == key_size as u64,
            vs == val_size as u64,
            NODE_HEADER_SIZE as u64 + 4 * (n as u64) + (n as u64) * ks + (n as u64) * vs
                + TREE_INFO_SIZE as u64 <= block_size as u64,
            BLOCK_SIZE_MIN <= block_size <= BLOCK_SIZE_MAX,
            data_end == block_size - TREE_INFO_SIZE,
            de == data_end as int,
            key_start == NODE_HEADER_SIZE + 4 * n,
            forall|j: int|
                0 <= j < n ==> (#[trigger] entries@[j]).0@.len() == ks && entries@[j].1@.len()
                    == vs,
            buf@.subrange(32, 34) == spec_u16_to_le_bytes(flags),
            buf@.subrange(34, 36) == spec_u16_to_le_bytes(0u16),
            buf@.subrange(36, 40) == spec_u32_to_le_bytes(n as u32),
            forall|j: int|
                0 <= j < i ==> #[trigger] spec_entry_written(
                    buf@,
                    key_start as int,
                    de,
                    ks as int,
                    vs as int,
                    (entries@[j].0@, entries@[j].1@),
                    j,
                ),
        decreases n - i,
    {
        proof {
            let iu = i as int;
            let nu = n as int;
            assert(iu * ks <= nu * ks && (iu + 1) * ks <= nu * ks && iu * vs <= nu * vs && (iu
                + 1) * vs <= nu * vs && (iu + 1) * ks == iu * ks + ks && (iu + 1) * vs == iu * vs
                + vs) by (nonlinear_arith)
                requires
                    0 <= iu < nu,
                    ks >= 0,
                    vs >= 0,
            ;
        }
        let key_off: u64 = i as u64 * ks;
        let val_off: u64 = (i as u64 + 1) * vs;
        let base = NODE_HEADER_SIZE + 4 * i;
        let ghost pre_toc = buf@;
        let mut toc_entry: Vec<u8> = u16_to_le_bytes(key_off as u16);
        let mut vo_bytes = u16_to_le_bytes(val_off as u16);
        toc_entry.append(&mut vo_bytes);
        write_at(&mut buf, base, toc_entry.as_slice());
        proof {
            assert(buf@.subrange(40 + 4 * i, 40 + 4 * i + 4) == toc_entry@);
            assert(buf@.subrange(40 + 4 * i, 40 + 4 * i + 2) =~= toc_entry@.subrange(0, 2));
            assert(toc_entry@.subrange(0, 2) =~= spec_u16_to_le_bytes(key_off as u16));
            assert(buf@.subrange(40 + 4 * i + 2, 40 + 4 * i + 4) =~= toc_entry@.subrange(2, 4));
            assert(toc_entry@.subrange(2, 4) =~= spec_u16_to_le_bytes(val_off as u16));
        }
        let ghost after_toc = buf@;
        write_at(&mut buf, key_start + key_off as usize, entries[i].0.as_slice());
        let ghost after_key = buf@;
        write_at(&mut buf, data_end - val_off as usize, entries[i].1.as_slice());
        proof {
            let iu = i as int;
            assert(0 <= iu * ks && 0 <= iu * vs && 0 <= (iu + 1) * vs && iu * ks + ks == (iu + 1)
                * ks) by (nonlinear_arith)
                requires
                    0 <= iu,
                    ks >= 0,
                    vs >= 0,
            ;
            assert(key_off as u16 == (iu * ks) as u16);
            assert(val_off as u16 == ((iu + 1) * vs) as u16);
            // This entry's own four ranges, carried through the key and
            // value writes that followed the table-of-contents write.
            lemma_frame_subrange(
                after_toc,
                after_key,
                40 + 4 * iu,
                40 + 4 * iu + 2,
                key_start + iu * ks,
                key_start + iu * ks + ks,
            );
            lemma_frame_subrange(
                after_key,
                buf@,
                40 + 4 * iu,
                40 + 4 * iu + 2,
                de - (iu + 1) * vs,
                de - (iu + 1) * vs + vs,
            );
            lemma_frame_subrange(
                after_toc,
                after_key,
                40 + 4 * iu + 2,
                40 + 4 * iu + 4,
                key_start + iu * ks,
                key_start + iu * ks + ks,
            );
            lemma_frame_subrange(
                after_key,
                buf@,
                40 + 4 * iu + 2,
                40 + 4 * iu + 4,
                de - (iu + 1) * vs,
                de - (iu + 1) * vs + vs,
            );
            lemma_frame_subrange(
                after_key,
                buf@,
                key_start + iu * ks,
                key_start + iu * ks + ks,
                de - (iu + 1) * vs,
                de - (iu + 1) * vs + vs,
            );
            assert(buf@.subrange(key_start + iu * ks, key_start + iu * ks + ks) == entries@[
            iu].0@);
            assert(buf@.subrange(de - (iu + 1) * vs, de - (iu + 1) * vs + vs) == entries@[iu].1@);
            // Header fields, likewise untouched by this entry's writes.
            lemma_frame_subrange(
                after_toc,
                after_key,
                32,
                34,
                key_start + iu * ks,
                key_start + iu * ks + ks,
            );
            lemma_frame_subrange(after_key, buf@, 32, 34, de - (iu + 1) * vs, de - (iu + 1) * vs
                + vs);
            lemma_frame_subrange(
                after_toc,
                after_key,
                34,
                36,
                key_start + iu * ks,
                key_start + iu * ks + ks,
            );
            lemma_frame_subrange(after_key, buf@, 34, 36, de - (iu + 1) * vs, de - (iu + 1) * vs
                + vs);
            lemma_frame_subrange(
                after_toc,
                after_key,
                36,
                40,
                key_start + iu * ks,
                key_start + iu * ks + ks,
            );
            lemma_frame_subrange(after_key, buf@, 36, 40, de - (iu + 1) * vs, de - (iu + 1) * vs
                + vs);
            assert(spec_entry_written(
                buf@,
                key_start as int,
                de,
                ks as int,
                vs as int,
                (entries@[i as int].0@, entries@[i as int].1@),
                i as int,
            ));
            assert forall|j: int| 0 <= j < i + 1 implies #[trigger] spec_entry_written(
                buf@,
                key_start as int,
                de,
                ks as int,
                vs as int,
                (entries@[j].0@, entries@[j].1@),
                j,
            ) by {
                if j < i {
                    assert(spec_entry_written(
                        pre_toc,
                        key_start as int,
                        de,
                        ks as int,
                        vs as int,
                        (entries@[j].0@, entries@[j].1@),
                        j,
                    ));
                    assert((j + 1) * ks <= iu * ks && 0 <= j * ks && (j + 1) * vs <= iu * vs && 0
                        <= j * vs && j * ks + ks == (j + 1) * ks && j * vs + vs == (j + 1) * vs
                        && iu * vs + vs == (iu + 1) * vs && iu * vs <= (iu + 1) * vs)
                        by (nonlinear_arith)
                        requires
                            0 <= j < iu,
                            ks >= 0,
                            vs >= 0,
                    ;
                    lemma_frame_subrange(
                        pre_toc,
                        after_toc,
                        40 + 4 * j,
                        40 + 4 * j + 2,
                        40 + 4 * iu,
                        40 + 4 * iu + 4,
                    );
                    lemma_frame_subrange(
                        after_toc,
                        after_key,
                        40 + 4 * j,
                        40 + 4 * j + 2,
                        key_start + iu * ks,
                        key_start + iu * ks + ks,
                    );
                    lemma_frame_subrange(
                        after_key,
                        buf@,
                        40 + 4 * j,
                        40 + 4 * j + 2,
                        de - (iu + 1) * vs,
                        de - (iu + 1) * vs + vs,
                    );
                    lemma_frame_subrange(
                        pre_toc,
                        after_toc,
                        40 + 4 * j + 2,
                        40 + 4 * j + 4,
                        40 + 4 * iu,
                        40 + 4 * iu + 4,
                    );
                    lemma_frame_subrange(
                        after_toc,
                        after_key,
                        40 + 4 * j + 2,
                        40 + 4 * j + 4,
                        key_start + iu * ks,
                        key_start + iu * ks + ks,
                    );
                    lemma_frame_subrange(
                        after_key,
                        buf@,
                        40 + 4 * j + 2,
                        40 + 4 * j + 4,
                        de - (iu + 1) * vs,
                        de - (iu + 1) * vs + vs,
                    );
                    lemma_frame_subrange(
                        pre_toc,
                        after_toc,
                        key_start + j * ks,
                        key_start + j * ks + ks,
                        40 + 4 * iu,
                        40 + 4 * iu + 4,
                    );
                    lemma_frame_subrange(
                        after_toc,
                        after_key,
                        key_start + j * ks,
                        key_start + j * ks + ks,
                        key_start + iu * ks,
                        key_start + iu * ks + ks,
                    );
                    lemma_frame_subrange(
                        after_key,
                        buf@,
                        key_start + j * ks,
                        key_start + j * ks + ks,
                        de - (iu + 1) * vs,
                        de - (iu + 1) * vs + vs,
                    );
                    lemma_frame_subrange(
                        pre_toc,
                        after_toc,
                        de - (j + 1) * vs,
                        de - (j + 1) * vs + vs,
                        40 + 4 * iu,
                        40 + 4 * iu + 4,
                    );
                    lemma_frame_subrange(
                        after_toc,
                        after_key,
                        de - (j + 1) * vs,
                        de - (j + 1) * vs + vs,
                        key_start + iu * ks,
                        key_start + iu * ks + ks,
                    );
                    lemma_frame_subrange(
                        after_key,
                        buf@,
                        de - (j + 1) * vs,
                        de - (j + 1) * vs + vs,
                        de - (iu + 1) * vs,
                        de - (iu + 1) * vs + vs,
                    );
                    assert(spec_entry_written(
                        buf@,
                        key_start as int,
                        de,
                        ks as int,
                        vs as int,
                        (entries@[j].0@, entries@[j].1@),
                        j,
                    ));
                }
            }
        }
        i = i + 1;
    }
    // Footer: fixed sizes, total key count, node count.
    let info_start = block_size - TREE_INFO_SIZE;
    let mut footer: Vec<u8> = u32_to_le_bytes(key_size);
    let mut vs_bytes = u32_to_le_bytes(val_size);
    let mut kc_bytes = u64_to_le_bytes(n as u64);
    let mut nc_bytes = u64_to_le_bytes(1u64);
    footer.append(&mut vs_bytes);
    footer.append(&mut kc_bytes);
    footer.append(&mut nc_bytes);
    let ghost pre_footer = buf@;
    write_at(&mut buf, info_start, footer.as_slice());
    let ghost after_footer = buf@;
    proof {
        let bs = block_size as int;
        assert(buf@.subrange(bs - 24, bs) == footer@);
        assert(buf@.subrange(bs - 24, bs - 20) =~= footer@.subrange(0, 4));
        assert(footer@.subrange(0, 4) =~= spec_u32_to_le_bytes(key_size));
        assert(buf@.subrange(bs - 20, bs - 16) =~= footer@.subrange(4, 8));
        assert(footer@.subrange(4, 8) =~= spec_u32_to_le_bytes(val_size));
        assert(buf@.subrange(bs - 16, bs - 8) =~= footer@.subrange(8, 16));
        assert(footer@.subrange(8, 16) =~= spec_u64_to_le_bytes(n as u64));
        assert(buf@.subrange(bs - 8, bs) =~= footer@.subrange(16, 24));
        assert(footer@.subrange(16, 24) =~= spec_u64_to_le_bytes(1u64));
        lemma_frame_subrange(pre_footer, after_footer, 32, 34, bs - 24, bs);
        lemma_frame_subrange(pre_footer, after_footer, 34, 36, bs - 24, bs);
        lemma_frame_subrange(pre_footer, after_footer, 36, 40, bs - 24, bs);
        assert forall|j: int| 0 <= j < n implies #[trigger] spec_entry_written(
            after_footer,
            key_start as int,
            de,
            ks as int,
            vs as int,
            (entries@[j].0@, entries@[j].1@),
            j,
        ) by {
            assert(spec_entry_written(
                pre_footer,
                key_start as int,
                de,
                ks as int,
                vs as int,
                (entries@[j].0@, entries@[j].1@),
                j,
            ));
            assert(0 <= j * ks && (j + 1) * ks <= n as int * ks && 0 <= j * vs && (j + 1) * vs
                <= n as int * vs && j * ks + ks == (j + 1) * ks && j * vs + vs == (j + 1) * vs)
                by (nonlinear_arith)
                requires
                    0 <= j < n as int,
                    ks >= 0,
                    vs >= 0,
            ;
            lemma_frame_subrange(pre_footer, after_footer, 40 + 4 * j, 40 + 4 * j + 2, bs - 24,
                bs);
            lemma_frame_subrange(pre_footer, after_footer, 40 + 4 * j + 2, 40 + 4 * j + 4, bs
                - 24, bs);
            lemma_frame_subrange(
                pre_footer,
                after_footer,
                key_start + j * ks,
                key_start + j * ks + ks,
                bs - 24,
                bs,
            );
            lemma_frame_subrange(
                pre_footer,
                after_footer,
                de - (j + 1) * vs,
                de - (j + 1) * vs + vs,
                bs - 24,
                bs,
            );
        }
    }
    // The checksum goes in last, over everything past its own field.
    let sum = fletcher64(slice_subrange(buf.as_slice(), 8, block_size));
    let sum_bytes = u64_to_le_bytes(sum);
    write_at(&mut buf, 0, sum_bytes.as_slice());
    proof {
        let bs = block_size as int;
        let s = buf@;
        assert forall|lo: int, hi: int| 8 <= lo <= hi <= bs implies #[trigger] s.subrange(lo, hi)
            == after_footer.subrange(lo, hi) by {
            lemma_frame_subrange(after_footer, s, lo, hi, 0, 8);
        }
        assert(after_footer.subrange(8, bs) =~= after_footer.skip(8));
        assert(s.subrange(8, bs) =~= s.skip(8));
        assert(sum == crate::checksum::spec_fletcher64(s.skip(8)));
        assert(s.subrange(0, 8) =~= spec_u64_to_le_bytes(sum));
        // Every field of the final buffer reads back as written.
        lemma_auto_spec_u16_to_from_le_bytes();
        lemma_auto_spec_u32_to_from_le_bytes();
        lemma_auto_spec_u64_to_from_le_bytes();
        assert(spec_u64_at(s, 0) == sum);
        assert(spec_object_header(s).checksum == sum);
        assert(spec_checksum_ok(s));
        assert(spec_u16_at(s, 32) == flags);
        assert(crate::node::spec_node_flags(s) == flags);
        assert(flags == 7u16) by (bit_vector)
            requires
                flags == 0x1u16 | 0x2u16 | 0x4u16,
        ;
        assert(flags & NODE_FLAG_ROOT != 0 && flags & NODE_FLAG_LEAF != 0 && flags
            & NODE_FLAG_FIXED_KV_SIZE != 0) by (bit_vector)
            requires
                flags == 7u16,
        ;
        assert(crate::node::spec_node_level(s) == 0);
        assert(crate::node::spec_node_key_count(s) == n as u32);
        assert(crate::node::spec_tree_info(s) == TreeInfo {
            key_size,
            val_size,
            key_count: n as u64,
            node_count: 1,
        });
        assert(crate::node::spec_data_end(s) == de);
        assert(crate::node::spec_key_area_start(s) == key_start);
        assert(crate::node::spec_fixed_sizes(s, None) == (key_size, val_size));
        assert forall|j: int| 0 <= j < n implies #[trigger] spec_entry_ok(s, None, j) && {
            let rg = spec_entry_ranges(s, None, j);
            &&& s.subrange(rg.0, rg.1) == entries@[j].0@
            &&& s.subrange(rg.2, rg.3) == entries@[j].1@
        } by {
            assert(spec_entry_written(
                after_footer,
                key_start as int,
                de,
                ks as int,
                vs as int,
                (entries@[j].0@, entries@[j].1@),
                j,
            ));
            assert(0 <= j * ks && (j + 1) * ks <= n as int * ks && 0 <= j * vs && (j + 1) * vs
                <= n as int * vs && j * ks + ks == (j + 1) * ks && j * vs + vs == (j + 1) * vs)
                by (nonlinear_arith)
                requires
                    0 <= j < n as int,
                    ks >= 0,
                    vs >= 0,
            ;
            assert(s.subrange(40 + 4 * j, 40 + 4 * j + 2) == after_footer.subrange(
                40 + 4 * j,
                40 + 4 * j + 2,
            ));
            assert(s.subrange(40 + 4 * j + 2, 40 + 4 * j + 4) == after_footer.subrange(
                40 + 4 * j + 2,
                40 + 4 * j + 4,
            ));
            assert(s.subrange(key_start + j * ks, key_start + j * ks + ks)
                == after_footer.subrange(key_start + j * ks, key_start + j * ks + ks));
            assert(s.subrange(de - (j + 1) * vs, de - (j + 1) * vs + vs) == after_footer.subrange(
                de - (j + 1) * vs,
                de - (j + 1) * vs + vs,
            ));
            assert(spec_u16_at(s, 40 + 4 * j) == (j * ks) as u16);
            assert(spec_u16_at(s, 40 + 4 * j + 2) == ((j + 1) * vs) as u16);
            let rg = spec_entry_ranges(s, None, j);
            assert(rg.0 == key_start + j * ks && rg.1 == key_start + j * ks + ks && rg.2 == de - (
            j + 1) * vs && rg.3 == de - (j + 1) * vs + vs);
        }
        assert(spec_parse_node_ok(s, None));
        let v = spec_parse_node(s, None).unwrap();
        assert forall|j: int| 0 <= j < n implies #[trigger] v.entries[j] == spec_entry_views(
            entries@,
        )[j] by {
            assert(spec_entry_ok(s, None, j));
        }
        assert(v.entries =~= spec_entry_views(entries@));
    }
    Ok(buf)
}

} // verus!
