//! The B-tree node codec: a parsed, bounds-checked view over one block.
//!
//! A node block holds, after the common object header: a flags word, the
//! node's level, the entry count, the table of contents, a key area growing
//! forward, and a value area growing backward from the tail of the block
//! (from just before the tree-info footer when the node is a root).

use vstd::prelude::*;

verus! {

use vstd::bytes::{
    spec_u16_from_le_bytes, spec_u32_from_le_bytes, spec_u64_from_le_bytes, u16_from_le_bytes,
    u32_from_le_bytes, u64_from_le_bytes,
};
use vstd::slice::{slice_subrange, slice_to_vec};
use crate::block::{spec_block_len_ok, Block, OBJECT_HEADER_SIZE};
use crate::error::ApfsError;

/// Number of bytes before the table of contents: the object header plus
/// the node's flags, level, and entry count.
pub const NODE_HEADER_SIZE: usize = 40;

/// Number of bytes of the tree-info footer at the tail of a root node.
pub const TREE_INFO_SIZE: usize = 24;

/// Flag bit: the node is the root of its tree and carries the footer.
pub const NODE_FLAG_ROOT: u16 = 0x1;

/// Flag bit: the node is a leaf; its level is 0.
pub const NODE_FLAG_LEAF: u16 = 0x2;

/// Flag bit: keys and values have a single fixed length throughout the
/// tree, and table-of-contents entries carry offsets only.
pub const NODE_FLAG_FIXED_KV_SIZE: u16 = 0x4;

/// The little-endian `u16` at byte offset `off` of `s`.
pub open spec fn spec_u16_at(s: Seq<u8>, off: int) -> u16 {
    spec_u16_from_le_bytes(s.subrange(off, off + 2))
}

/// The little-endian `u32` at byte offset `off` of `s`.
pub open spec fn spec_u32_at(s: Seq<u8>, off: int) -> u32 {
    spec_u32_from_le_bytes(s.subrange(off, off + 4))
}

/// The little-endian `u64` at byte offset `off` of `s`.
pub open spec fn spec_u64_at(s: Seq<u8>, off: int) -> u64 {
    spec_u64_from_le_bytes(s.subrange(off, off + 8))
}

/// Whole-tree statistics stored in the root node's footer.
///
/// For a fixed-size tree, `key_size` and `val_size` are the single key and
/// value lengths used throughout the tree; otherwise they record the
/// longest key and value observed anywhere in the tree, which callers use
/// to size scratch buffers, never to validate individual entries.
#[derive(Clone, Copy, Debug, PartialEq, Eq, Structural)]
pub struct TreeInfo {
    /// Fixed key length, or the longest key length in the tree.
    pub key_size: u32,
    /// Fixed value length, or the longest value length in the tree.
    pub val_size: u32,
    /// Total number of keys across the whole tree.
    pub key_count: u64,
    /// Total number of nodes in the tree.
    pub node_count: u64,
}

/// The abstract content of a parsed node.
#[verifier::ext_equal]
pub struct NodeView {
    /// Whether the node is the root of its tree.
    pub is_root: bool,
    /// Whether the node is a leaf.
    pub is_leaf: bool,
    /// Whether the tree uses fixed-size keys and values.
    pub fixed_kv_size: bool,
    /// The node's level: 0 for a leaf, increasing toward the root.
    pub level: u16,
    /// The key and value bytes of each entry, in table-of-contents order.
    pub entries: Seq<(Seq<u8>, Seq<u8>)>,
    /// The footer, present exactly when the node is a root.
    pub info: Option<TreeInfo>,
}

/// The node flags word of `s`.
pub open spec fn spec_node_flags(s: Seq<u8>) -> u16 {
    spec_u16_at(s, OBJECT_HEADER_SIZE as int)
}

/// Whether the root flag is set in `s`.
pub open spec fn spec_node_is_root(s: Seq<u8>) -> bool {
    spec_node_flags(s) & NODE_FLAG_ROOT != 0
}

/// Whether the leaf flag is set in `s`.
pub open spec fn spec_node_is_leaf(s: Seq<u8>) -> bool {
    spec_node_flags(s) & NODE_FLAG_LEAF != 0
}

/// Whether the fixed-size flag is set in `s`.
pub open spec fn spec_node_is_fixed(s: Seq<u8>) -> bool {
    spec_node_flags(s) & NODE_FLAG_FIXED_KV_SIZE != 0
}

/// The node level of `s`.
pub open spec fn spec_node_level(s: Seq<u8>) -> u16 {
    spec_u16_at(s, OBJECT_HEADER_SIZE + 2)
}

/// The entry count of `s`.
pub open spec fn spec_node_key_count(s: Seq<u8>) -> u32 {
    spec_u32_at(s, OBJECT_HEADER_SIZE + 4)
}

/// One past the last byte usable by the value area: the block's end, or
/// the start of the footer for a root node.
pub open spec fn spec_data_end(s: Seq<u8>) -> int {
    if spec_node_is_root(s) {
        s.len() - TREE_INFO_SIZE
    } else {
        s.len() as int
    }
}

/// The footer recorded at the tail of a root node's bytes.
pub open spec fn spec_tree_info(s: Seq<u8>) -> TreeInfo {
    TreeInfo {
        key_size: spec_u32_at(s, s.len() - 24),
        val_size: spec_u32_at(s, s.len() - 20),
        key_count: spec_u64_at(s, s.len() - 16),
        node_count: spec_u64_at(s, s.len() - 8),
    }
}

/// Whether fixed key and value sizes are available: a root carries them in
/// its footer, a non-root must be handed them by its caller.
pub open spec fn spec_has_fixed_sizes(s: Seq<u8>, ctx: Option<(u32, u32)>) -> bool {
    spec_node_is_root(s) || ctx is Some
}

/// The fixed key and value sizes for `s`, taken from the footer of a root
/// and from the caller's context otherwise.
pub open spec fn spec_fixed_sizes(s: Seq<u8>, ctx: Option<(u32, u32)>) -> (u32, u32) {
    if spec_node_is_root(s) {
        (spec_tree_info(s).key_size, spec_tree_info(s).val_size)
    } else {
        match ctx {
            Some(p) => p,
            None => (0, 0),
        }
    }
}

/// Bytes per table-of-contents entry.
pub open spec fn spec_entry_size(fixed: bool) -> int {
    if fixed {
        4
    } else {
        8
    }
}

/// First byte of the key area: the end of the table of contents.
pub open spec fn spec_key_area_start(s: Seq<u8>) -> int {
    NODE_HEADER_SIZE + spec_node_key_count(s) * spec_entry_size(spec_node_is_fixed(s))
}

/// The absolute byte ranges `(key_lo, key_hi, val_lo, val_hi)` denoted by
/// table-of-contents entry `i`: key offsets count forward from the key
/// area's start, value offsets count backward from the data end.
pub open spec fn spec_entry_ranges(s: Seq<u8>, ctx: Option<(u32, u32)>, i: int) -> (
    int,
    int,
    int,
    int,
) {
    let fixed = spec_node_is_fixed(s);
    let key_start = spec_key_area_start(s);
    let de = spec_data_end(s);
    let base = NODE_HEADER_SIZE + i * spec_entry_size(fixed);
    if fixed {
        let sizes = spec_fixed_sizes(s, ctx);
        let ko = spec_u16_at(s, base) as int;
        let vo = spec_u16_at(s, base + 2) as int;
        (key_start + ko, key_start + ko + sizes.0, de - vo, de - vo + sizes.1)
    } else {
        let ko = spec_u16_at(s, base) as int;
        let kl = spec_u16_at(s, base + 2) as int;
        let vo = spec_u16_at(s, base + 4) as int;
        let vl = spec_u16_at(s, base + 6) as int;
        (key_start + ko, key_start + ko + kl, de - vo, de - vo + vl)
    }
}

/// Whether entry `i`'s declared ranges stay inside the area between the
/// key area's start and the data end, and a non-leaf entry's value is
/// exactly a child address.
pub open spec fn spec_entry_ok(s: Seq<u8>, ctx: Option<(u32, u32)>, i: int) -> bool {
    let r = spec_entry_ranges(s, ctx, i);
    let key_start = spec_key_area_start(s);
    let de = spec_data_end(s);
    &&& key_start <= r.0 <= r.1 <= de
    &&& key_start <= r.2 <= r.3 <= de
    &&& (!spec_node_is_leaf(s) ==> r.3 - r.2 == 8)
}

/// Whether the node's header is internally consistent: a root is large
/// enough to carry the footer, the level agrees with the leaf flag, fixed
/// sizes are available when the fixed flag is set, and the table of
/// contents fits before the data end.
pub open spec fn spec_node_header_ok(s: Seq<u8>, ctx: Option<(u32, u32)>) -> bool {
    &&& (spec_node_is_root(s) ==> s.len() >= NODE_HEADER_SIZE + TREE_INFO_SIZE)
    &&& (spec_node_is_leaf(s) <==> spec_node_level(s) == 0)
    &&& (spec_node_is_fixed(s) ==> spec_has_fixed_sizes(s, ctx))
    &&& spec_key_area_start(s) <= spec_data_end(s)
}

/// Whether `s` parses as a node: the header is consistent and every
/// table-of-contents entry stays in bounds.
pub open spec fn spec_parse_node_ok(s: Seq<u8>, ctx: Option<(u32, u32)>) -> bool {
    &&& spec_node_header_ok(s, ctx)
    &&& forall|i: int| 0 <= i < spec_node_key_count(s) ==> spec_entry_ok(s, ctx, i)
}

/// The key and value bytes of entry `i`.
pub open spec fn spec_entry_bytes(s: Seq<u8>, ctx: Option<(u32, u32)>, i: int) -> (
    Seq<u8>,
    Seq<u8>,
) {
    let r = spec_entry_ranges(s, ctx, i);
    (s.subrange(r.0, r.1), s.subrange(r.2, r.3))
}

/// All entries of the node denoted by `s`, in table-of-contents order.
pub open spec fn spec_node_entries(s: Seq<u8>, ctx: Option<(u32, u32)>) -> Seq<(Seq<u8>, Seq<u8>)> {
    Seq::new(spec_node_key_count(s) as nat, |i: int| spec_entry_bytes(s, ctx, i))
}

/// The node denoted by `s` under fixed-size context `ctx`, or `None` if
/// the layout is inconsistent.
pub open spec fn spec_parse_node(s: Seq<u8>, ctx: Option<(u32, u32)>) -> Option<NodeView> {
    if spec_parse_node_ok(s, ctx) {
        Some(
            NodeView {
                is_root: spec_node_is_root(s),
                is_leaf: spec_node_is_leaf(s),
                fixed_kv_size: spec_node_is_fixed(s),
                level: spec_node_level(s),
                entries: spec_node_entries(s, ctx),
                info: if spec_node_is_root(s) {
                    Some(spec_tree_info(s))
                } else {
                    None
                },
            },
        )
    } else {
        None
    }
}

/// Read the little-endian `u16` at `off`.
pub fn read_u16_at(data: &[u8], off: usize) -> (r: u16)
    requires
        off + 2 <= data@.len(),
    ensures
        r == spec_u16_at(data@, off as int),
{
    let n = data.len();
    u16_from_le_bytes(slice_subrange(data, off, off + 2))
}

/// Read the little-endian `u32` at `off`.
pub fn read_u32_at(data: &[u8], off: usize) -> (r: u32)
    requires
        off + 4 <= data@.len(),
    ensures
        r == spec_u32_at(data@, off as int),
{
    let n = data.len();
    u32_from_le_bytes(slice_subrange(data, off, off + 4))
}

/// Read the little-endian `u64` at `off`.
pub fn read_u64_at(data: &[u8], off: usize) -> (r: u64)
    requires
        off + 8 <= data@.len(),
    ensures
        r == spec_u64_at(data@, off as int),
{
    let n = data.len();
    u64_from_le_bytes(slice_subrange(data, off, off + 8))
}

/// The resolved absolute byte ranges of one table-of-contents entry.
#[derive(Clone, Copy, Debug, PartialEq, Eq, Structural)]
pub struct EntryLocation {
    /// First byte of the entry's key.
    pub key_lo: usize,
    /// One past the last byte of the entry's key.
    pub key_hi: usize,
    /// First byte of the entry's value.
    pub val_lo: usize,
    /// One past the last byte of the entry's value.
    pub val_hi: usize,
}

/// A block's bytes interpreted as a B-tree node, with every
/// table-of-contents range bounds-checked at construction.
pub struct BTreeNodeBlock {
    block: Block,
    is_root: bool,
    is_leaf: bool,
    fixed_kv_size: bool,
    level: u16,
    info: Option<TreeInfo>,
    toc: Vec<EntryLocation>,
}

impl BTreeNodeBlock {
    /// The bytes of the underlying block.
    pub closed spec fn spec_bytes(&self) -> Seq<u8> {
        self.block.spec_bytes()
    }

    /// The abstract content of this node.
    pub closed spec fn node_view(&self) -> NodeView {
        NodeView {
            is_root: self.is_root,
            is_leaf: self.is_leaf,
            fixed_kv_size: self.fixed_kv_size,
            level: self.level,
            entries: Seq::new(
                self.toc@.len() as nat,
                |i: int|
                    (
                        self.block.spec_bytes().subrange(
                            self.toc@[i].key_lo as int,
                            self.toc@[i].key_hi as int,
                        ),
                        self.block.spec_bytes().subrange(
                            self.toc@[i].val_lo as int,
                            self.toc@[i].val_hi as int,
                        ),
                    ),
            ),
            info: self.info,
        }
    }

    /// Internal consistency: every stored range lies inside the block.
    pub closed spec fn wf(&self) -> bool {
        &&& spec_block_len_ok(self.spec_bytes().len())
        &&& forall|i: int|
            0 <= i < self.toc@.len() ==> {
                let e = #[trigger] self.toc@[i];
                e.key_lo <= e.key_hi <= self.spec_bytes().len() && e.val_lo <= e.val_hi
                    <= self.spec_bytes().len()
            }
    }

    /// Parse a block into a node view.
    ///
    /// For a non-root node of a fixed-size tree, `ctx` must carry the
    /// tree-wide key and value lengths taken from the root's footer.
    /// Fails with `Malformed` exactly when declared offsets or lengths in
    /// the table of contents exceed the block's bounds, or the header is
    /// internally inconsistent.
    pub fn from_block(block: Block, ctx: Option<(u32, u32)>) -> (r: Result<Self, ApfsError>)
        requires
            spec_block_len_ok(block.spec_bytes().len()),
        ensures
            match r {
                Ok(n) => {
                    &&& spec_parse_node(block.spec_bytes(), ctx) == Some(n.node_view())
                    &&& n.wf()
                    &&& n.spec_bytes() == block.spec_bytes()
                },
                Err(e) => {
                    &&& e is Malformed
                    &&& spec_parse_node(block.spec_bytes(), ctx) is None
                },
            },
    {
        let ghost s = block.spec_bytes();
        let len = block.bytes().len();
        if len < NODE_HEADER_SIZE {
            proof {
                assert(spec_key_area_start(s) >= NODE_HEADER_SIZE);
                assert(spec_data_end(s) <= s.len() < NODE_HEADER_SIZE);
            }
            return Err(ApfsError::Malformed);
        }
        let flags = read_u16_at(block.bytes().as_slice(), OBJECT_HEADER_SIZE);
        let level = read_u16_at(block.bytes().as_slice(), OBJECT_HEADER_SIZE + 2);
        let key_count = read_u32_at(block.bytes().as_slice(), OBJECT_HEADER_SIZE + 4);
        let is_root = flags & NODE_FLAG_ROOT != 0;
        let is_leaf = flags & NODE_FLAG_LEAF != 0;
        let fixed_kv_size = flags & NODE_FLAG_FIXED_KV_SIZE != 0;
        if is_root && len < NODE_HEADER_SIZE + TREE_INFO_SIZE {
            return Err(ApfsError::Malformed);
        }
        if is_leaf != (level == 0) {
            return Err(ApfsError::Malformed);
        }
        let data_end: usize = if is_root {
            len - TREE_INFO_SIZE
        } else {
            len
        };
        let info: Option<TreeInfo> = if is_root {
            Some(
                TreeInfo {
                    key_size: read_u32_at(block.bytes().as_slice(), len - 24),
                    val_size: read_u32_at(block.bytes().as_slice(), len - 20),
                    key_count: read_u64_at(block.bytes().as_slice(), len - 16),
                    node_count: read_u64_at(block.bytes().as_slice(), len - 8),
                },
            )
        } else {
            None
        };
        let sizes: (u32, u32) = if fixed_kv_size {
            if is_root {
                match info {
                    Some(ti) => (ti.key_size, ti.val_size),
                    None => (0, 0),
                }
            } else {
                match ctx {
                    Some(p) => p,
                    None => {
                        return Err(ApfsError::Malformed);
                    },
                }
            }
        } else {
            (0, 0)
        };
        let entry_size: usize = if fixed_kv_size {
            4
        } else {
            8
        };
        if (key_count as u64) * (entry_size as u64) > (data_end as u64) - (NODE_HEADER_SIZE as u64)
        {
            proof {
                assert(spec_key_area_start(s) > spec_data_end(s));
            }
            return Err(ApfsError::Malformed);
        }
        let key_start: usize = NODE_HEADER_SIZE + (key_count as usize) * entry_size;
        let area_len: usize = data_end - key_start;
        let mut toc: Vec<EntryLocation> = Vec::new();
        let mut i: usize = 0;
        while i < key_count as usize
            invariant
                0 <= i <= spec_node_key_count(s),
                s == block.spec_bytes(),
                s.len() == len,
                spec_block_len_ok(s.len()),
                is_root == spec_node_is_root(s),
                is_leaf == spec_node_is_leaf(s),
                fixed_kv_size == spec_node_is_fixed(s),
                key_count == spec_node_key_count(s),
                entry_size == spec_entry_size(fixed_kv_size),
                fixed_kv_size ==> sizes == spec_fixed_sizes(s, ctx),
                data_end == spec_data_end(s),
                key_start == spec_key_area_start(s),
                key_start <= data_end <= len,
                area_len == data_end - key_start,
                toc@.len() == i,
                forall|j: int| 0 <= j < i ==> spec_entry_ok(s, ctx, j),
                forall|j: int|
                    0 <= j < i ==> {
                        let e = #[trigger] toc@[j];
                        let rg = spec_entry_ranges(s, ctx, j);
                        e.key_lo == rg.0 && e.key_hi == rg.1 && e.val_lo == rg.2 && e.val_hi
                            == rg.3
                    },
            decreases key_count - i,
        {
            let base: usize = NODE_HEADER_SIZE + i * entry_size;
            proof {
                assert(i * entry_size + entry_size <= spec_node_key_count(s) * entry_size)
                    by (nonlinear_arith)
                    requires
                        0 <= i < spec_node_key_count(s),
                        entry_size >= 1,
                ;
                assert(0 <= i * entry_size) by (nonlinear_arith)
                    requires
                        0 <= i,
                        entry_size >= 1,
                ;
            }
            let data = block.bytes().as_slice();
            let ghost rg = spec_entry_ranges(s, ctx, i as int);
            let fields: (u64, u64, u64, u64) = if fixed_kv_size {
                let ko = read_u16_at(data, base);
                let vo = read_u16_at(data, base + 2);
                (ko as u64, sizes.0 as u64, vo as u64, sizes.1 as u64)
            } else {
                let ko = read_u16_at(data, base);
                let kl = read_u16_at(data, base + 2);
                let vo = read_u16_at(data, base + 4);
                let vl = read_u16_at(data, base + 6);
                (ko as u64, kl as u64, vo as u64, vl as u64)
            };
            let (ko, kl, vo, vl) = fields;
            proof {
                assert(rg.0 == key_start + ko && rg.1 == key_start + ko + kl && rg.2
                    == spec_data_end(s) - vo && rg.3 == spec_data_end(s) - vo + vl);
            }
            if key_start as u64 + ko + kl > data_end as u64 {
                proof {
                    assert(!spec_entry_ok(s, ctx, i as int));
                }
                return Err(ApfsError::Malformed);
            }
            if key_start as u64 + vo > data_end as u64 {
                proof {
                    assert(!spec_entry_ok(s, ctx, i as int));
                }
                return Err(ApfsError::Malformed);
            }
            if vl > vo {
                proof {
                    assert(!spec_entry_ok(s, ctx, i as int));
                }
                return Err(ApfsError::Malformed);
            }
            if !is_leaf && vl != 8 {
                proof {
                    assert(!spec_entry_ok(s, ctx, i as int));
                }
                return Err(ApfsError::Malformed);
            }
            let loc = EntryLocation {
                key_lo: (key_start as u64 + ko) as usize,
                key_hi: (key_start as u64 + ko + kl) as usize,
                val_lo: (data_end as u64 - vo) as usize,
                val_hi: (data_end as u64 - vo + vl) as usize,
            };
            proof {
                assert(spec_entry_ok(s, ctx, i as int));
                assert(loc.key_lo == rg.0 && loc.key_hi == rg.1 && loc.val_lo == rg.2 && loc.val_hi
                    == rg.3);
            }
            toc.push(loc);
            i = i + 1;
        }
        let node = BTreeNodeBlock { block, is_root, is_leaf, fixed_kv_size, level, info, toc };
        proof {
            assert(spec_parse_node_ok(s, ctx));
            let v = spec_parse_node(s, ctx).unwrap();
            assert forall|j: int| 0 <= j < node.node_view().entries.len() implies #[trigger] node
                .node_view().entries[j] == v.entries[j] by {
                assert(spec_entry_ok(s, ctx, j));
            }
            assert(node.node_view().entries =~= v.entries);
            assert(node.node_view() =~= v);
            assert forall|j: int| 0 <= j < node.toc@.len() implies {
                let e = #[trigger] node.toc@[j];
                e.key_lo <= e.key_hi <= node.spec_bytes().len() && e.val_lo <= e.val_hi
                    <= node.spec_bytes().len()
            } by {
                assert(spec_entry_ok(s, ctx, j));
            }
            assert(node.wf());
        }
        Ok(node)
    }

    /// Whether this node is a leaf.
    pub fn is_leaf(&self) -> (r: bool)
        ensures
            r == self.node_view().is_leaf,
    {
        self.is_leaf
    }

    /// Whether this node is the root of its tree.
    pub fn is_root(&self) -> (r: bool)
        ensures
            r == self.node_view().is_root,
    {
        self.is_root
    }

    /// Whether the tree uses fixed-size keys and values.
    pub fn fixed_kv_size(&self) -> (r: bool)
        ensures
            r == self.node_view().fixed_kv_size,
    {
        self.fixed_kv_size
    }

    /// The node's level: 0 for a leaf.
    pub fn level(&self) -> (r: u16)
        ensures
            r == self.node_view().level,
    {
        self.level
    }

    /// The number of entries in this node.
    pub fn key_count(&self) -> (r: usize)
        ensures
            r == self.node_view().entries.len(),
    {
        self.toc.len()
    }

    /// The tree-info footer, present exactly for a root node.
    pub fn tree_info(&self) -> (r: Option<TreeInfo>)
        ensures
            r == self.node_view().info,
    {
        self.info
    }

    /// The key and value bytes of entry `i`, copied out of the block.
    pub fn entry(&self, i: usize) -> (r: (Vec<u8>, Vec<u8>))
        requires
            self.wf(),
            i < self.node_view().entries.len(),
        ensures
            r.0@ == self.node_view().entries[i as int].0,
            r.1@ == self.node_view().entries[i as int].1,
    {
        let loc = self.toc[i];
        let data = self.block.bytes().as_slice();
        let key = slice_to_vec(slice_subrange(data, loc.key_lo, loc.key_hi));
        let value = slice_to_vec(slice_subrange(data, loc.val_lo, loc.val_hi));
        (key, value)
    }

    /// The underlying block.
    pub fn block(&self) -> (r: &Block)
        ensures
            r.spec_bytes() == self.spec_bytes(),
    {
        &self.block
    }
}

} // verus!
