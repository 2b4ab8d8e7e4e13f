//! The B-tree traversal engine: point lookup and full scan over checksum-
//! verified nodes, generic over the block reader and the key comparator.
//!
//! A well-formed subtree (as `spec_subtree_wf` states) has, at every node,
//! strictly sorted keys; each non-leaf entry's value is the physical block
//! address of a child whose smallest key equals the entry's key, and the
//! children's key ranges are disjoint and increasing. The engine descends
//! only through blocks whose checksum matched, and treats any runtime
//! departure from the expected shape as corruption rather than looping.

use vstd::prelude::*;

verus! {

use vstd::bytes::{spec_u64_from_le_bytes, u64_from_le_bytes};
use crate::block::{
    get_block_validated, spec_checksum_ok, BlockReader, MediumView,
};
use crate::error::ApfsError;
use crate::node::{
    spec_node_is_root, spec_node_level, spec_parse_node, spec_tree_info, BTreeNodeBlock, NodeView,
};
use crate::order::{
    compare_keys, lemma_key_lt_trans, lemma_key_lt_trichotomy, spec_key_lt, spec_key_wf,
    KeyComparator, KeyOrdering,
};

/// Whether the entry keys of `es` are strictly increasing under `c`.
pub open spec fn spec_entries_sorted(c: KeyComparator, es: Seq<(Seq<u8>, Seq<u8>)>) -> bool {
    forall|i: int, j: int|
        #![trigger es[i], es[j]]
        0 <= i < j < es.len() ==> spec_key_lt(c, es[i].0, es[j].0)
}

/// Whether every entry key of `es` is well formed for comparator `c`.
pub open spec fn spec_entries_keys_wf(c: KeyComparator, es: Seq<(Seq<u8>, Seq<u8>)>) -> bool {
    forall|i: int| 0 <= i < es.len() ==> spec_key_wf(c, (#[trigger] es[i]).0)
}

/// The child block address stored in entry `i` of a non-leaf node.
pub open spec fn spec_child_addr(n: NodeView, i: int) -> u64 {
    spec_u64_from_le_bytes(n.entries[i].1)
}

/// Whether block `addr` of `m` is present, checksums correctly, and parses
/// as a node under context `ctx`.
pub open spec fn spec_node_parses(m: MediumView, ctx: Option<(u32, u32)>, addr: u64) -> bool {
    &&& addr < m.blocks.len()
    &&& spec_checksum_ok(m.blocks[addr as int])
    &&& spec_parse_node(m.blocks[addr as int], ctx) is Some
}

/// The node parsed from block `addr` of `m`.
pub open spec fn spec_node_at(m: MediumView, ctx: Option<(u32, u32)>, addr: u64) -> NodeView {
    spec_parse_node(m.blocks[addr as int], ctx).unwrap()
}

/// The leaf entries of the first `upto` children of the non-leaf node at
/// `addr`, concatenated in order.
pub open spec fn spec_children_entries(
    m: MediumView,
    ctx: Option<(u32, u32)>,
    addr: u64,
    level: int,
    upto: int,
) -> Seq<(Seq<u8>, Seq<u8>)>
    decreases level, 0int, upto,
{
    if upto <= 0 || level <= 0 {
        Seq::empty()
    } else {
        spec_children_entries(m, ctx, addr, level, upto - 1) + spec_subtree_entries(
            m,
            ctx,
            spec_child_addr(spec_node_at(m, ctx, addr), upto - 1),
            level - 1,
        )
    }
}

/// The leaf entries of the subtree rooted at `addr`, expected at `level`,
/// in key order for a well-formed tree.
pub open spec fn spec_subtree_entries(
    m: MediumView,
    ctx: Option<(u32, u32)>,
    addr: u64,
    level: int,
) -> Seq<(Seq<u8>, Seq<u8>)>
    decreases level, 1int, 0int,
{
    if level <= 0 {
        spec_node_at(m, ctx, addr).entries
    } else {
        spec_children_entries(
            m,
            ctx,
            addr,
            level,
            spec_node_at(m, ctx, addr).entries.len() as int,
        )
    }
}

/// Well-formedness of the subtree rooted at `addr` at `level`: the node
/// parses behind a matching checksum, carries the expected level, has
/// strictly sorted well-formed keys, and, above level 0, every entry
/// points to a well-formed child whose smallest key is the entry's key,
/// with strictly increasing key ranges across children.
pub open spec fn spec_subtree_wf(
    m: MediumView,
    ctx: Option<(u32, u32)>,
    c: KeyComparator,
    addr: u64,
    level: int,
) -> bool
    decreases level,
{
    if level < 0 {
        false
    } else {
        &&& spec_node_parses(m, ctx, addr)
        &&& {
            let n = spec_node_at(m, ctx, addr);
            &&& n.level == level
            &&& (n.is_leaf <==> level == 0)
            &&& spec_entries_keys_wf(c, n.entries)
            &&& spec_entries_sorted(c, n.entries)
            &&& if level == 0 {
                true
            } else {
                &&& n.entries.len() >= 1
                &&& (forall|i: int|
                    #![trigger n.entries[i]]
                    0 <= i < n.entries.len() ==> {
                        let child = spec_child_addr(n, i);
                        &&& spec_subtree_wf(m, ctx, c, child, level - 1)
                        &&& spec_subtree_entries(m, ctx, child, level - 1).len() >= 1
                        &&& spec_subtree_entries(m, ctx, child, level - 1)[0].0 == n.entries[i].0
                    })
                &&& (forall|i: int|
                    #![trigger n.entries[i]]
                    0 <= i && i + 1 < n.entries.len() ==> spec_key_lt(
                        c,
                        spec_subtree_entries(
                            m,
                            ctx,
                            spec_child_addr(n, i),
                            level - 1,
                        ).last().0,
                        n.entries[i + 1].0,
                    ))
            }
        }
    }
}

/// The fixed-size context a tree hands to every node parse: the key and
/// value sizes recorded in the root's footer.
pub open spec fn spec_tree_ctx(m: MediumView, root: u64) -> Option<(u32, u32)> {
    let ti = spec_tree_info(m.blocks[root as int]);
    Some((ti.key_size, ti.val_size))
}

/// All leaf entries of the tree rooted at `root`, in key order for a
/// well-formed tree.
pub open spec fn spec_tree_entries(m: MediumView, root: u64) -> Seq<(Seq<u8>, Seq<u8>)> {
    spec_subtree_entries(
        m,
        spec_tree_ctx(m, root),
        root,
        spec_node_level(m.blocks[root as int]) as int,
    )
}

/// Well-formedness of a whole tree: the root block carries the root flag,
/// the subtree under it is well formed, and the footer's total key count
/// equals the number of leaf entries the tree actually holds.
pub open spec fn spec_tree_wf(m: MediumView, c: KeyComparator, root: u64) -> bool {
    &&& root < m.blocks.len()
    &&& spec_node_is_root(m.blocks[root as int])
    &&& spec_subtree_wf(
        m,
        spec_tree_ctx(m, root),
        c,
        root,
        spec_node_level(m.blocks[root as int]) as int,
    )
    &&& spec_tree_info(m.blocks[root as int]).key_count == spec_tree_entries(m, root).len()
}

/// Membership in a concatenation is membership in either part.
pub proof fn lemma_concat_contains<T>(a: Seq<T>, b: Seq<T>, x: T)
    ensures
        (a + b).contains(x) <==> a.contains(x) || b.contains(x),
{
    if a.contains(x) {
        let i = choose|i: int| 0 <= i < a.len() && a[i] == x;
        assert((a + b)[i] == x);
    }
    if b.contains(x) {
        let i = choose|i: int| 0 <= i < b.len() && b[i] == x;
        assert((a + b)[a.len() + i] == x);
    }
    if (a + b).contains(x) {
        let i = choose|i: int| 0 <= i < (a + b).len() && (a + b)[i] == x;
        if i < a.len() {
            assert(a[i] == x);
        } else {
            assert(b[i - a.len()] == x);
        }
    }
}

/// Concatenating sorted runs whose boundary keys increase yields a sorted
/// run.
proof fn lemma_sorted_concat(c: KeyComparator, a: Seq<(Seq<u8>, Seq<u8>)>, b: Seq<(Seq<u8>, Seq<u8>)>)
    requires
        spec_entries_sorted(c, a),
        spec_entries_sorted(c, b),
        spec_entries_keys_wf(c, a),
        spec_entries_keys_wf(c, b),
        a.len() >= 1 && b.len() >= 1 ==> spec_key_lt(c, a.last().0, b[0].0),
    ensures
        spec_entries_sorted(c, a + b),
        spec_entries_keys_wf(c, a + b),
{
    assert forall|i: int, j: int|
        #![trigger (a + b)[i], (a + b)[j]]
        0 <= i < j < (a + b).len() implies spec_key_lt(c, (a + b)[i].0, (a + b)[j].0) by {
        if j < a.len() {
            assert((a + b)[i] == a[i] && (a + b)[j] == a[j]);
        } else if i >= a.len() {
            assert((a + b)[i] == b[i - a.len()] && (a + b)[j] == b[j - a.len()]);
        } else {
            assert((a + b)[i] == a[i] && (a + b)[j] == b[j - a.len()]);
            if i < a.len() - 1 {
                assert(spec_key_lt(c, a[i].0, a.last().0));
                lemma_key_lt_trans(c, a[i].0, a.last().0, b[0].0);
            }
            if j - a.len() > 0 {
                assert(spec_key_lt(c, b[0].0, b[j - a.len()].0));
                lemma_key_lt_trans(c, a[i].0, b[0].0, b[j - a.len()].0);
            }
        }
    }
    assert forall|i: int| 0 <= i < (a + b).len() implies spec_key_wf(c, (#[trigger] (a + b)[i]).0) by {
        if i < a.len() {
            assert((a + b)[i] == a[i]);
        } else {
            assert((a + b)[i] == b[i - a.len()]);
        }
    }
}

/// The entries of a well-formed subtree are strictly sorted with
/// well-formed keys; above level 0 the subtree is non-empty and its
/// smallest key is the node's first entry key.
pub proof fn lemma_subtree_entries_wf(
    m: MediumView,
    ctx: Option<(u32, u32)>,
    c: KeyComparator,
    addr: u64,
    level: int,
)
    requires
        spec_subtree_wf(m, ctx, c, addr, level),
    ensures
        spec_entries_sorted(c, spec_subtree_entries(m, ctx, addr, level)),
        spec_entries_keys_wf(c, spec_subtree_entries(m, ctx, addr, level)),
        spec_subtree_entries(m, ctx, addr, level).len() >= 1 ==> spec_subtree_entries(
            m,
            ctx,
            addr,
            level,
        )[0].0 == spec_node_at(m, ctx, addr).entries[0].0,
        level >= 1 ==> spec_subtree_entries(m, ctx, addr, level).len() >= 1,
        level >= 1 ==> spec_subtree_entries(m, ctx, addr, level).last()
            == spec_subtree_entries(
            m,
            ctx,
            spec_child_addr(
                spec_node_at(m, ctx, addr),
                spec_node_at(m, ctx, addr).entries.len() - 1,
            ),
            level - 1,
        ).last(),
    decreases level, 1int, 0int,
{
    let n = spec_node_at(m, ctx, addr);
    if level >= 1 {
        lemma_children_entries_props(m, ctx, c, addr, level, n.entries.len() as int);
    }
}

/// Properties of the concatenated entries of the first `upto` children of
/// a well-formed non-leaf node.
proof fn lemma_children_entries_props(
    m: MediumView,
    ctx: Option<(u32, u32)>,
    c: KeyComparator,
    addr: u64,
    level: int,
    upto: int,
)
    requires
        spec_subtree_wf(m, ctx, c, addr, level),
        level >= 1,
        0 <= upto <= spec_node_at(m, ctx, addr).entries.len(),
    ensures
        spec_entries_sorted(c, spec_children_entries(m, ctx, addr, level, upto)),
        spec_entries_keys_wf(c, spec_children_entries(m, ctx, addr, level, upto)),
        upto >= 1 ==> {
            let n = spec_node_at(m, ctx, addr);
            let ce = spec_children_entries(m, ctx, addr, level, upto);
            &&& ce.len() >= 1
            &&& ce[0].0 == n.entries[0].0
            &&& ce.last() == spec_subtree_entries(
                m,
                ctx,
                spec_child_addr(n, upto - 1),
                level - 1,
            ).last()
        },
    decreases level, 0int, upto,
{
    let n = spec_node_at(m, ctx, addr);
    if upto >= 1 {
        let prev = spec_children_entries(m, ctx, addr, level, upto - 1);
        let child = spec_child_addr(n, upto - 1);
        let sub = spec_subtree_entries(m, ctx, child, level - 1);
        lemma_children_entries_props(m, ctx, c, addr, level, upto - 1);
        assert(n.entries[upto - 1] == n.entries[upto - 1]);
        assert(spec_subtree_wf(m, ctx, c, child, level - 1));
        lemma_subtree_entries_wf(m, ctx, c, child, level - 1);
        if upto - 1 >= 1 {
            assert(prev.last() == spec_subtree_entries(
                m,
                ctx,
                spec_child_addr(n, upto - 2),
                level - 1,
            ).last());
            assert(spec_key_lt(
                c,
                spec_subtree_entries(m, ctx, spec_child_addr(n, upto - 2), level - 1).last().0,
                n.entries[upto - 1].0,
            ));
            assert(sub[0].0 == n.entries[upto - 1].0);
        }
        lemma_sorted_concat(c, prev, sub);
        assert(spec_children_entries(m, ctx, addr, level, upto) == prev + sub);
        assert((prev + sub).last() == sub.last());
        if upto - 1 >= 1 {
            assert((prev + sub)[0] == prev[0]);
        } else {
            assert(prev.len() == 0);
            assert((prev + sub)[0] == sub[0]);
        }
    }
}

/// Every entry of a child of a well-formed non-leaf node has a key at
/// least the child's own entry key, and below the next entry's key.
pub proof fn lemma_child_entry_key_bounds(
    m: MediumView,
    ctx: Option<(u32, u32)>,
    c: KeyComparator,
    addr: u64,
    level: int,
    j: int,
)
    requires
        spec_subtree_wf(m, ctx, c, addr, level),
        level >= 1,
        0 <= j < spec_node_at(m, ctx, addr).entries.len(),
    ensures
        ({
            let n = spec_node_at(m, ctx, addr);
            let sub = spec_subtree_entries(m, ctx, spec_child_addr(n, j), level - 1);
            forall|t: int|
                0 <= t < sub.len() ==> {
                    &&& !spec_key_lt(c, (#[trigger] sub[t]).0, n.entries[j].0)
                    &&& (j + 1 < n.entries.len() ==> spec_key_lt(c, sub[t].0, n.entries[j + 1].0))
                }
        }),
{
    let n = spec_node_at(m, ctx, addr);
    assert(n.entries[j] == n.entries[j]);
    let child = spec_child_addr(n, j);
    let sub = spec_subtree_entries(m, ctx, child, level - 1);
    lemma_subtree_entries_wf(m, ctx, c, child, level - 1);
    assert forall|t: int| 0 <= t < sub.len() implies {
        &&& !spec_key_lt(c, (#[trigger] sub[t]).0, n.entries[j].0)
        &&& (j + 1 < n.entries.len() ==> spec_key_lt(c, sub[t].0, n.entries[j + 1].0))
    } by {
        lemma_key_lt_trichotomy(c, sub[t].0, sub[0].0);
        if t > 0 {
            assert(spec_key_lt(c, sub[0].0, sub[t].0));
        }
        if j + 1 < n.entries.len() {
            assert(spec_key_lt(c, sub.last().0, n.entries[j + 1].0));
            if t < sub.len() - 1 {
                assert(spec_key_lt(c, sub[t].0, sub.last().0));
                lemma_key_lt_trans(c, sub[t].0, sub.last().0, n.entries[j + 1].0);
            }
        }
    }
}

/// The concatenated children prefix only grows: a shorter prefix is an
/// initial segment of any longer one.
proof fn lemma_children_entries_extend(
    m: MediumView,
    ctx: Option<(u32, u32)>,
    addr: u64,
    level: int,
    i: int,
    j: int,
)
    requires
        0 <= i <= j,
        level >= 1,
    ensures
        spec_children_entries(m, ctx, addr, level, i).len() <= spec_children_entries(
            m,
            ctx,
            addr,
            level,
            j,
        ).len(),
        spec_children_entries(m, ctx, addr, level, i) == spec_children_entries(
            m,
            ctx,
            addr,
            level,
            j,
        ).take(spec_children_entries(m, ctx, addr, level, i).len() as int),
    decreases j - i,
{
    let ci = spec_children_entries(m, ctx, addr, level, i);
    let cj = spec_children_entries(m, ctx, addr, level, j);
    if j == i {
        assert(ci =~= cj.take(ci.len() as int));
    } else {
        lemma_children_entries_extend(m, ctx, addr, level, i, j - 1);
        assert(ci =~= cj.take(ci.len() as int));
    }
}

/// Every entry of child `j` appears in any children prefix that covers it.
pub proof fn lemma_children_entries_contains(
    m: MediumView,
    ctx: Option<(u32, u32)>,
    addr: u64,
    level: int,
    j: int,
    upto: int,
    x: (Seq<u8>, Seq<u8>),
)
    requires
        0 <= j < upto,
        level >= 1,
        spec_subtree_entries(
            m,
            ctx,
            spec_child_addr(spec_node_at(m, ctx, addr), j),
            level - 1,
        ).contains(x),
    ensures
        spec_children_entries(m, ctx, addr, level, upto).contains(x),
    decreases upto,
{
    let prev = spec_children_entries(m, ctx, addr, level, upto - 1);
    let sub = spec_subtree_entries(
        m,
        ctx,
        spec_child_addr(spec_node_at(m, ctx, addr), upto - 1),
        level - 1,
    );
    if j == upto - 1 {
        lemma_concat_contains(prev, sub, x);
    } else {
        lemma_children_entries_contains(m, ctx, addr, level, j, upto - 1, x);
        lemma_concat_contains(prev, sub, x);
    }
}

/// Every entry of a children prefix comes from one of the covered
/// children.
pub proof fn lemma_children_entries_member_child(
    m: MediumView,
    ctx: Option<(u32, u32)>,
    addr: u64,
    level: int,
    upto: int,
    x: (Seq<u8>, Seq<u8>),
)
    requires
        level >= 1,
        spec_children_entries(m, ctx, addr, level, upto).contains(x),
    ensures
        exists|j: int|
            0 <= j < upto && spec_subtree_entries(
                m,
                ctx,
                spec_child_addr(spec_node_at(m, ctx, addr), j),
                level - 1,
            ).contains(x),
    decreases upto,
{
    let prev = spec_children_entries(m, ctx, addr, level, upto - 1);
    let sub = spec_subtree_entries(
        m,
        ctx,
        spec_child_addr(spec_node_at(m, ctx, addr), upto - 1),
        level - 1,
    );
    lemma_concat_contains(prev, sub, x);
    if prev.contains(x) {
        lemma_children_entries_member_child(m, ctx, addr, level, upto - 1, x);
    } else {
        assert(sub.contains(x));
    }
}

/// Sorted entries have unique keys: two entries sharing a key are the
/// same entry.
pub proof fn lemma_sorted_unique_keys(
    c: KeyComparator,
    es: Seq<(Seq<u8>, Seq<u8>)>,
    i: int,
    j: int,
)
    requires
        spec_entries_sorted(c, es),
        spec_entries_keys_wf(c, es),
        0 <= i < es.len(),
        0 <= j < es.len(),
        es[i].0 == es[j].0,
    ensures
        i == j,
{
    if i < j {
        lemma_key_lt_trichotomy(c, es[i].0, es[j].0);
    }
    if j < i {
        lemma_key_lt_trichotomy(c, es[j].0, es[i].0);
    }
}

/// A root node parses the same under any fixed-size context: it always
/// takes its fixed sizes from its own footer.
pub proof fn lemma_root_parse_ctx_irrelevant(
    s: Seq<u8>,
    ctx1: Option<(u32, u32)>,
    ctx2: Option<(u32, u32)>,
)
    requires
        spec_node_is_root(s),
    ensures
        spec_parse_node(s, ctx1) == spec_parse_node(s, ctx2),
{
    assert(crate::node::spec_fixed_sizes(s, ctx1) == crate::node::spec_fixed_sizes(s, ctx2));
    assert forall|i: int| true implies crate::node::spec_entry_ranges(s, ctx1, i)
        == crate::node::spec_entry_ranges(s, ctx2, i) by {}
    assert forall|i: int| true implies crate::node::spec_entry_ok(s, ctx1, i)
        == crate::node::spec_entry_ok(s, ctx2, i) by {}
    assert(crate::node::spec_parse_node_ok(s, ctx1) == crate::node::spec_parse_node_ok(s, ctx2));
    if crate::node::spec_parse_node_ok(s, ctx1) {
        assert(crate::node::spec_node_entries(s, ctx1) =~= crate::node::spec_node_entries(
            s,
            ctx2,
        ));
        assert(spec_parse_node(s, ctx1).unwrap() =~= spec_parse_node(s, ctx2).unwrap());
    }
}


/// Order and count of a full scan: over a well-formed tree, the leaf
/// entries stand in strictly increasing key order under the tree's
/// comparator, and their number equals the total key count recorded in
/// the root's footer.
pub proof fn lemma_tree_entries_sorted(m: MediumView, c: KeyComparator, root: u64)
    requires
        spec_tree_wf(m, c, root),
    ensures
        spec_entries_sorted(c, spec_tree_entries(m, root)),
        spec_entries_keys_wf(c, spec_tree_entries(m, root)),
        spec_tree_entries(m, root).len() == spec_tree_info(m.blocks[root as int]).key_count,
{
    lemma_subtree_entries_wf(
        m,
        spec_tree_ctx(m, root),
        c,
        root,
        spec_node_level(m.blocks[root as int]) as int,
    );
}

/// A visitor for full scans: `walk` hands it each leaf entry in key order,
/// and it may stop the scan early by returning an error.
///
/// Its abort decision is a function of the entries seen so far alone, so
/// that the outcome of a scan is determined by the tree's contents.
pub trait TreeVisitor: Sized {
    /// The entries this visitor has been shown, in order.
    spec fn visited(&self) -> Seq<(Seq<u8>, Seq<u8>)>;

    /// Whether the visitor stops the scan when shown `(key, value)` after
    /// having seen `prior`.
    spec fn spec_aborts(&self, prior: Seq<(Seq<u8>, Seq<u8>)>, key: Seq<u8>, value: Seq<u8>) -> bool;

    /// Observe one entry; an `Err` stops the scan.
    fn visit(&mut self, key: &[u8], value: &[u8]) -> (r: Result<(), ApfsError>)
        ensures
            final(self).visited() == old(self).visited().push((key@, value@)),
            r is Err <==> old(self).spec_aborts(old(self).visited(), key@, value@),
            r matches Err(e) ==> e is Aborted,
            forall|p: Seq<(Seq<u8>, Seq<u8>)>, k: Seq<u8>, v: Seq<u8>|
                final(self).spec_aborts(p, k, v) == old(self).spec_aborts(p, k, v),
    ;
}

/// How many of the entries `es` a scan shows to visitor `vis`, having
/// already shown `prior`: all of them, or every one up to and including
/// the first that aborts.
pub open spec fn spec_scan_count<V: TreeVisitor>(
    vis: V,
    prior: Seq<(Seq<u8>, Seq<u8>)>,
    es: Seq<(Seq<u8>, Seq<u8>)>,
) -> int
    decreases es.len(),
{
    if es.len() == 0 {
        0
    } else if vis.spec_aborts(prior, es[0].0, es[0].1) {
        1
    } else {
        1 + spec_scan_count(vis, prior.push(es[0]), es.skip(1))
    }
}

/// Whether a scan of `es` after `prior` is stopped early by `vis`.
pub open spec fn spec_scan_aborts<V: TreeVisitor>(
    vis: V,
    prior: Seq<(Seq<u8>, Seq<u8>)>,
    es: Seq<(Seq<u8>, Seq<u8>)>,
) -> bool
    decreases es.len(),
{
    if es.len() == 0 {
        false
    } else if vis.spec_aborts(prior, es[0].0, es[0].1) {
        true
    } else {
        spec_scan_aborts(vis, prior.push(es[0]), es.skip(1))
    }
}

/// The scan sees at least one entry of a non-empty sequence and never
/// more than all of them.
proof fn lemma_scan_count_bounds<V: TreeVisitor>(
    vis: V,
    prior: Seq<(Seq<u8>, Seq<u8>)>,
    es: Seq<(Seq<u8>, Seq<u8>)>,
)
    ensures
        0 <= spec_scan_count(vis, prior, es) <= es.len(),
    decreases es.len(),
{
    if es.len() > 0 && !vis.spec_aborts(prior, es[0].0, es[0].1) {
        lemma_scan_count_bounds(vis, prior.push(es[0]), es.skip(1));
    }
}

/// A scan that is never stopped shows every entry.
proof fn lemma_scan_no_abort<V: TreeVisitor>(
    vis: V,
    prior: Seq<(Seq<u8>, Seq<u8>)>,
    es: Seq<(Seq<u8>, Seq<u8>)>,
)
    requires
        !spec_scan_aborts(vis, prior, es),
    ensures
        spec_scan_count(vis, prior, es) == es.len(),
    decreases es.len(),
{
    if es.len() > 0 {
        lemma_scan_no_abort(vis, prior.push(es[0]), es.skip(1));
    }
}

/// A scan over one entry shows it, and stops exactly when the visitor
/// aborts on it.
proof fn lemma_scan_singleton<V: TreeVisitor>(
    vis: V,
    prior: Seq<(Seq<u8>, Seq<u8>)>,
    e: (Seq<u8>, Seq<u8>),
)
    ensures
        spec_scan_aborts(vis, prior, seq![e]) == vis.spec_aborts(prior, e.0, e.1),
        spec_scan_count(vis, prior, seq![e]) == 1,
{
    let single = seq![e];
    assert(single.skip(1) =~= Seq::<(Seq<u8>, Seq<u8>)>::empty());
    reveal_with_fuel(spec_scan_aborts, 2);
    reveal_with_fuel(spec_scan_count, 2);
    assert(spec_scan_aborts(vis, prior.push(e), single.skip(1)) == false);
    assert(spec_scan_count(vis, prior.push(e), single.skip(1)) == 0);
}

/// Scanning a concatenation first scans the front; the back is reached
/// only if the front did not stop the scan.
proof fn lemma_scan_append<V: TreeVisitor>(
    vis: V,
    prior: Seq<(Seq<u8>, Seq<u8>)>,
    a: Seq<(Seq<u8>, Seq<u8>)>,
    b: Seq<(Seq<u8>, Seq<u8>)>,
)
    ensures
        spec_scan_aborts(vis, prior, a + b) == (spec_scan_aborts(vis, prior, a)
            || spec_scan_aborts(vis, prior + a, b)),
        spec_scan_count(vis, prior, a + b) == if spec_scan_aborts(vis, prior, a) {
            spec_scan_count(vis, prior, a)
        } else {
            a.len() + spec_scan_count(vis, prior + a, b)
        },
    decreases a.len(),
{
    if a.len() == 0 {
        assert(a + b =~= b);
        assert(prior + a =~= prior);
    } else {
        assert((a + b)[0] == a[0]);
        assert((a + b).skip(1) =~= a.skip(1) + b);
        lemma_scan_append(vis, prior.push(a[0]), a.skip(1), b);
        assert(prior.push(a[0]) + a.skip(1) =~= prior + a);
    }
}

/// Two visitors with the same abort rule see the same scan outcome.
proof fn lemma_scan_config<V: TreeVisitor>(
    v1: V,
    v2: V,
    prior: Seq<(Seq<u8>, Seq<u8>)>,
    es: Seq<(Seq<u8>, Seq<u8>)>,
)
    requires
        forall|p: Seq<(Seq<u8>, Seq<u8>)>, k: Seq<u8>, v: Seq<u8>|
            v1.spec_aborts(p, k, v) == v2.spec_aborts(p, k, v),
    ensures
        spec_scan_count(v1, prior, es) == spec_scan_count(v2, prior, es),
        spec_scan_aborts(v1, prior, es) == spec_scan_aborts(v2, prior, es),
    decreases es.len(),
{
    if es.len() > 0 {
        assert(v1.spec_aborts(prior, es[0].0, es[0].1) == v2.spec_aborts(prior, es[0].0, es[0].1));
        if !v1.spec_aborts(prior, es[0].0, es[0].1) {
            lemma_scan_config(v1, v2, prior.push(es[0]), es.skip(1));
        }
    }
}

/// Scan the subtree rooted at `addr`, expected at `level`, handing each
/// leaf entry to `visitor` in order.
fn walk_subtree<R: BlockReader, V: TreeVisitor>(
    reader: &R,
    ctx: Option<(u32, u32)>,
    cmp: KeyComparator,
    addr: u64,
    level: u16,
    visitor: &mut V,
) -> (r: Result<(), ApfsError>)
    requires
        reader.medium().wf(),
    ensures
        spec_subtree_wf(reader.medium(), ctx, cmp, addr, level as int) && reader.reliable() ==> ({
            let es = spec_subtree_entries(reader.medium(), ctx, addr, level as int);
            let prior = old(visitor).visited();
            &&& final(visitor).visited() == prior + es.take(
                spec_scan_count(*old(visitor), prior, es),
            )
            &&& (r is Ok <==> !spec_scan_aborts(*old(visitor), prior, es))
            &&& (r matches Err(e) ==> e is Aborted)
        }),
        forall|p: Seq<(Seq<u8>, Seq<u8>)>, k: Seq<u8>, v: Seq<u8>|
            final(visitor).spec_aborts(p, k, v) == old(visitor).spec_aborts(p, k, v),
    decreases level,
{
    let ghost m = reader.medium();
    let ghost lvl = level as int;
    let ghost wf = spec_subtree_wf(m, ctx, cmp, addr, lvl) && reader.reliable();
    let ghost es = spec_subtree_entries(m, ctx, addr, lvl);
    let ghost prior = visitor.visited();
    let block = match get_block_validated(reader, addr) {
        Ok(b) => b,
        Err(e) => {
            proof {
                if wf {
                    assert(false);
                }
            }
            return Err(e);
        },
    };
    let node = match BTreeNodeBlock::from_block(block, ctx) {
        Ok(n) => n,
        Err(e) => {
            proof {
                if wf {
                    assert(false);
                }
            }
            return Err(e);
        },
    };
    proof {
        if wf {
            assert(node.node_view() == spec_node_at(m, ctx, addr));
        }
    }
    if node.level() != level {
        proof {
            if wf {
                assert(false);
            }
        }
        return Err(ApfsError::CorruptTree);
    }
    let count = node.key_count();
    if node.is_leaf() {
        if level != 0 {
            proof {
                if wf {
                    assert(false);
                }
            }
            return Err(ApfsError::CorruptTree);
        }
        let mut i: usize = 0;
        let mut res: Result<(), ApfsError> = Ok(());
        proof {
            if wf {
                assert(es =~= es.take(count as int));
                assert(es.take(0) =~= Seq::<(Seq<u8>, Seq<u8>)>::empty());
                assert(prior + es.take(0) =~= prior);
            }
        }
        while i < count && res.is_ok()
            invariant
                0 <= i <= count,
                node.wf(),
                count == node.node_view().entries.len(),
                wf == (spec_subtree_wf(m, ctx, cmp, addr, lvl) && reader.reliable()),
                es == spec_subtree_entries(m, ctx, addr, lvl),
                prior == old(visitor).visited(),
                forall|p: Seq<(Seq<u8>, Seq<u8>)>, k: Seq<u8>, v: Seq<u8>|
                    visitor.spec_aborts(p, k, v) == old(visitor).spec_aborts(p, k, v),
                wf ==> es == node.node_view().entries,
                res is Ok ==> wf ==> visitor.visited() == prior + es.take(i as int),
                res is Ok ==> wf ==> !spec_scan_aborts(*old(visitor), prior, es.take(i as int)),
                res matches Err(err) ==> wf ==> {
                    &&& visitor.visited() == prior + es.take(
                        spec_scan_count(*old(visitor), prior, es),
                    )
                    &&& spec_scan_aborts(*old(visitor), prior, es)
                    &&& err is Aborted
                },
            decreases count - i,
        {
            let (key, value) = node.entry(i);
            let ghost vis_pre = *visitor;
            let r = visitor.visit(key.as_slice(), value.as_slice());
            proof {
                if wf {
                    let e = es[i as int];
                    assert(key@ == e.0 && value@ == e.1);
                    assert(es.take(i + 1) =~= es.take(i as int) + seq![e]);
                    lemma_scan_append(*old(visitor), prior, es.take(i as int), seq![e]);
                    assert(prior + es.take(i as int) =~= vis_pre.visited());
                    lemma_scan_singleton(*old(visitor), prior + es.take(i as int), e);
                    assert(vis_pre.spec_aborts(vis_pre.visited(), e.0, e.1) == old(
                        visitor,
                    ).spec_aborts(prior + es.take(i as int), e.0, e.1));
                }
            }
            match r {
                Ok(()) => {
                    proof {
                        if wf {
                            assert(visitor.visited() =~= prior + es.take(i + 1));
                        }
                    }
                },
                Err(err) => {
                    proof {
                        if wf {
                            assert(es =~= es.take(i + 1) + es.skip(i + 1));
                            lemma_scan_append(*old(visitor), prior, es.take(i + 1), es.skip(i + 1));
                            assert(spec_scan_count(*old(visitor), prior, es) == i + 1);
                            assert(visitor.visited() =~= prior + es.take(i + 1));
                            assert(visitor.visited() == prior + es.take(
                                spec_scan_count(*old(visitor), prior, es),
                            ));
                        }
                    }
                    res = Err(err);
                },
            }
            i = i + 1;
        }
        if res.is_ok() {
            proof {
                if wf {
                    assert(es.take(count as int) =~= es);
                    lemma_scan_no_abort(*old(visitor), prior, es);
                }
            }
        }
        res
    } else {
        if level == 0 {
            proof {
                if wf {
                    assert(false);
                }
            }
            return Err(ApfsError::CorruptTree);
        }
        let ghost n_spec = spec_node_at(m, ctx, addr);
        proof {
            if wf {
                assert(es == spec_children_entries(m, ctx, addr, lvl, count as int));
                assert(spec_children_entries(m, ctx, addr, lvl, 0) =~= Seq::<(
                    Seq<u8>,
                    Seq<u8>,
                )>::empty());
                assert(prior + spec_children_entries(m, ctx, addr, lvl, 0) =~= prior);
            }
        }
        let mut i: usize = 0;
        let mut res: Result<(), ApfsError> = Ok(());
        while i < count && res.is_ok()
            invariant
                0 <= i <= count,
                reader.medium().wf(),
                m == reader.medium(),
                node.wf(),
                count == node.node_view().entries.len(),
                level >= 1,
                lvl == level as int,
                wf == (spec_subtree_wf(m, ctx, cmp, addr, lvl) && reader.reliable()),
                es == spec_subtree_entries(m, ctx, addr, lvl),
                prior == old(visitor).visited(),
                forall|p: Seq<(Seq<u8>, Seq<u8>)>, k: Seq<u8>, v: Seq<u8>|
                    visitor.spec_aborts(p, k, v) == old(visitor).spec_aborts(p, k, v),
                wf ==> node.node_view() == n_spec,
                wf ==> n_spec == spec_node_at(m, ctx, addr),
                wf ==> es == spec_children_entries(m, ctx, addr, lvl, count as int),
                res is Ok ==> wf ==> visitor.visited() == prior + spec_children_entries(
                    m,
                    ctx,
                    addr,
                    lvl,
                    i as int,
                ),
                res is Ok ==> wf ==> !spec_scan_aborts(
                    *old(visitor),
                    prior,
                    spec_children_entries(m, ctx, addr, lvl, i as int),
                ),
                res matches Err(err) ==> wf ==> {
                    &&& visitor.visited() == prior + es.take(
                        spec_scan_count(*old(visitor), prior, es),
                    )
                    &&& spec_scan_aborts(*old(visitor), prior, es)
                    &&& err is Aborted
                },
            decreases count - i,
        {
            let (key, value) = node.entry(i);
            if value.len() != 8 {
                proof {
                    if wf {
                        assert(crate::node::spec_parse_node_ok(m.blocks[addr as int], ctx));
                        assert(crate::node::spec_entry_ok(m.blocks[addr as int], ctx, i as int));
                        assert(false);
                    }
                }
                return Err(ApfsError::CorruptTree);
            }
            let child = u64_from_le_bytes(value.as_slice());
            proof {
                if wf {
                    assert(n_spec.entries[i as int] == n_spec.entries[i as int]);
                    assert(child == spec_child_addr(n_spec, i as int));
                    assert(spec_subtree_wf(m, ctx, cmp, child, lvl - 1));
                }
            }
            let ghost prior_i = visitor.visited();
            let ghost vis_pre = *visitor;
            let ghost ci = spec_children_entries(m, ctx, addr, lvl, i as int);
            let ghost sub = spec_subtree_entries(m, ctx, spec_child_addr(n_spec, i as int), lvl
                - 1);
            let r = walk_subtree(reader, ctx, cmp, child, level - 1, visitor);
            proof {
                if wf {
                    lemma_scan_config(vis_pre, *old(visitor), prior_i, sub);
                    lemma_scan_count_bounds(*old(visitor), prior_i, sub);
                    assert(spec_children_entries(m, ctx, addr, lvl, i + 1) == ci + sub);
                }
            }
            match r {
                Ok(()) => {
                    proof {
                        if wf {
                            assert(!spec_scan_aborts(*old(visitor), prior_i, sub));
                            lemma_scan_no_abort(*old(visitor), prior_i, sub);
                            assert(sub.take(sub.len() as int) =~= sub);
                            assert(visitor.visited() =~= prior + spec_children_entries(
                                m,
                                ctx,
                                addr,
                                lvl,
                                i + 1,
                            ));
                            lemma_scan_append(*old(visitor), prior, ci, sub);
                        }
                    }
                },
                Err(err) => {
                    proof {
                        if wf {
                            let k_i = spec_scan_count(*old(visitor), prior_i, sub);
                            assert(spec_scan_aborts(*old(visitor), prior_i, sub));
                            lemma_scan_append(*old(visitor), prior, ci, sub);
                            lemma_children_entries_extend(m, ctx, addr, lvl, i + 1, count as int);
                            let l1 = spec_children_entries(m, ctx, addr, lvl, i + 1).len() as int;
                            let d = es.skip(l1);
                            assert(es =~= spec_children_entries(m, ctx, addr, lvl, i + 1) + d);
                            lemma_scan_append(*old(visitor), prior, ci + sub, d);
                            assert(spec_scan_aborts(*old(visitor), prior, es));
                            assert(spec_scan_count(*old(visitor), prior, es) == ci.len() + k_i);
                            assert(es.take(ci.len() + k_i) =~= ci + sub.take(k_i));
                            assert(visitor.visited() =~= prior + es.take(
                                spec_scan_count(*old(visitor), prior, es),
                            ));
                        }
                    }
                    res = Err(err);
                },
            }
            i = i + 1;
        }
        if res.is_ok() {
            proof {
                if wf {
                    assert(es.take(es.len() as int) =~= es);
                    lemma_scan_no_abort(*old(visitor), prior, es);
                }
            }
        }
        res
    }
}

/// Produce an in-order scan of all leaf entries of the tree rooted at
/// `root`, handing each to `visitor`.
///
/// An abort signalled by the visitor is propagated to the caller without
/// being treated as tree corruption; the scan stops with the aborted
/// entry. On a well-formed tree the visitor sees exactly the tree's
/// entries, in key order, up to its own abort.
pub fn walk<R: BlockReader, V: TreeVisitor>(
    reader: &R,
    cmp: KeyComparator,
    root: u64,
    visitor: &mut V,
) -> (r: Result<(), ApfsError>)
    requires
        reader.medium().wf(),
    ensures
        spec_tree_wf(reader.medium(), cmp, root) && reader.reliable() ==> ({
            let es = spec_tree_entries(reader.medium(), root);
            let prior = old(visitor).visited();
            &&& final(visitor).visited() == prior + es.take(
                spec_scan_count(*old(visitor), prior, es),
            )
            &&& (r is Ok <==> !spec_scan_aborts(*old(visitor), prior, es))
            &&& (r matches Err(e) ==> e is Aborted)
        }),
        forall|p: Seq<(Seq<u8>, Seq<u8>)>, k: Seq<u8>, v: Seq<u8>|
            final(visitor).spec_aborts(p, k, v) == old(visitor).spec_aborts(p, k, v),
{
    let ghost m = reader.medium();
    let ghost wf = spec_tree_wf(m, cmp, root) && reader.reliable();
    let block = match get_block_validated(reader, root) {
        Ok(b) => b,
        Err(e) => {
            proof {
                if wf {
                    assert(false);
                }
            }
            return Err(e);
        },
    };
    proof {
        if wf {
            crate::tree::lemma_root_parse_ctx_irrelevant(
                m.blocks[root as int],
                None,
                spec_tree_ctx(m, root),
            );
        }
    }
    let node = match BTreeNodeBlock::from_block(block, None) {
        Ok(n) => n,
        Err(e) => {
            proof {
                if wf {
                    assert(false);
                }
            }
            return Err(e);
        },
    };
    if !node.is_root() {
        proof {
            if wf {
                assert(false);
            }
        }
        return Err(ApfsError::CorruptTree);
    }
    let ti = match node.tree_info() {
        Some(ti) => ti,
        None => {
            proof {
                if wf {
                    assert(false);
                }
            }
            return Err(ApfsError::CorruptTree);
        },
    };
    let level = node.level();
    proof {
        if wf {
            assert(node.node_view() == spec_node_at(m, spec_tree_ctx(m, root), root));
            assert(ti == spec_tree_info(m.blocks[root as int]));
            assert(Some((ti.key_size, ti.val_size)) == spec_tree_ctx(m, root));
            assert(level == spec_node_level(m.blocks[root as int]));
        }
    }
    walk_subtree(reader, Some((ti.key_size, ti.val_size)), cmp, root, level, visitor)
}

/// With strictly sorted keys, an entry's key determines its value: a
/// point lookup and a full scan can never disagree on what a key maps to.
pub proof fn lemma_entries_key_determines_value(
    c: KeyComparator,
    es: Seq<(Seq<u8>, Seq<u8>)>,
    k: Seq<u8>,
    v1: Seq<u8>,
    v2: Seq<u8>,
)
    requires
        spec_entries_sorted(c, es),
        spec_entries_keys_wf(c, es),
        es.contains((k, v1)),
        es.contains((k, v2)),
    ensures
        v1 == v2,
{
    let i = choose|i: int| 0 <= i < es.len() && es[i] == (k, v1);
    let j = choose|j: int| 0 <= j < es.len() && es[j] == (k, v2);
    lemma_sorted_unique_keys(c, es, i, j);
}

/// Binary-search a node's entries for the greatest key not exceeding
/// `key`: `None` when every entry key exceeds it.
fn node_floor_index(node: &BTreeNodeBlock, cmp: KeyComparator, key: &[u8]) -> (r: Option<usize>)
    requires
        node.wf(),
        spec_key_wf(cmp, key@),
        spec_entries_keys_wf(cmp, node.node_view().entries),
        spec_entries_sorted(cmp, node.node_view().entries),
    ensures
        ({
            let es = node.node_view().entries;
            match r {
                Some(i) => {
                    &&& i < es.len()
                    &&& !spec_key_lt(cmp, key@, es[i as int].0)
                    &&& forall|j: int| i < j < es.len() ==> spec_key_lt(cmp, key@, (#[trigger] es[j]).0)
                },
                None => forall|j: int| 0 <= j < es.len() ==> spec_key_lt(cmp, key@, (#[trigger] es[j]).0),
            }
        }),
{
    let ghost es = node.node_view().entries;
    let count = node.key_count();
    let mut lo: usize = 0;
    let mut hi: usize = count;
    while lo < hi
        invariant
            0 <= lo <= hi <= count,
            count == es.len(),
            es == node.node_view().entries,
            node.wf(),
            spec_key_wf(cmp, key@),
            spec_entries_keys_wf(cmp, es),
            spec_entries_sorted(cmp, es),
            forall|j: int| 0 <= j < lo ==> !spec_key_lt(cmp, key@, (#[trigger] es[j]).0),
            forall|j: int| hi <= j < es.len() ==> spec_key_lt(cmp, key@, (#[trigger] es[j]).0),
        decreases hi - lo,
    {
        let mid = lo + (hi - lo) / 2;
        let (node_key, _value) = node.entry(mid);
        let ord = compare_keys(cmp, node_key.as_slice(), key);
        match ord {
            KeyOrdering::Greater => {
                proof {
                    assert forall|j: int| mid <= j < es.len() implies spec_key_lt(
                        cmp,
                        key@,
                        (#[trigger] es[j]).0,
                    ) by {
                        if j > mid {
                            assert(spec_key_lt(cmp, es[mid as int].0, es[j].0));
                            lemma_key_lt_trans(cmp, key@, es[mid as int].0, es[j].0);
                        }
                    }
                }
                hi = mid;
            },
            _ => {
                proof {
                    assert(!spec_key_lt(cmp, key@, es[mid as int].0)) by {
                        lemma_key_lt_trichotomy(cmp, key@, es[mid as int].0);
                    }
                    assert forall|j: int| 0 <= j < mid + 1 implies !spec_key_lt(
                        cmp,
                        key@,
                        (#[trigger] es[j]).0,
                    ) by {
                        if j < mid {
                            assert(spec_key_lt(cmp, es[j].0, es[mid as int].0));
                            if spec_key_lt(cmp, key@, es[j].0) {
                                lemma_key_lt_trans(cmp, key@, es[j].0, es[mid as int].0);
                            }
                        }
                    }
                }
                lo = mid + 1;
            },
        }
    }
    if lo == 0 {
        None
    } else {
        Some(lo - 1)
    }
}

/// Locate, within the subtree rooted at `addr`, the entry with the
/// greatest key not exceeding `key`.
#[verifier::rlimit(60)]
#[verifier::spinoff_prover]
fn find_floor_subtree<R: BlockReader>(
    reader: &R,
    ctx: Option<(u32, u32)>,
    cmp: KeyComparator,
    addr: u64,
    level: u16,
    key: &[u8],
) -> (r: Result<Option<(Vec<u8>, Vec<u8>)>, ApfsError>)
    requires
        reader.medium().wf(),
        spec_key_wf(cmp, key@),
    ensures
        spec_subtree_wf(reader.medium(), ctx, cmp, addr, level as int) && reader.reliable() ==> ({
            let es = spec_subtree_entries(reader.medium(), ctx, addr, level as int);
            match r {
                Ok(Some((k, v))) => {
                    &&& es.contains((k@, v@))
                    &&& !spec_key_lt(cmp, key@, k@)
                    &&& forall|t: int|
                        0 <= t < es.len() && !spec_key_lt(cmp, key@, (#[trigger] es[t]).0)
                            ==> !spec_key_lt(cmp, k@, es[t].0)
                },
                Ok(None) => forall|t: int|
                    0 <= t < es.len() ==> spec_key_lt(cmp, key@, (#[trigger] es[t]).0),
                Err(e) => false,
            }
        }),
    decreases level,
{
    let ghost m = reader.medium();
    let ghost lvl = level as int;
    let ghost wf = spec_subtree_wf(m, ctx, cmp, addr, lvl) && reader.reliable();
    let ghost es = spec_subtree_entries(m, ctx, addr, lvl);
    let block = match get_block_validated(reader, addr) {
        Ok(b) => b,
        Err(e) => {
            proof {
                if wf {
                    assert(false);
                }
            }
            return Err(e);
        },
    };
    let node = match BTreeNodeBlock::from_block(block, ctx) {
        Ok(n) => n,
        Err(e) => {
            proof {
                if wf {
                    assert(false);
                }
            }
            return Err(e);
        },
    };
    if node.level() != level {
        proof {
            if wf {
                assert(false);
            }
        }
        return Err(ApfsError::CorruptTree);
    }
    proof {
        if wf {
            assert(node.node_view() == spec_node_at(m, ctx, addr));
            lemma_subtree_entries_wf(m, ctx, cmp, addr, lvl);
        }
    }
    let ghost n_spec = node.node_view();
    if node.is_leaf() {
        if level != 0 {
            proof {
                if wf {
                    assert(false);
                }
            }
            return Err(ApfsError::CorruptTree);
        }
        if !wf_guard_sorted(&node, cmp) {
            proof {
                if wf {
                    assert(false);
                }
            }
            return Err(ApfsError::CorruptTree);
        }
        let idx = node_floor_index(&node, cmp, key);
        match idx {
            None => {
                proof {
                    if wf {
                        assert(es == n_spec.entries);
                    }
                }
                Ok(None)
            },
            Some(i) => {
                let (k, v) = node.entry(i);
                proof {
                    if wf {
                        assert(es == n_spec.entries);
                        assert(es[i as int] == (k@, v@));
                        assert(es.contains((k@, v@)));
                        assert forall|t: int|
                            0 <= t < es.len() && !spec_key_lt(cmp, key@, (#[trigger] es[t]).0)
                                implies !spec_key_lt(cmp, k@, es[t].0) by {
                            if t < i {
                                assert(spec_key_lt(cmp, es[t].0, es[i as int].0));
                                lemma_key_lt_trichotomy(cmp, k@, es[t].0);
                                if spec_key_lt(cmp, k@, es[t].0) {
                                    lemma_key_lt_trans(cmp, k@, es[t].0, es[i as int].0);
                                }
                            } else if t == i {
                                lemma_key_lt_trichotomy(cmp, k@, es[t].0);
                            }
                        }
                    }
                }
                Ok(Some((k, v)))
            },
        }
    } else {
        if level == 0 {
            proof {
                if wf {
                    assert(false);
                }
            }
            return Err(ApfsError::CorruptTree);
        }
        if !wf_guard_sorted(&node, cmp) {
            proof {
                if wf {
                    assert(false);
                }
            }
            return Err(ApfsError::CorruptTree);
        }
        let idx = node_floor_index(&node, cmp, key);
        let count = node.key_count();
        match idx {
            None => {
                proof {
                    if wf {
                        assert forall|t: int| 0 <= t < es.len() implies spec_key_lt(
                            cmp,
                            key@,
                            (#[trigger] es[t]).0,
                        ) by {
                            assert(es[0].0 == n_spec.entries[0].0);
                            assert(spec_key_lt(cmp, key@, n_spec.entries[0].0));
                            if t > 0 {
                                assert(spec_key_lt(cmp, es[0].0, es[t].0));
                                lemma_key_lt_trans(cmp, key@, es[0].0, es[t].0);
                            }
                        }
                    }
                }
                Ok(None)
            },
            Some(i) => {
                let (_node_key, value) = node.entry(i);
                if value.len() != 8 {
                    proof {
                        if wf {
                            assert(crate::node::spec_parse_node_ok(m.blocks[addr as int], ctx));
                            assert(crate::node::spec_entry_ok(m.blocks[addr as int], ctx, i as int));
                            assert(false);
                        }
                    }
                    return Err(ApfsError::CorruptTree);
                }
                let child = u64_from_le_bytes(value.as_slice());
                proof {
                    if wf {
                        assert(n_spec.entries[i as int] == n_spec.entries[i as int]);
                        assert(child == spec_child_addr(n_spec, i as int));
                        assert(spec_subtree_wf(m, ctx, cmp, child, lvl - 1));
                    }
                }
                let r = find_floor_subtree(reader, ctx, cmp, child, level - 1, key);
                let ghost sub = spec_subtree_entries(m, ctx, spec_child_addr(n_spec, i as int), lvl
                    - 1);
                match r {
                    Err(e) => {
                        proof {
                            if wf {
                                assert(false);
                            }
                        }
                        Err(e)
                    },
                    Ok(None) => {
                        proof {
                            if wf {
                                lemma_subtree_entries_wf(
                                    m,
                                    ctx,
                                    cmp,
                                    spec_child_addr(n_spec, i as int),
                                    lvl - 1,
                                );
                                assert(sub[0].0 == n_spec.entries[i as int].0);
                                assert(spec_key_lt(cmp, key@, sub[0].0));
                                assert(!spec_key_lt(cmp, key@, n_spec.entries[i as int].0));
                                assert(false);
                            }
                        }
                        Ok(None)
                    },
                    Ok(Some((k, v))) => {
                        proof {
                            if wf {
                                lemma_subtree_entries_wf(
                                    m,
                                    ctx,
                                    cmp,
                                    spec_child_addr(n_spec, i as int),
                                    lvl - 1,
                                );
                                assert(sub.contains((k@, v@)));
                                lemma_children_entries_contains(
                                    m,
                                    ctx,
                                    addr,
                                    lvl,
                                    i as int,
                                    count as int,
                                    (k@, v@),
                                );
                                assert(es.contains((k@, v@)));
                                // The child's own smallest key is a floor
                                // candidate, so the result is at least the
                                // child's entry key.
                                assert(sub[0].0 == n_spec.entries[i as int].0);
                                assert(!spec_key_lt(cmp, key@, sub[0].0));
                                assert(!spec_key_lt(cmp, k@, sub[0].0));
                                assert forall|t: int|
                                    0 <= t < es.len() && !spec_key_lt(
                                        cmp,
                                        key@,
                                        (#[trigger] es[t]).0,
                                    ) implies !spec_key_lt(cmp, k@, es[t].0) by {
                                    assert(es[t] == es[t]);
                                    assert(es.contains(es[t]));
                                    lemma_children_entries_member_child(
                                        m,
                                        ctx,
                                        addr,
                                        lvl,
                                        count as int,
                                        es[t],
                                    );
                                    let j = choose|j: int|
                                        0 <= j < count && spec_subtree_entries(
                                            m,
                                            ctx,
                                            spec_child_addr(spec_node_at(m, ctx, addr), j),
                                            lvl - 1,
                                        ).contains(es[t]);
                                    let subj = spec_subtree_entries(
                                        m,
                                        ctx,
                                        spec_child_addr(n_spec, j),
                                        lvl - 1,
                                    );
                                    let tj = choose|tj: int|
                                        0 <= tj < subj.len() && subj[tj] == es[t];
                                    lemma_child_entry_key_bounds(m, ctx, cmp, addr, lvl, j);
                                    if j < i {
                                        assert(!spec_key_lt(cmp, k@, n_spec.entries[i as int].0));
                                        assert(spec_key_lt(cmp, es[t].0, n_spec.entries[j + 1].0));
                                        if j + 1 < i {
                                            assert(spec_key_lt(
                                                cmp,
                                                n_spec.entries[j + 1].0,
                                                n_spec.entries[i as int].0,
                                            ));
                                            lemma_key_lt_trans(
                                                cmp,
                                                es[t].0,
                                                n_spec.entries[j + 1].0,
                                                n_spec.entries[i as int].0,
                                            );
                                        }
                                        assert(spec_key_lt(cmp, es[t].0, n_spec.entries[i as int].0));
                                        if spec_key_lt(cmp, k@, es[t].0) {
                                            lemma_key_lt_trans(
                                                cmp,
                                                k@,
                                                es[t].0,
                                                n_spec.entries[i as int].0,
                                            );
                                        }
                                    } else if j == i {
                                        assert(subj == sub);
                                        assert(sub[tj] == es[t]);
                                    } else {
                                        assert(spec_key_lt(cmp, key@, n_spec.entries[j].0));
                                        assert(!spec_key_lt(cmp, es[t].0, n_spec.entries[j].0));
                                        lemma_key_lt_trichotomy(cmp, es[t].0, n_spec.entries[j].0);
                                        if spec_key_lt(cmp, n_spec.entries[j].0, es[t].0) {
                                            lemma_key_lt_trans(
                                                cmp,
                                                key@,
                                                n_spec.entries[j].0,
                                                es[t].0,
                                            );
                                        }
                                        assert(spec_key_lt(cmp, key@, es[t].0));
                                    }
                                }
                            }
                        }
                        Ok(Some((k, v)))
                    },
                }
            },
        }
    }
}

/// Check at runtime that a key is well formed for `cmp`.
fn key_wf_check(cmp: KeyComparator, k: &[u8]) -> (r: bool)
    ensures
        r == spec_key_wf(cmp, k@),
{
    match cmp {
        KeyComparator::Bytes => true,
        KeyComparator::ObjectMap => k.len() == 16,
    }
}

/// Check at runtime that a node's keys are well formed and strictly
/// sorted for `cmp`: the descent refuses nodes that are not.
fn wf_guard_sorted(node: &BTreeNodeBlock, cmp: KeyComparator) -> (r: bool)
    requires
        node.wf(),
    ensures
        r == (spec_entries_keys_wf(cmp, node.node_view().entries) && spec_entries_sorted(
            cmp,
            node.node_view().entries,
        )),
{
    let ghost es = node.node_view().entries;
    let count = node.key_count();
    let mut i: usize = 0;
    while i < count
        invariant
            0 <= i <= count,
            node.wf(),
            count == es.len(),
            es == node.node_view().entries,
            forall|j: int| 0 <= j < i ==> spec_key_wf(cmp, (#[trigger] es[j]).0),
            forall|j: int, l: int|
                #![trigger es[j], es[l]]
                0 <= j < l < i ==> spec_key_lt(cmp, es[j].0, es[l].0),
        decreases count - i,
    {
        let (k, _v) = node.entry(i);
        if !key_wf_check(cmp, k.as_slice()) {
            return false;
        }
        if i > 0 {
            let (prev, _pv) = node.entry(i - 1);
            let ord = compare_keys(cmp, prev.as_slice(), k.as_slice());
            if !matches!(ord, KeyOrdering::Less) {
                return false;
            }
            proof {
                assert forall|j: int, l: int|
                    #![trigger es[j], es[l]]
                    0 <= j < l < i + 1 implies spec_key_lt(cmp, es[j].0, es[l].0) by {
                    if l == i && j < i - 1 {
                        assert(spec_key_lt(cmp, es[j].0, es[i - 1].0));
                        lemma_key_lt_trans(cmp, es[j].0, es[i - 1].0, es[i as int].0);
                    }
                }
            }
        }
        i = i + 1;
    }
    true
}

/// Point lookup: the entry with the greatest key not exceeding `key` in
/// the tree rooted at `root`, or `None` when every key in the tree
/// exceeds it.
pub fn find_floor<R: BlockReader>(reader: &R, cmp: KeyComparator, root: u64, key: &[u8]) -> (r:
    Result<Option<(Vec<u8>, Vec<u8>)>, ApfsError>)
    requires
        reader.medium().wf(),
        spec_key_wf(cmp, key@),
    ensures
        spec_tree_wf(reader.medium(), cmp, root) && reader.reliable() ==> ({
            let es = spec_tree_entries(reader.medium(), root);
            match r {
                Ok(Some((k, v))) => {
                    &&& es.contains((k@, v@))
                    &&& !spec_key_lt(cmp, key@, k@)
                    &&& forall|t: int|
                        0 <= t < es.len() && !spec_key_lt(cmp, key@, (#[trigger] es[t]).0)
                            ==> !spec_key_lt(cmp, k@, es[t].0)
                },
                Ok(None) => forall|t: int|
                    0 <= t < es.len() ==> spec_key_lt(cmp, key@, (#[trigger] es[t]).0),
                Err(e) => false,
            }
        }),
{
    let ghost m = reader.medium();
    let ghost wf = spec_tree_wf(m, cmp, root) && reader.reliable();
    let block = match get_block_validated(reader, root) {
        Ok(b) => b,
        Err(e) => {
            proof {
                if wf {
                    assert(false);
                }
            }
            return Err(e);
        },
    };
    proof {
        if wf {
            lemma_root_parse_ctx_irrelevant(m.blocks[root as int], None, spec_tree_ctx(m, root));
        }
    }
    let node = match BTreeNodeBlock::from_block(block, None) {
        Ok(n) => n,
        Err(e) => {
            proof {
                if wf {
                    assert(false);
                }
            }
            return Err(e);
        },
    };
    if !node.is_root() {
        proof {
            if wf {
                assert(false);
            }
        }
        return Err(ApfsError::CorruptTree);
    }
    let ti = match node.tree_info() {
        Some(ti) => ti,
        None => {
            proof {
                if wf {
                    assert(false);
                }
            }
            return Err(ApfsError::CorruptTree);
        },
    };
    let level = node.level();
    proof {
        if wf {
            assert(Some((ti.key_size, ti.val_size)) == spec_tree_ctx(m, root));
            assert(level == spec_node_level(m.blocks[root as int]));
        }
    }
    find_floor_subtree(reader, Some((ti.key_size, ti.val_size)), cmp, root, level, key)
}

/// Point lookup for an exact key: `Some` with the stored value exactly
/// when the tree holds an entry whose key equals `key`.
pub fn find<R: BlockReader>(reader: &R, cmp: KeyComparator, root: u64, key: &[u8]) -> (r: Result<
    Option<(Vec<u8>, Vec<u8>)>,
    ApfsError,
>)
    requires
        reader.medium().wf(),
        spec_key_wf(cmp, key@),
    ensures
        spec_tree_wf(reader.medium(), cmp, root) && reader.reliable() ==> ({
            let es = spec_tree_entries(reader.medium(), root);
            match r {
                Ok(Some((k, v))) => k@ == key@ && es.contains((key@, v@)),
                Ok(None) => forall|t: int| 0 <= t < es.len() ==> (#[trigger] es[t]).0 != key@,
                Err(e) => false,
            }
        }),
{
    let ghost m = reader.medium();
    let ghost wf = spec_tree_wf(m, cmp, root) && reader.reliable();
    let ghost es = spec_tree_entries(m, root);
    let floor = find_floor(reader, cmp, root, key)?;
    match floor {
        None => {
            proof {
                if wf {
                    lemma_tree_entries_sorted(m, cmp, root);
                    assert forall|t: int| 0 <= t < es.len() implies (#[trigger] es[t]).0 != key@
                        by {
                        lemma_key_lt_trichotomy(cmp, key@, es[t].0);
                    }
                }
            }
            Ok(None)
        },
        Some((k, v)) => {
            proof {
                if wf {
                    lemma_tree_entries_sorted(m, cmp, root);
                    let t = choose|t: int| 0 <= t < es.len() && es[t] == (k@, v@);
                    assert(spec_key_wf(cmp, (es[t]).0));
                }
            }
            if !key_wf_check(cmp, k.as_slice()) {
                proof {
                    if wf {
                        assert(false);
                    }
                }
                return Err(ApfsError::CorruptTree);
            }
            let ord = compare_keys(cmp, k.as_slice(), key);
            match ord {
                KeyOrdering::Equal => {
                    proof {
                        if wf {
                            assert(es.contains((key@, v@)));
                        }
                    }
                    Ok(Some((k, v)))
                },
                _ => {
                    proof {
                        if wf {
                            assert forall|t: int| 0 <= t < es.len() implies (#[trigger] es[t]).0
                                != key@ by {
                                if es[t].0 == key@ {
                                    assert(!spec_key_lt(cmp, key@, es[t].0)) by {
                                        lemma_key_lt_trichotomy(cmp, key@, es[t].0);
                                    }
                                    assert(!spec_key_lt(cmp, k@, key@));
                                    lemma_key_lt_trichotomy(cmp, key@, k@);
                                    assert(k@ == key@);
                                    assert(false);
                                }
                            }
                        }
                    }
                    Ok(None)
                },
            }
        },
    }
}

} // verus!
