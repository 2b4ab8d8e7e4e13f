//! Ready-made scan visitors: collecting every entry, and stopping a scan
//! after a fixed number of entries.

use vstd::prelude::*;

verus! {

use vstd::slice::slice_to_vec;
use crate::error::ApfsError;
use crate::block::BlockReader;
use crate::tree::{
    spec_scan_aborts, spec_scan_count, spec_tree_entries, spec_tree_wf, walk, TreeVisitor,
};
use crate::order::KeyComparator;

/// The byte-level view of a vector of owned entries.
pub open spec fn spec_entry_views(es: Seq<(Vec<u8>, Vec<u8>)>) -> Seq<(Seq<u8>, Seq<u8>)> {
    es.map_values(|p: (Vec<u8>, Vec<u8>)| (p.0@, p.1@))
}

/// A visitor that copies every entry it is shown and never stops the scan.
pub struct CollectVisitor {
    entries: Vec<(Vec<u8>, Vec<u8>)>,
}

impl CollectVisitor {
    /// An empty collector.
    pub fn new() -> (r: Self)
        ensures
            r.visited() == Seq::<(Seq<u8>, Seq<u8>)>::empty(),
    {
        let r = CollectVisitor { entries: Vec::new() };
        proof {
            assert(r.visited() =~= Seq::<(Seq<u8>, Seq<u8>)>::empty());
        }
        r
    }

    /// The collected entries.
    pub fn into_entries(self) -> (r: Vec<(Vec<u8>, Vec<u8>)>)
        ensures
            spec_entry_views(r@) == self.visited(),
    {
        self.entries
    }
}

impl TreeVisitor for CollectVisitor {
    closed spec fn visited(&self) -> Seq<(Seq<u8>, Seq<u8>)> {
        spec_entry_views(self.entries@)
    }

    open spec fn spec_aborts(
        &self,
        prior: Seq<(Seq<u8>, Seq<u8>)>,
        key: Seq<u8>,
        value: Seq<u8>,
    ) -> bool {
        false
    }

    fn visit(&mut self, key: &[u8], value: &[u8]) -> (r: Result<(), ApfsError>) {
        self.entries.push((slice_to_vec(key), slice_to_vec(value)));
        proof {
            assert(self.visited() =~= old(self).visited().push((key@, value@)));
        }
        Ok(())
    }
}

/// A collector never stops a scan.
pub proof fn lemma_collect_never_aborts(
    vis: CollectVisitor,
    prior: Seq<(Seq<u8>, Seq<u8>)>,
    es: Seq<(Seq<u8>, Seq<u8>)>,
)
    ensures
        !spec_scan_aborts(vis, prior, es),
        spec_scan_count(vis, prior, es) == es.len(),
    decreases es.len(),
{
    if es.len() > 0 {
        lemma_collect_never_aborts(vis, prior.push(es[0]), es.skip(1));
    }
}

/// Scan the whole tree rooted at `root` and return every leaf entry, in
/// key order for a well-formed tree.
pub fn walk_collect<R: BlockReader>(reader: &R, cmp: KeyComparator, root: u64) -> (r: Result<
    Vec<(Vec<u8>, Vec<u8>)>,
    ApfsError,
>)
    requires
        reader.medium().wf(),
    ensures
        spec_tree_wf(reader.medium(), cmp, root) && reader.reliable() ==> match r {
            Ok(entries) => spec_entry_views(entries@) == spec_tree_entries(reader.medium(), root),
            Err(e) => false,
        },
{
    let ghost m = reader.medium();
    let ghost wf = spec_tree_wf(m, cmp, root) && reader.reliable();
    let mut vis = CollectVisitor::new();
    let ghost vis0 = vis;
    let outcome = walk(reader, cmp, root, &mut vis);
    proof {
        if wf {
            let es = spec_tree_entries(m, root);
            lemma_collect_never_aborts(vis0, Seq::empty(), es);
            assert(es.take(es.len() as int) =~= es);
            assert(Seq::<(Seq<u8>, Seq<u8>)>::empty() + es =~= es);
        }
    }
    match outcome {
        Ok(()) => Ok(vis.into_entries()),
        Err(e) => {
            proof {
                if wf {
                    assert(false);
                }
            }
            Err(e)
        },
    }
}

/// A visitor that stops the scan on the entry with which the number of
/// visited entries reaches its limit, and otherwise only counts.
pub struct LimitVisitor {
    limit: u64,
    seen: u64,
    history: Ghost<Seq<(Seq<u8>, Seq<u8>)>>,
}

impl LimitVisitor {
    #[verifier::type_invariant]
    spec fn type_inv(self) -> bool {
        self.seen == if self.history@.len() < self.limit {
            self.history@.len() as int
        } else {
            self.limit as int
        }
    }

    /// The number of entries after which the scan is stopped.
    pub closed spec fn spec_limit(&self) -> u64 {
        self.limit
    }

    /// A fresh visitor stopping the scan on the `limit`-th entry.
    pub fn new(limit: u64) -> (r: Self)
        ensures
            r.visited() == Seq::<(Seq<u8>, Seq<u8>)>::empty(),
            r.spec_limit() == limit,
    {
        LimitVisitor { limit, seen: 0, history: Ghost(Seq::empty()) }
    }

    /// How many entries this visitor has been shown, saturating at the
    /// limit.
    pub fn seen(&self) -> (r: u64)
        ensures
            r == if self.visited().len() < self.spec_limit() {
                self.visited().len() as int
            } else {
                self.spec_limit() as int
            },
    {
        proof {
            use_type_invariant(&*self);
        }
        self.seen
    }
}

impl TreeVisitor for LimitVisitor {
    closed spec fn visited(&self) -> Seq<(Seq<u8>, Seq<u8>)> {
        self.history@
    }

    closed spec fn spec_aborts(
        &self,
        prior: Seq<(Seq<u8>, Seq<u8>)>,
        key: Seq<u8>,
        value: Seq<u8>,
    ) -> bool {
        prior.len() + 1 >= self.limit
    }

    fn visit(&mut self, key: &[u8], value: &[u8]) -> (r: Result<(), ApfsError>) {
        proof {
            use_type_invariant(&*self);
        }
        let aborts = self.limit == 0 || self.seen >= self.limit - 1;
        let new_seen = if self.seen < self.limit {
            self.seen + 1
        } else {
            self.seen
        };
        let ghost new_hist = self.history@.push((key@, value@));
        *self = LimitVisitor { limit: self.limit, seen: new_seen, history: Ghost(new_hist) };
        if aborts {
            Err(ApfsError::Aborted)
        } else {
            Ok(())
        }
    }
}

/// Stopping rule of a limited scan: a scan of `es` by a fresh limited
/// visitor with a limit of at least one stops early exactly when the
/// entries reach the limit, and then shows exactly `limit` entries.
pub proof fn lemma_limit_scan(vis: LimitVisitor, prior: Seq<(Seq<u8>, Seq<u8>)>, es: Seq<
    (Seq<u8>, Seq<u8>),
>)
    ensures
        spec_scan_aborts(vis, prior, es) <==> (es.len() >= 1 && prior.len() + es.len()
            >= vis.spec_limit()),
        spec_scan_aborts(vis, prior, es) ==> spec_scan_count(vis, prior, es) == if vis.spec_limit()
            > prior.len() + 1 {
            vis.spec_limit() - prior.len()
        } else {
            1int
        },
        !spec_scan_aborts(vis, prior, es) ==> spec_scan_count(vis, prior, es) == es.len(),
    decreases es.len(),
{
    if es.len() > 0 && !vis.spec_aborts(prior, es[0].0, es[0].1) {
        lemma_limit_scan(vis, prior.push(es[0]), es.skip(1));
    }
}

} // verus!
