//! Version counters, shared by the views of one logical tensor value and
//! bumped on every in-place mutation.
use crate::graph::Graph;
use crate::tensor_impl::TensorImpl;
use vstd::prelude::*;

verus! {

/// The state of one counter: how many in-place mutations it has seen,
/// modulo 2^32.
#[derive(Clone, Copy, Debug, PartialEq, Eq, Structural)]
pub struct VersionCounter {
    pub version: u32,
}

impl VersionCounter {
    pub fn new(version: u32) -> (r: VersionCounter)
        ensures
            r.version == version,
    {
        VersionCounter { version }
    }
}

/// A shared handle on a counter held in a graph's counter table. Every
/// tensor that holds an equal handle shares the counter.
#[derive(Clone, Copy, Debug, PartialEq, Eq, Structural)]
pub struct TensorVersion {
    pub id: usize,
}

/// How many of the tensors hold the counter `id`.
pub open spec fn holders(ts: Seq<TensorImpl>, id: usize) -> nat
    decreases ts.len(),
{
    if ts.len() == 0 {
        0
    } else {
        holders(ts.drop_last(), id) + (if ts.last().version_spec().id == id { 1nat } else { 0nat })
    }
}

pub proof fn lemma_holders_step(ts: Seq<TensorImpl>, k: int, id: usize)
    requires
        0 <= k < ts.len(),
    ensures
        holders(ts.subrange(0, k + 1), id) == holders(ts.subrange(0, k), id) + (if ts[k].version_spec().id == id { 1nat } else { 0nat }),
{
    assert(ts.subrange(0, k + 1).drop_last() =~= ts.subrange(0, k));
}

impl TensorVersion {
    /// A fresh counter at version 0.
    pub fn new(g: &mut Graph) -> (r: TensorVersion)
        requires
            old(g).wf(),
        ensures
            final(g).wf(),
            r.id == old(g).versions_spec().len(),
            final(g).versions_spec() == old(g).versions_spec().push(VersionCounter { version: 0 }),
            final(g).tensors_spec() == old(g).tensors_spec(),
            final(g).nodes_spec() == old(g).nodes_spec(),
    {
        g.new_version_counter(0)
    }

    /// A fresh counter at the given version.
    pub fn new_with_version(g: &mut Graph, version: u32) -> (r: TensorVersion)
        requires
            old(g).wf(),
        ensures
            final(g).wf(),
            r.id == old(g).versions_spec().len(),
            final(g).versions_spec() == old(g).versions_spec().push(VersionCounter { version }),
            final(g).tensors_spec() == old(g).tensors_spec(),
            final(g).nodes_spec() == old(g).nodes_spec(),
    {
        g.new_version_counter(version)
    }

    /// Records an in-place mutation: the version goes up by one, wrapping
    /// at 2^32.
    pub fn bump(&self, g: &mut Graph)
        requires
            old(g).wf(),
            self.id < old(g).versions_spec().len(),
        ensures
            final(g).wf(),
            final(g).versions_spec() == old(g).versions_spec().update(
                self.id as int,
                VersionCounter { version: old(g).versions_spec()[self.id as int].version.wrapping_add(1) },
            ),
            final(g).tensors_spec() == old(g).tensors_spec(),
            final(g).nodes_spec() == old(g).nodes_spec(),
    {
        g.bump_version_counter(*self);
    }

    pub fn current_version(&self, g: &Graph) -> (r: u32)
        requires
            self.id < g.versions_spec().len(),
        ensures
            r == g.versions_spec()[self.id as int].version,
    {
        g.version(*self).version
    }

    /// Whether exactly one tensor of the graph holds this counter.
    pub fn unique(&self, g: &Graph) -> (r: bool)
        ensures
            r == (holders(g.tensors_spec(), self.id) == 1),
    {
        let n = g.num_tensors();
        let ghost ts = g.tensors_spec();
        let mut count: usize = 0;
        let mut k: usize = 0;
        proof {
            assert(ts.subrange(0, 0).len() == 0);
        }
        while k < n
            invariant
                k <= n,
                n == ts.len(),
                ts == g.tensors_spec(),
                count as nat == holders(ts.subrange(0, k as int), self.id),
                count <= 1,
            decreases n - k,
        {
            proof {
                lemma_holders_step(ts, k as int, self.id);
            }
            if g.tensor_impl(crate::node::Tensor { id: k }).version_counter().id == self.id {
                if count == 1 {
                    proof {
                        lemma_holders_mono(ts, k as int + 1, n as int, self.id);
                        assert(ts.subrange(0, n as int) =~= ts);
                    }
                    return false;
                }
                count = count + 1;
            }
            k = k + 1;
        }
        proof {
            assert(ts.subrange(0, n as int) =~= ts);
        }
        count == 1
    }
}

/// Holders over a prefix are at most the holders over a longer one.
pub proof fn lemma_holders_mono(ts: Seq<TensorImpl>, k: int, l: int, id: usize)
    requires
        0 <= k <= l <= ts.len(),
    ensures
        holders(ts.subrange(0, k), id) <= holders(ts.subrange(0, l), id),
    decreases l - k,
{
    if k < l {
        lemma_holders_mono(ts, k, l - 1, id);
        lemma_holders_step(ts, l - 1, id);
    }
    if l == ts.len() {
        assert(ts.subrange(0, l) =~= ts);
    }
}

} // verus!
