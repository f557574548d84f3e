//! Counting edges of a graph of backward nodes: the facts the engine's
//! dependency bookkeeping rests on.
use crate::graph::{edge_ok, node_ok};
use crate::node::{Edge, Node};
use vstd::prelude::*;

verus! {

/// How many of the first `k` edges lead to node `n`.
pub open spec fn count_to(edges: Seq<Edge>, k: int, n: int) -> nat
    decreases k,
{
    if k <= 0 {
        0
    } else {
        count_to(edges, k - 1, n) + (if edges[k - 1].function == Some(n as usize) { 1nat } else { 0nat })
    }
}

/// How many of the first `k` edges lead to some node.
pub open spec fn count_defined(edges: Seq<Edge>, k: int) -> nat
    decreases k,
{
    if k <= 0 {
        0
    } else {
        count_defined(edges, k - 1) + (if edges[k - 1].function is Some { 1nat } else { 0nat })
    }
}

/// How many edges of node `m` lead to node `n`.
pub open spec fn out_to(ns: Seq<Node>, m: int, n: int) -> nat {
    count_to(ns[m].next_edges@, ns[m].next_edges@.len() as int, n)
}

/// How many edges lead into node `n` from the nodes `lo..hi` marked in `s`.
pub open spec fn in_range(ns: Seq<Node>, s: Seq<bool>, lo: int, hi: int, n: int) -> nat
    decreases hi - lo,
{
    if lo >= hi {
        0
    } else {
        (if s[lo] { out_to(ns, lo, n) } else { 0nat }) + in_range(ns, s, lo + 1, hi, n)
    }
}

/// How many edges lead into node `n` from the nodes marked in `s`.
pub open spec fn in_count(ns: Seq<Node>, s: Seq<bool>, n: int) -> nat {
    in_range(ns, s, 0, ns.len() as int, n)
}

/// How many edges with a target leave the nodes `lo..hi` marked in `s`.
pub open spec fn defined_range(ns: Seq<Node>, s: Seq<bool>, lo: int, hi: int) -> nat
    decreases hi - lo,
{
    if lo >= hi {
        0
    } else {
        (if s[lo] { count_defined(ns[lo].next_edges@, ns[lo].next_edges@.len() as int) } else { 0nat })
            + defined_range(ns, s, lo + 1, hi)
    }
}

/// How many edges with a target leave the nodes marked in `s`.
pub open spec fn defined_count(ns: Seq<Node>, s: Seq<bool>) -> nat {
    defined_range(ns, s, 0, ns.len() as int)
}

/// Sum of a list of counts.
pub open spec fn seq_sum(s: Seq<usize>) -> int
    decreases s.len(),
{
    if s.len() == 0 {
        0
    } else {
        seq_sum(s.drop_last()) + s.last()
    }
}

/// `r` is exactly the set of nodes reachable from `root`: it holds the
/// root, it is closed under edges, and each node in it but the root has a
/// predecessor in it.
pub open spec fn is_reach_set(ns: Seq<Node>, root: int, r: Seq<bool>) -> bool {
    &&& r.len() == ns.len()
    &&& 0 <= root < ns.len()
    &&& r[root]
    &&& forall|n: int| 0 <= n < r.len() && r[n] ==> n <= root
    &&& forall|m: int, i: int|
        0 <= m < ns.len() && r[m] && 0 <= i < ns[m].next_edges@.len() && (#[trigger] ns[m].next_edges@[i]).function is Some
            ==> r[ns[m].next_edges@[i].function->0 as int]
    &&& forall|n: int| 0 <= n < r.len() && r[n] && n != root ==> exists|m: int| 0 <= m < ns.len() && r[m] && #[trigger] out_to(ns, m, n) > 0
}

/// Every edge leads to an earlier node.
pub open spec fn edges_descend(ns: Seq<Node>) -> bool {
    forall|m: int, i: int|
        0 <= m < ns.len() && 0 <= i < ns[m].next_edges@.len() && (#[trigger] ns[m].next_edges@[i]).function is Some
            ==> ns[m].next_edges@[i].function->0 < m
}

pub proof fn lemma_descend(ns: Seq<Node>, ntensors: nat)
    requires
        forall|n: int| 0 <= n < ns.len() ==> node_ok(ns, ntensors, n),
    ensures
        edges_descend(ns),
{
    assert forall|m: int, i: int|
        0 <= m < ns.len() && 0 <= i < ns[m].next_edges@.len() && (#[trigger] ns[m].next_edges@[i]).function is Some
            implies ns[m].next_edges@[i].function->0 < m by {
        assert(node_ok(ns, ntensors, m));
        assert(edge_ok(ns, m, ns[m].next_edges@[i]));
    }
}

pub proof fn lemma_count_to_step(edges: Seq<Edge>, k: int, n: int)
    requires
        0 <= k,
    ensures
        count_to(edges, k + 1, n) == count_to(edges, k, n) + (if edges[k].function == Some(n as usize) { 1nat } else { 0nat }),
{
}

/// An edge to `n` among the first `k` makes the count positive, and an
/// edge to a later node `n` from `m` means `n < m`.
pub proof fn lemma_count_to_pos(edges: Seq<Edge>, k: int, i: int, n: int)
    requires
        0 <= i < k,
        edges[i].function == Some(n as usize),
    ensures
        count_to(edges, k, n) > 0,
    decreases k,
{
    if i < k - 1 {
        lemma_count_to_pos(edges, k - 1, i, n);
    }
}

/// A positive count has a witness edge.
pub proof fn lemma_count_to_witness(edges: Seq<Edge>, k: int, n: int) -> (i: int)
    requires
        count_to(edges, k, n) > 0,
    ensures
        0 <= i < k,
        edges[i].function == Some(n as usize),
    decreases k,
{
    if k <= 0 {
        0
    } else if edges[k - 1].function == Some(n as usize) {
        k - 1
    } else {
        lemma_count_to_witness(edges, k - 1, n)
    }
}

/// Edges out of `m` lead to nodes before `m`.
pub proof fn lemma_out_to_below(ns: Seq<Node>, m: int, n: int)
    requires
        edges_descend(ns),
        0 <= m < ns.len(),
        0 <= n <= usize::MAX,
        out_to(ns, m, n) > 0,
    ensures
        n < m,
{
    let i = lemma_count_to_witness(ns[m].next_edges@, ns[m].next_edges@.len() as int, n);
    assert(ns[m].next_edges@[i].function is Some);
}

/// Marking a node changes only the counts that include it.
pub proof fn lemma_in_range_mark(ns: Seq<Node>, s: Seq<bool>, lo: int, hi: int, v: int, n: int)
    requires
        0 <= lo <= hi <= s.len(),
        hi <= ns.len(),
        0 <= v < s.len(),
        !s[v],
    ensures
        in_range(ns, s.update(v, true), lo, hi, n) == in_range(ns, s, lo, hi, n) + (if lo <= v < hi { out_to(ns, v, n) } else { 0nat }),
    decreases hi - lo,
{
    if lo < hi {
        lemma_in_range_mark(ns, s, lo + 1, hi, v, n);
    }
}

/// Marks outside `lo..hi` do not change counts over `lo..hi`.
pub proof fn lemma_in_range_frame(ns: Seq<Node>, s: Seq<bool>, t: Seq<bool>, lo: int, hi: int, n: int)
    requires
        0 <= lo,
        hi <= s.len(),
        hi <= t.len(),
        forall|j: int| lo <= j < hi ==> s[j] == t[j],
    ensures
        in_range(ns, s, lo, hi, n) == in_range(ns, t, lo, hi, n),
        defined_range(ns, s, lo, hi) == defined_range(ns, t, lo, hi),
    decreases hi - lo,
{
    if lo < hi {
        lemma_in_range_frame(ns, s, t, lo + 1, hi, n);
    }
}

/// If fewer edges come into `n` from `d` than from a superset `r`, some
/// node of `r` outside `d` has an edge into `n`.
pub proof fn lemma_in_range_witness(ns: Seq<Node>, d: Seq<bool>, r: Seq<bool>, lo: int, hi: int, n: int) -> (m: int)
    requires
        0 <= lo <= hi,
        hi <= d.len(),
        hi <= r.len(),
        forall|j: int| lo <= j < hi && d[j] ==> r[j],
        in_range(ns, d, lo, hi, n) < in_range(ns, r, lo, hi, n),
    ensures
        lo <= m < hi,
        r[m],
        !d[m],
        out_to(ns, m, n) > 0,
    decreases hi - lo,
{
    if lo >= hi {
        lo
    } else if r[lo] && !d[lo] && out_to(ns, lo, n) > 0 {
        lo
    } else {
        lemma_in_range_witness(ns, d, r, lo + 1, hi, n)
    }
}

/// A subset has at most as many incoming edges.
pub proof fn lemma_in_range_mono(ns: Seq<Node>, d: Seq<bool>, r: Seq<bool>, lo: int, hi: int, n: int)
    requires
        0 <= lo <= hi,
        hi <= d.len(),
        hi <= r.len(),
        forall|j: int| lo <= j < hi && d[j] ==> r[j],
    ensures
        in_range(ns, d, lo, hi, n) <= in_range(ns, r, lo, hi, n),
    decreases hi - lo,
{
    if lo < hi {
        lemma_in_range_mono(ns, d, r, lo + 1, hi, n);
    }
}

/// Nodes not marked contribute nothing.
pub proof fn lemma_in_range_empty(ns: Seq<Node>, s: Seq<bool>, lo: int, hi: int, n: int)
    requires
        0 <= lo,
        hi <= s.len(),
        forall|j: int| lo <= j < hi ==> !s[j],
    ensures
        in_range(ns, s, lo, hi, n) == 0,
        defined_range(ns, s, lo, hi) == 0,
    decreases hi - lo,
{
    if lo < hi {
        lemma_in_range_empty(ns, s, lo + 1, hi, n);
    }
}

pub proof fn lemma_seq_sum_update(s: Seq<usize>, i: int, v: usize)
    requires
        0 <= i < s.len(),
    ensures
        seq_sum(s.update(i, v)) == seq_sum(s) - s[i] + v,
    decreases s.len(),
{
    let t = s.update(i, v);
    if i == s.len() - 1 {
        assert(t.drop_last() =~= s.drop_last());
    } else {
        assert(t.drop_last() =~= s.drop_last().update(i, v));
        lemma_seq_sum_update(s.drop_last(), i, v);
    }
}

pub proof fn lemma_seq_sum_zeros(n: nat)
    ensures
        seq_sum(Seq::new(n, |i: int| 0usize)) == 0,
    decreases n,
{
    if n > 0 {
        assert(Seq::new(n, |i: int| 0usize).drop_last() =~= Seq::new((n - 1) as nat, |i: int| 0usize));
        lemma_seq_sum_zeros((n - 1) as nat);
    }
}

/// Every node marked.
pub open spec fn all_marked(n: nat) -> Seq<bool> {
    Seq::new(n, |i: int| true)
}

/// How many edges of the whole graph have a target.
pub open spec fn graph_edges(ns: Seq<Node>) -> nat {
    defined_count(ns, all_marked(ns.len()))
}

pub proof fn lemma_seq_sum_ge(s: Seq<usize>, i: int)
    requires
        0 <= i < s.len(),
    ensures
        s[i] <= seq_sum(s),
    decreases s.len(),
{
    lemma_seq_sum_nonneg(s.drop_last());
    if i < s.len() - 1 {
        lemma_seq_sum_ge(s.drop_last(), i);
    }
}

pub proof fn lemma_seq_sum_nonneg(s: Seq<usize>)
    ensures
        seq_sum(s) >= 0,
    decreases s.len(),
{
    if s.len() > 0 {
        lemma_seq_sum_nonneg(s.drop_last());
    }
}

pub proof fn lemma_count_defined_mono(edges: Seq<Edge>, k: int, l: int)
    requires
        k <= l,
    ensures
        count_defined(edges, k) <= count_defined(edges, l),
    decreases l - k,
{
    if k < l {
        lemma_count_defined_mono(edges, k, l - 1);
    }
}

/// Counts over a subset are at most those over the superset, and counts
/// over a suffix at most those over the whole range.
pub proof fn lemma_defined_range_mono(ns: Seq<Node>, d: Seq<bool>, r: Seq<bool>, lo: int, hi: int)
    requires
        0 <= lo <= hi,
        hi <= d.len(),
        hi <= r.len(),
        forall|j: int| lo <= j < hi && d[j] ==> r[j],
    ensures
        defined_range(ns, d, lo, hi) <= defined_range(ns, r, lo, hi),
    decreases hi - lo,
{
    if lo < hi {
        lemma_defined_range_mono(ns, d, r, lo + 1, hi);
    }
}

pub proof fn lemma_defined_range_suffix(ns: Seq<Node>, r: Seq<bool>, lo: int, mid: int, hi: int)
    requires
        0 <= lo <= mid <= hi,
    ensures
        defined_range(ns, r, mid, hi) <= defined_range(ns, r, lo, hi),
    decreases mid - lo,
{
    if lo < mid {
        lemma_defined_range_suffix(ns, r, lo + 1, mid, hi);
    }
}

/// How many of the flags are unset.
pub open spec fn count_unmarked(s: Seq<bool>) -> nat
    decreases s.len(),
{
    if s.len() == 0 {
        0
    } else {
        count_unmarked(s.drop_last()) + (if s.last() { 0nat } else { 1nat })
    }
}

pub proof fn lemma_count_unmarked_mark(s: Seq<bool>, i: int)
    requires
        0 <= i < s.len(),
        !s[i],
    ensures
        count_unmarked(s.update(i, true)) + 1 == count_unmarked(s),
    decreases s.len(),
{
    let t = s.update(i, true);
    if i == s.len() - 1 {
        assert(t.drop_last() =~= s.drop_last());
    } else {
        assert(t.drop_last() =~= s.drop_last().update(i, true));
        lemma_count_unmarked_mark(s.drop_last(), i);
    }
}

pub proof fn lemma_count_to_mono(edges: Seq<Edge>, k: int, l: int, n: int)
    requires
        k <= l,
    ensures
        count_to(edges, k, n) <= count_to(edges, l, n),
    decreases l - k,
{
    if k < l {
        lemma_count_to_mono(edges, k, l - 1, n);
    }
}

/// A marked node's edges into `n` are part of the count into `n`.
pub proof fn lemma_in_range_ge(ns: Seq<Node>, s: Seq<bool>, lo: int, hi: int, m: int, n: int)
    requires
        0 <= lo <= m < hi,
        s[m],
    ensures
        in_range(ns, s, lo, hi, n) >= out_to(ns, m, n),
    decreases hi - lo,
{
    if lo < m {
        lemma_in_range_ge(ns, s, lo + 1, hi, m, n);
    }
}

} // verus!
