//! The gradient that reaches each node of a backward graph in which every
//! reachable node but the root has a single reachable edge into it.
use crate::counting::{count_to, edges_descend, in_count, in_range, lemma_count_to_pos, lemma_in_range_ge, out_to};
use crate::node::{Node, NodeKind, apply_spec, grad_mul};
use vstd::prelude::*;

verus! {

/// Edge `i` of reachable node `m` leads to `n`.
pub open spec fn in_edge(ns: Seq<Node>, r: Seq<bool>, n: int, m: int, i: int) -> bool {
    &&& 0 <= m < ns.len()
    &&& m < r.len()
    &&& r[m]
    &&& 0 <= i < ns[m].next_edges@.len()
    &&& ns[m].next_edges@[i].function == Some(n as usize)
}

/// Every reachable node but the root has exactly one reachable edge into
/// it, and that edge leads to input slot 0.
pub open spec fn is_tree(ns: Seq<Node>, r: Seq<bool>, root: int) -> bool {
    &&& forall|n: int| 0 <= n < ns.len() && r[n] && n != root ==> #[trigger] in_count(ns, r, n) == 1
    &&& forall|n: int, m: int, i: int| 0 <= n < ns.len() && #[trigger] in_edge(ns, r, n, m, i) ==> ns[m].next_edges@[i].input_nr == 0
}

/// The gradient that reaches node `n`: what its single predecessor hands
/// on over the edge into it; nothing for the root.
pub open spec fn tree_grad(ns: Seq<Node>, r: Seq<bool>, root: int, n: int) -> Seq<i64>
    decreases ns.len() - n,
{
    if 0 <= n < ns.len() && n != root && exists|m: int, i: int| n < m && in_edge(ns, r, n, m, i) {
        let (m, i) = choose|m: int, i: int| n < m && in_edge(ns, r, n, m, i);
        apply_spec(ns[m].kind, tree_grad(ns, r, root, m))[i]
    } else {
        Seq::empty()
    }
}

proof fn lemma_count_to_two(edges: Seq<crate::node::Edge>, k: int, i1: int, i2: int, n: int)
    requires
        0 <= i1 < i2 < k,
        edges[i1].function == Some(n as usize),
        edges[i2].function == Some(n as usize),
    ensures
        count_to(edges, k, n) >= 2,
    decreases k,
{
    if i2 < k - 1 {
        lemma_count_to_two(edges, k - 1, i1, i2, n);
    } else {
        lemma_count_to_pos(edges, k - 1, i1, n);
    }
}

proof fn lemma_in_range_two(ns: Seq<Node>, s: Seq<bool>, lo: int, hi: int, m1: int, m2: int, n: int)
    requires
        0 <= lo <= m1 < m2 < hi,
        s[m1],
        s[m2],
        out_to(ns, m1, n) > 0,
        out_to(ns, m2, n) > 0,
    ensures
        in_range(ns, s, lo, hi, n) >= 2,
    decreases hi - lo,
{
    if lo < m1 {
        lemma_in_range_two(ns, s, lo + 1, hi, m1, m2, n);
    } else {
        lemma_in_range_ge(ns, s, lo + 1, hi, m2, n);
    }
}

/// In a tree, the edge into a node is unique.
pub proof fn lemma_in_edge_unique(ns: Seq<Node>, r: Seq<bool>, root: int, n: int, m1: int, i1: int, m2: int, i2: int)
    requires
        is_tree(ns, r, root),
        r.len() == ns.len(),
        0 <= n < ns.len(),
        r[n],
        n != root,
        in_edge(ns, r, n, m1, i1),
        in_edge(ns, r, n, m2, i2),
    ensures
        m1 == m2,
        i1 == i2,
{
    assert(in_count(ns, r, n) == 1);
    let nn = ns.len() as int;
    lemma_count_to_pos(ns[m1].next_edges@, ns[m1].next_edges@.len() as int, i1, n);
    lemma_count_to_pos(ns[m2].next_edges@, ns[m2].next_edges@.len() as int, i2, n);
    if m1 < m2 {
        lemma_in_range_two(ns, r, 0, nn, m1, m2, n);
    } else if m2 < m1 {
        lemma_in_range_two(ns, r, 0, nn, m2, m1, n);
    } else if i1 < i2 {
        lemma_count_to_two(ns[m1].next_edges@, ns[m1].next_edges@.len() as int, i1, i2, n);
        lemma_in_range_ge(ns, r, 0, nn, m1, n);
    } else if i2 < i1 {
        lemma_count_to_two(ns[m1].next_edges@, ns[m1].next_edges@.len() as int, i2, i1, n);
        lemma_in_range_ge(ns, r, 0, nn, m1, n);
    }
}

/// In a tree, the gradient reaching `n` is what its predecessor over the
/// edge into it hands on.
pub proof fn lemma_tree_grad_step(ns: Seq<Node>, r: Seq<bool>, root: int, n: int, m: int, i: int)
    requires
        is_tree(ns, r, root),
        edges_descend(ns),
        r.len() == ns.len(),
        0 <= n < ns.len(),
        r[n],
        n != root,
        in_edge(ns, r, n, m, i),
        ns.len() <= usize::MAX,
    ensures
        tree_grad(ns, r, root, n) == apply_spec(ns[m].kind, tree_grad(ns, r, root, m))[i],
{
    assert(ns[m].next_edges@[i].function is Some);
    assert(n < m);
    let (m2, i2) = choose|m2: int, i2: int| n < m2 && in_edge(ns, r, n, m2, i2);
    lemma_in_edge_unique(ns, r, root, n, m, i, m2, i2);
}

/// The root hands edge `i`'s seed to the node the edge leads to.
pub proof fn root_flow_law(ns: Seq<Node>, r: Seq<bool>, root: int, x: int, i: int, seeds: Vec<Vec<i64>>)
    requires
        is_tree(ns, r, root),
        edges_descend(ns),
        r.len() == ns.len(),
        ns.len() <= usize::MAX,
        0 <= x < ns.len(),
        r[x],
        x != root,
        in_edge(ns, r, x, root, i),
        ns[root].kind == (NodeKind::GraphRoot { seeds }),
        i < seeds@.len(),
    ensures
        tree_grad(ns, r, root, x) == seeds@[i]@,
{
    lemma_tree_grad_step(ns, r, root, x, root, i);
}

/// For `y = a + b` in a tree-shaped run, each operand receives the
/// gradient that reaches the addition.
pub proof fn additive_flow_law(ns: Seq<Node>, r: Seq<bool>, root: int, n: int, x: int, i: int)
    requires
        is_tree(ns, r, root),
        edges_descend(ns),
        r.len() == ns.len(),
        ns.len() <= usize::MAX,
        0 <= x < ns.len(),
        r[x],
        x != root,
        in_edge(ns, r, x, n, i),
        ns[n].kind == NodeKind::AddBackward,
        i < 2,
    ensures
        tree_grad(ns, r, root, x) == tree_grad(ns, r, root, n),
{
    lemma_tree_grad_step(ns, r, root, x, n, i);
}

/// For `y = a * b` in a tree-shaped run, with `g` the gradient that reaches
/// the product, `a` receives `g * b` and `b` receives `g * a`.
pub proof fn multiplicative_flow_law(ns: Seq<Node>, r: Seq<bool>, root: int, n: int, x: int, i: int, a: Vec<i64>, b: Vec<i64>)
    requires
        is_tree(ns, r, root),
        edges_descend(ns),
        r.len() == ns.len(),
        ns.len() <= usize::MAX,
        0 <= x < ns.len(),
        r[x],
        x != root,
        in_edge(ns, r, x, n, i),
        ns[n].kind == (NodeKind::MulBackward { self_: a, other: b }),
        i < 2,
    ensures
        i == 0 ==> tree_grad(ns, r, root, x) == grad_mul(tree_grad(ns, r, root, n), b@),
        i == 1 ==> tree_grad(ns, r, root, x) == grad_mul(tree_grad(ns, r, root, n), a@),
{
    lemma_tree_grad_step(ns, r, root, x, n, i);
}

} // verus!
