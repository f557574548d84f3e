//! The engine: counts, for every node reachable from the roots of a
//! backward call, how many edges lead into it, then runs each node once all
//! of them have delivered, routing every gradient to the input slot its
//! edge names.
use crate::counting::{
    all_marked, count_defined, count_to, defined_count, defined_range, edges_descend, graph_edges,
    in_count, in_range, is_reach_set, lemma_count_defined_mono, lemma_count_to_step, lemma_defined_range_mono,
    lemma_defined_range_suffix, lemma_descend, lemma_in_range_empty, lemma_in_range_frame, lemma_seq_sum_ge,
    lemma_seq_sum_update, lemma_seq_sum_zeros, out_to, seq_sum, count_unmarked, lemma_count_unmarked_mark,
    lemma_count_to_mono, lemma_in_range_ge, lemma_in_range_mark, lemma_in_range_mono, lemma_in_range_witness,
    lemma_count_to_pos, lemma_out_to_below,
};
use crate::error::AutogradError;
use crate::flow::{in_edge, is_tree, lemma_tree_grad_step, tree_grad};
use crate::graph::Graph;
use crate::graph::{edge_ok, node_ok};
use crate::node::{Edge, Node, NodeKind, apply_spec, grad_sum, grad_sum_exec, num_outputs};
use vstd::prelude::*;

verus! {

/// The state of the dependency sweep once the nodes from `m` on are
/// visited: the marks and counts are those of the visited marked nodes.
#[verifier::opaque]
pub open spec fn sweep_inv(ns: Seq<Node>, r: Seq<bool>, d: Seq<usize>, m: int, root: int) -> bool {
    &&& r.len() == ns.len()
    &&& d.len() == ns.len()
    &&& 0 <= root < ns.len()
    &&& 0 <= m <= root + 1
    &&& r[root]
    &&& forall|j: int| 0 <= j < ns.len() && r[j] ==> j <= root
    &&& forall|x: int| 0 <= x < ns.len() ==> #[trigger] d[x] == in_range(ns, r, m, ns.len() as int, x)
    &&& seq_sum(d) == defined_range(ns, r, m, ns.len() as int)
    &&& forall|j: int, i: int|
        m <= j < ns.len() && r[j] && 0 <= i < ns[j].next_edges@.len() && (#[trigger] ns[j].next_edges@[i]).function is Some
            ==> r[ns[j].next_edges@[i].function->0 as int]
    &&& forall|x: int| 0 <= x < ns.len() && r[x] && x != root ==> exists|j: int| m <= j < ns.len() && r[j] && #[trigger] out_to(ns, j, x) > 0
}

proof fn lemma_sweep_init(ns: Seq<Node>, r: Seq<bool>, d: Seq<usize>, root: int)
    requires
        0 <= root < ns.len(),
        r == Seq::new(ns.len(), |i: int| false).update(root, true),
        d == Seq::new(ns.len(), |i: int| 0usize),
    ensures
        sweep_inv(ns, r, d, root + 1, root),
{
    reveal(sweep_inv);
    let n = ns.len() as int;
    lemma_seq_sum_zeros(ns.len());
    lemma_in_range_empty(ns, r, root + 1, n, 0);
    assert forall|x: int| 0 <= x < n implies #[trigger] d[x] == in_range(ns, r, root + 1, n, x) by {
        lemma_in_range_empty(ns, r, root + 1, n, x);
    }
}

proof fn lemma_sweep_facts(ns: Seq<Node>, r: Seq<bool>, d: Seq<usize>, m: int, root: int)
    requires
        sweep_inv(ns, r, d, m + 1, root),
        0 <= m,
    ensures
        r.len() == ns.len(),
        d.len() == ns.len(),
        m <= root,
        r[root],
        forall|j: int| 0 <= j < r.len() && r[j] ==> j <= root,
        forall|x: int| 0 <= x < ns.len() ==> #[trigger] d[x] == in_range(ns, r, m + 1, ns.len() as int, x),
        seq_sum(d) == defined_range(ns, r, m + 1, ns.len() as int),
{
    reveal(sweep_inv);
}

proof fn lemma_sweep_skip(ns: Seq<Node>, r: Seq<bool>, d: Seq<usize>, m: int, root: int)
    requires
        sweep_inv(ns, r, d, m + 1, root),
        0 <= m,
        !r[m],
    ensures
        sweep_inv(ns, r, d, m, root),
{
    reveal(sweep_inv);
    let n = ns.len() as int;
    assert forall|x: int| 0 <= x < n implies #[trigger] d[x] == in_range(ns, r, m, n, x) by {
    }
    assert forall|x: int| 0 <= x < n && r[x] && x != root implies
        exists|j: int| m <= j < n && r[j] && #[trigger] out_to(ns, j, x) > 0 by {
        let j = choose|j: int| m + 1 <= j < n && r[j] && #[trigger] out_to(ns, j, x) > 0;
    }
}

proof fn lemma_sweep_visit(ns: Seq<Node>, r0: Seq<bool>, d0: Seq<usize>, r1: Seq<bool>, d1: Seq<usize>, m: int, root: int)
    requires
        edges_descend(ns),
        sweep_inv(ns, r0, d0, m + 1, root),
        0 <= m,
        r0[m],
        r1.len() == ns.len(),
        d1.len() == ns.len(),
        forall|j: int| m <= j < ns.len() ==> r1[j] == r0[j],
        forall|j: int| 0 <= j < ns.len() && r0[j] ==> r1[j],
        forall|j: int| 0 <= j < ns.len() && r1[j] ==> j <= root,
        forall|x: int| 0 <= x < ns.len() ==> #[trigger] d1[x] == in_range(ns, r0, m + 1, ns.len() as int, x) + out_to(ns, m, x),
        seq_sum(d1) == defined_range(ns, r0, m, ns.len() as int),
        forall|ii: int| 0 <= ii < ns[m].next_edges@.len() && (#[trigger] ns[m].next_edges@[ii]).function is Some
            ==> r1[ns[m].next_edges@[ii].function->0 as int],
        forall|x: int| 0 <= x < ns.len() && r1[x] && !r0[x] ==> #[trigger] out_to(ns, m, x) > 0,
    ensures
        sweep_inv(ns, r1, d1, m, root),
{
    reveal(sweep_inv);
    let n = ns.len() as int;
    lemma_sweep_step(ns, r0, r1, m, root);
    assert forall|x: int| 0 <= x < n implies #[trigger] d1[x] == in_range(ns, r1, m, n, x) by {
        lemma_in_range_frame(ns, r1, r0, m, n, x);
    }
    lemma_in_range_frame(ns, r1, r0, m, n, 0);
}

proof fn lemma_sweep_done(ns: Seq<Node>, r: Seq<bool>, d: Seq<usize>, root: int)
    requires
        sweep_inv(ns, r, d, 0, root),
    ensures
        is_reach_set(ns, root, r),
        d.len() == ns.len(),
        forall|x: int| 0 <= x < ns.len() ==> #[trigger] d[x] == in_count(ns, r, x),
        seq_sum(d) == defined_count(ns, r),
{
    reveal(sweep_inv);
}

/// One step of the sweep keeps the marked set closed under the edges of
/// the visited nodes, each marked node but the root having a visited
/// marked predecessor.
proof fn lemma_sweep_step(ns: Seq<Node>, r0: Seq<bool>, r1: Seq<bool>, m: int, root: int)
    requires
        edges_descend(ns),
        0 <= m < ns.len(),
        r0.len() == ns.len(),
        r1.len() == ns.len(),
        r0[m],
        forall|j: int| m <= j < ns.len() ==> r1[j] == r0[j],
        forall|j: int| 0 <= j < ns.len() && r0[j] ==> r1[j],
        forall|ii: int| 0 <= ii < ns[m].next_edges@.len() && (#[trigger] ns[m].next_edges@[ii]).function is Some
            ==> r1[ns[m].next_edges@[ii].function->0 as int],
        forall|x: int| 0 <= x < ns.len() && r1[x] && !r0[x] ==> #[trigger] out_to(ns, m, x) > 0,
        forall|j: int, i: int|
            m < j < ns.len() && r0[j] && 0 <= i < ns[j].next_edges@.len() && (#[trigger] ns[j].next_edges@[i]).function is Some
                ==> r0[ns[j].next_edges@[i].function->0 as int],
        forall|x: int| 0 <= x < ns.len() && r0[x] && x != root ==> exists|j: int| m < j < ns.len() && r0[j] && #[trigger] out_to(ns, j, x) > 0,
    ensures
        forall|j: int, i: int|
            m <= j < ns.len() && r1[j] && 0 <= i < ns[j].next_edges@.len() && (#[trigger] ns[j].next_edges@[i]).function is Some
                ==> r1[ns[j].next_edges@[i].function->0 as int],
        forall|x: int| 0 <= x < ns.len() && r1[x] && x != root ==> exists|j: int| m <= j < ns.len() && r1[j] && #[trigger] out_to(ns, j, x) > 0,
{
    assert forall|j: int, i: int|
        m <= j < ns.len() && r1[j] && 0 <= i < ns[j].next_edges@.len() && (#[trigger] ns[j].next_edges@[i]).function is Some
            implies r1[ns[j].next_edges@[i].function->0 as int] by {
        assert(ns[j].next_edges@[i].function->0 < j);
        if j > m {
            assert(r0[ns[j].next_edges@[i].function->0 as int]);
        }
    }
    assert forall|x: int| 0 <= x < ns.len() && r1[x] && x != root implies
        exists|j: int| m <= j < ns.len() && r1[j] && #[trigger] out_to(ns, j, x) > 0 by {
        if r0[x] {
            let j = choose|j: int| m < j < ns.len() && r0[j] && #[trigger] out_to(ns, j, x) > 0;
            assert(r1[j]);
        } else {
            assert(out_to(ns, m, x) > 0);
        }
    }
}


/// Every edge leads to an earlier node, at one of its input slots, and each
/// node has one edge per gradient it hands on.
pub open spec fn edges_fit(ns: Seq<Node>) -> bool {
    &&& edges_descend(ns)
    &&& forall|m: int, i: int|
        0 <= m < ns.len() && 0 <= i < ns[m].next_edges@.len() && (#[trigger] ns[m].next_edges@[i]).function is Some
            ==> ns[m].next_edges@[i].input_nr < ns[ns[m].next_edges@[i].function->0 as int].input_metadata@.len()
    &&& forall|m: int| 0 <= m < ns.len() ==> (#[trigger] ns[m]).next_edges@.len() == num_outputs(ns[m].kind)
}

pub proof fn lemma_edges_fit(g: &Graph)
    requires
        g.wf(),
    ensures
        edges_fit(g.nodes_spec()),
{
    let ns = g.nodes_spec();
    lemma_descend(ns, g.tensors_spec().len());
    assert forall|m: int, i: int|
        0 <= m < ns.len() && 0 <= i < ns[m].next_edges@.len() && (#[trigger] ns[m].next_edges@[i]).function is Some
            implies ns[m].next_edges@[i].input_nr < ns[ns[m].next_edges@[i].function->0 as int].input_metadata@.len() by {
        assert(node_ok(ns, g.tensors_spec().len(), m));
        assert(edge_ok(ns, m, ns[m].next_edges@[i]));
    }
    assert forall|m: int| 0 <= m < ns.len() implies (#[trigger] ns[m]).next_edges@.len() == num_outputs(ns[m].kind) by {
        assert(node_ok(ns, g.tensors_spec().len(), m));
    }
}

/// Node `n` waits in the ready queue.
pub open spec fn queued(q: Seq<NodeTask>, n: int) -> bool {
    exists|k: int| 0 <= k < q.len() && (#[trigger] q[k]).node == n
}

/// What a slot of an input buffer holds, as a sequence.
pub open spec fn slot_view(o: Option<Vec<i64>>) -> Option<Seq<i64>> {
    match o {
        Some(v) => Some(v@),
        None => None,
    }
}

/// The input buffers of all nodes, slot by slot.
pub open spec fn buffers_view(b: Seq<InputBuffer>) -> Seq<Seq<Option<Seq<i64>>>> {
    Seq::new(b.len(), |n: int| Seq::new(b[n].slots@.len(), |k: int| slot_view(b[n].slots@[k])))
}

/// A gradient added into a slot: an empty slot takes it, a filled one
/// holds the sum.
pub open spec fn add_into(old: Option<Seq<i64>>, g: Seq<i64>) -> Seq<i64> {
    match old {
        Some(o) => grad_sum(o, g),
        None => g,
    }
}

/// Delivers gradient `out` over edge `e`: added into the slot it names.
pub open spec fn deliver(bv: Seq<Seq<Option<Seq<i64>>>>, e: Edge, out: Seq<i64>) -> Seq<Seq<Option<Seq<i64>>>> {
    match e.function {
        Some(t) => if (t as int) < bv.len() && (e.input_nr as int) < bv[t as int].len() {
            bv.update(t as int, bv[t as int].update(e.input_nr as int, Some(add_into(bv[t as int][e.input_nr as int], out))))
        } else {
            bv
        },
        None => bv,
    }
}

/// Delivers the first `k` gradients over the first `k` edges, in order.
pub open spec fn deliver_upto(bv: Seq<Seq<Option<Seq<i64>>>>, edges: Seq<Edge>, outs: Seq<Seq<i64>>, k: int) -> Seq<Seq<Option<Seq<i64>>>>
    decreases k,
{
    if k <= 0 {
        bv
    } else {
        deliver(deliver_upto(bv, edges, outs, k - 1), edges[k - 1], outs[k - 1])
    }
}

/// The gradient in the first slot of a buffer, empty if none arrived.
pub open spec fn first_grad(b: InputBuffer) -> Seq<i64> {
    if b.slots@.len() > 0 && b.slots@[0] is Some {
        b.slots@[0]->0@
    } else {
        Seq::empty()
    }
}

/// The gradient a tensor holds, if any.
pub open spec fn grad_view(g: Graph, t: crate::node::Tensor) -> Option<Seq<i64>> {
    if g.meta_of(t) is Some && g.meta_of(t)->0.grad is Some {
        Some(g.meta_of(t)->0.grad->0@)
    } else {
        None
    }
}

/// Every node in the execution order ran after each reachable node with an
/// edge into it.
pub open spec fn runs_after_preds(ns: Seq<Node>, r: Seq<bool>, o: Seq<usize>) -> bool {
    forall|k: int, m: int|
        0 <= k < o.len() && 0 <= m < ns.len() && r[m] && #[trigger] out_to(ns, m, o[k] as int) > 0
            ==> exists|j: int| 0 <= j < k && o[j] == m
}

/// A node outside `d` but inside `r` with an edge into `n` makes the count
/// from `d` smaller.
proof fn lemma_in_range_strict(ns: Seq<Node>, d: Seq<bool>, r: Seq<bool>, lo: int, hi: int, n: int, m: int)
    requires
        0 <= lo <= m < hi,
        hi <= d.len(),
        hi <= r.len(),
        forall|j: int| lo <= j < hi && d[j] ==> r[j],
        r[m],
        !d[m],
        out_to(ns, m, n) > 0,
    ensures
        in_range(ns, d, lo, hi, n) < in_range(ns, r, lo, hi, n),
    decreases hi - lo,
{
    if lo < m {
        lemma_in_range_strict(ns, d, r, lo + 1, hi, n, m);
    } else {
        lemma_in_range_mono(ns, d, r, lo + 1, hi, n);
    }
}

/// The state of a backward run. `cur` is the node being run (or -1), of
/// which the first `i` gradients have been delivered. A node's remaining
/// in-degree is the number of edges into it from reachable nodes that have
/// not delivered yet; the queue holds, once each, exactly the reachable
/// nodes that wait on nothing and have not run; every unit not finished is
/// counted as outstanding; the order of execution lists the nodes run.
#[verifier::opaque]
pub open spec fn run_inv(ns: Seq<Node>, root: int, t: GraphTask, cur: int, i: int) -> bool {
    let r = t.reachable@;
    let d = t.dependencies@;
    let e = t.executed@;
    let q = t.ready_queue.queue@;
    let o = t.exec_order@;
    let b = t.buffers@;
    &&& is_reach_set(ns, root, r)
    &&& edges_fit(ns)
    &&& ns.len() <= usize::MAX
    &&& d.len() == ns.len()
    &&& e.len() == ns.len()
    &&& b.len() == ns.len()
    &&& forall|n: int| 0 <= n < ns.len() ==> #[trigger] d[n] + in_count(ns, e, n) + (if cur >= 0 {
        count_to(ns[cur].next_edges@, i, n)
    } else {
        0nat
    }) == in_count(ns, r, n)
    &&& forall|n: int| 0 <= n < ns.len() && #[trigger] e[n] ==> r[n] && d[n] == 0
    &&& forall|k: int| 0 <= k < q.len() ==> {
        let v = (#[trigger] q[k]).node as int;
        &&& v < ns.len()
        &&& r[v]
        &&& !e[v]
        &&& d[v] == 0
        &&& v != cur
    }
    &&& forall|k1: int, k2: int| 0 <= k1 < q.len() && 0 <= k2 < q.len() && k1 != k2 ==> (#[trigger] q[k1]).node != (#[trigger] q[k2]).node
    &&& forall|n: int| 0 <= n < ns.len() && r[n] && #[trigger] d[n] == 0 && !e[n] && n != cur ==> queued(q, n)
    &&& cur >= 0 ==> cur < ns.len() && r[cur] && !e[cur] && d[cur] == 0 && 0 <= i <= ns[cur].next_edges@.len()
    &&& cur < 0 ==> cur == -1 && i == 0
    &&& t.outstanding_tasks == q.len() + (if cur >= 0 { 1int } else { 0int })
    &&& o.no_duplicates()
    &&& forall|n: int| 0 <= n < ns.len() ==> (#[trigger] e[n] <==> o.contains(n as usize))
    &&& forall|k: int| 0 <= k < o.len() ==> (#[trigger] o[k]) < ns.len()
    &&& runs_after_preds(ns, r, o)
    &&& forall|n: int| 0 <= n < ns.len() && #[trigger] d[n] > 0 ==> b[n].slots@.len() == ns[n].input_metadata@.len()
}

/// The run starts with the root queued.
proof fn lemma_run_init(ns: Seq<Node>, root: int, t: GraphTask)
    requires
        edges_fit(ns),
        ns.len() <= usize::MAX,
        is_reach_set(ns, root, t.reachable@),
        t.dependencies@.len() == ns.len(),
        forall|n: int| 0 <= n < ns.len() ==> #[trigger] t.dependencies@[n] == in_count(ns, t.reachable@, n),
        t.executed@ == Seq::new(ns.len(), |i: int| false),
        t.exec_order@.len() == 0,
        t.ready_queue.queue@.len() == 1,
        t.ready_queue.queue@[0].node == root,
        t.outstanding_tasks == 1,
        t.buffers@.len() == ns.len(),
        forall|n: int| 0 <= n < ns.len() ==> (#[trigger] t.buffers@[n]).slots@.len() == ns[n].input_metadata@.len(),
    ensures
        run_inv(ns, root, t, -1, 0),
{
    reveal(run_inv);
    let r = t.reachable@;
    let e = t.executed@;
    let q = t.ready_queue.queue@;
    let nn = ns.len() as int;
    assert forall|n: int| 0 <= n < nn implies #[trigger] t.dependencies@[n] + in_count(ns, e, n) + 0nat == in_count(ns, r, n) by {
        lemma_in_range_empty(ns, e, 0, nn, n);
    }
    assert(r[root]);
    assert(t.dependencies@[root] == 0) by {
        lemma_in_range_root(ns, r, 0, nn, root);
    }
    assert forall|n: int| 0 <= n < nn && r[n] && #[trigger] t.dependencies@[n] == 0 && !e[n] && n != -1 implies queued(q, n) by {
        if n != root {
            let m = choose|m: int| 0 <= m < ns.len() && r[m] && #[trigger] out_to(ns, m, n) > 0;
            lemma_in_range_ge(ns, r, 0, nn, m, n);
        }
        assert(q[0].node == n);
    }
    assert forall|n: int| 0 <= n < nn implies (#[trigger] e[n] <==> t.exec_order@.contains(n as usize)) by {
    }
}

/// No reachable node has an edge into the root.
proof fn lemma_in_range_root(ns: Seq<Node>, r: Seq<bool>, lo: int, hi: int, root: int)
    requires
        edges_descend(ns),
        0 <= lo,
        hi <= r.len(),
        r.len() == ns.len(),
        0 <= root <= usize::MAX,
        forall|j: int| 0 <= j < r.len() && r[j] ==> j <= root,
    ensures
        in_range(ns, r, lo, hi, root) == 0,
    decreases hi - lo,
{
    if lo < hi {
        lemma_in_range_root(ns, r, lo + 1, hi, root);
        if r[lo] && out_to(ns, lo, root) > 0 {
            lemma_out_to_below(ns, lo, root);
        }
    }
}

/// Taking the last unit off the queue makes its node the one being run.
proof fn lemma_run_pop(ns: Seq<Node>, root: int, t0: GraphTask, t1: GraphTask, v: int)
    requires
        run_inv(ns, root, t0, -1, 0),
        t0.ready_queue.queue@.len() > 0,
        v == t0.ready_queue.queue@.last().node,
        t1 == (GraphTask { ready_queue: ReadyQueue { queue: t1.ready_queue.queue }, ..t0 }),
        t1.ready_queue.queue@ == t0.ready_queue.queue@.drop_last(),
    ensures
        run_inv(ns, root, t1, v, 0),
        0 <= v < ns.len(),
        !t0.executed@[v],
{
    reveal(run_inv);
    let q0 = t0.ready_queue.queue@;
    let q1 = t1.ready_queue.queue@;
    let last = q0.len() - 1;
    assert(q0[last].node == v);
    assert forall|n: int| 0 <= n < ns.len() implies #[trigger] t1.dependencies@[n] + in_count(ns, t1.executed@, n) + (if v >= 0 {
        count_to(ns[v].next_edges@, 0, n)
    } else {
        0nat
    }) == in_count(ns, t1.reachable@, n) by {
        assert(t0.dependencies@[n] + in_count(ns, t0.executed@, n) + 0nat == in_count(ns, t0.reachable@, n));
    }
    assert forall|k: int| 0 <= k < q1.len() implies (#[trigger] q1[k]).node as int != v by {
        assert(q1[k] == q0[k]);
        assert(q0[k].node != q0[last].node);
    }
    assert forall|k: int| 0 <= k < q1.len() implies ({
        let w = (#[trigger] q1[k]).node as int;
        &&& w < ns.len()
        &&& t1.reachable@[w]
        &&& !t1.executed@[w]
        &&& t1.dependencies@[w] == 0
        &&& w != v
    }) by {
        assert(q1[k] == q0[k]);
        assert(q0[k].node != q0[last].node);
    }
    assert forall|k1: int, k2: int| 0 <= k1 < q1.len() && 0 <= k2 < q1.len() && k1 != k2 implies (#[trigger] q1[k1]).node != (#[trigger] q1[k2]).node by {
        assert(q1[k1] == q0[k1]);
        assert(q1[k2] == q0[k2]);
    }
    assert forall|n: int| 0 <= n < ns.len() && t1.reachable@[n] && #[trigger] t1.dependencies@[n] == 0 && !t1.executed@[n] && n != v implies queued(q1, n) by {
        assert(queued(q0, n));
        let k = choose|k: int| 0 <= k < q0.len() && (#[trigger] q0[k]).node == n;
        assert(k != last);
        assert(q1[k] == q0[k]);
    }
}

/// Taking the gradients of the running node out of its buffer changes
/// nothing the run depends on.
proof fn lemma_run_take(ns: Seq<Node>, root: int, t0: GraphTask, t1: GraphTask, v: int)
    requires
        run_inv(ns, root, t0, v, 0),
        v >= 0,
        t1 == (GraphTask { buffers: t1.buffers, ..t0 }),
        t1.buffers@.len() == t0.buffers@.len(),
        forall|n: int| 0 <= n < t0.buffers@.len() && n != v ==> t1.buffers@[n] == t0.buffers@[n],
    ensures
        run_inv(ns, root, t1, v, 0),
{
    reveal(run_inv);
    assert forall|n: int| 0 <= n < ns.len() && #[trigger] t1.dependencies@[n] > 0 implies t1.buffers@[n].slots@.len() == ns[n].input_metadata@.len() by {
        assert(n != v);
    }
}

/// Delivering the `i`-th gradient of `v` over an edge with no target
/// changes nothing else.
proof fn lemma_run_skip(ns: Seq<Node>, root: int, t: GraphTask, v: int, i: int)
    requires
        run_inv(ns, root, t, v, i),
        v >= 0,
        i < ns[v].next_edges@.len(),
        ns[v].next_edges@[i].function is None,
    ensures
        run_inv(ns, root, t, v, i + 1),
{
    reveal(run_inv);
    assert forall|n: int| 0 <= n < ns.len() implies #[trigger] t.dependencies@[n] + in_count(ns, t.executed@, n) + (if v >= 0 {
        count_to(ns[v].next_edges@, i + 1, n)
    } else {
        0nat
    }) == in_count(ns, t.reachable@, n) by {
        lemma_count_to_step(ns[v].next_edges@, i, n);
    }
}

/// The target of the `i`-th edge of the running node still waits on it.
proof fn lemma_run_target(ns: Seq<Node>, root: int, t: GraphTask, v: int, i: int, tt: int)
    requires
        run_inv(ns, root, t, v, i),
        v >= 0,
        i < ns[v].next_edges@.len(),
        ns[v].next_edges@[i].function == Some(tt as usize),
        0 <= tt <= usize::MAX,
    ensures
        tt < v,
        t.dependencies@[tt] >= 1,
        t.buffers@[tt].slots@.len() == ns[tt].input_metadata@.len(),
        ns[v].next_edges@[i].input_nr < ns[tt].input_metadata@.len(),
        t.reachable@[tt],
        !t.executed@[tt],
        !queued(t.ready_queue.queue@, tt),
{
    reveal(run_inv);
    let r = t.reachable@;
    let e = t.executed@;
    let edges = ns[v].next_edges@;
    let nn = ns.len() as int;
    assert(edges[i].function is Some);
    assert(tt < v);
    lemma_count_to_pos(edges, edges.len() as int, i, tt);
    lemma_count_to_pos(edges, i + 1, i, tt);
    lemma_count_to_step(edges, i, tt);
    lemma_count_to_mono(edges, i + 1, edges.len() as int, tt);
    lemma_in_range_mark(ns, e, 0, nn, v, tt);
    assert forall|j: int| 0 <= j < nn && e.update(v, true)[j] implies r[j] by {
    }
    lemma_in_range_mono(ns, e.update(v, true), r, 0, nn, tt);
    assert(t.dependencies@[tt] + in_count(ns, e, tt) + count_to(edges, i, tt) == in_count(ns, r, tt));
    assert(t.dependencies@[tt] >= 1);
    if e[tt] {
        assert(t.dependencies@[tt] == 0);
    }
    if queued(t.ready_queue.queue@, tt) {
        let k = choose|k: int| 0 <= k < t.ready_queue.queue@.len() && (#[trigger] t.ready_queue.queue@[k]).node == tt;
        assert(t.dependencies@[tt] == 0);
    }
    let m = ns[v].next_edges@[i];
    assert(m.input_nr < ns[m.function->0 as int].input_metadata@.len());
    assert(r[tt]);
}

/// Delivering the `i`-th gradient of `v` to node `tt`: its in-degree drops
/// by one, and it is queued when that reaches zero.
proof fn lemma_run_deliver(ns: Seq<Node>, root: int, t0: GraphTask, t1: GraphTask, v: int, i: int, tt: int)
    requires
        run_inv(ns, root, t0, v, i),
        v >= 0,
        i < ns[v].next_edges@.len(),
        ns[v].next_edges@[i].function == Some(tt as usize),
        0 <= tt <= usize::MAX,
        t0.dependencies@[tt] >= 1,
        t1.reachable == t0.reachable,
        t1.executed == t0.executed,
        t1.exec_order == t0.exec_order,
        t1.dependencies@ == t0.dependencies@.update(tt, (t0.dependencies@[tt] - 1) as usize),
        t1.buffers@.len() == t0.buffers@.len(),
        forall|n: int| 0 <= n < t0.buffers@.len() && n != tt ==> t1.buffers@[n] == t0.buffers@[n],
        t1.dependencies@[tt] > 0 ==> t1.buffers@[tt].slots@.len() == t0.buffers@[tt].slots@.len(),
        t1.dependencies@[tt] > 0 ==> t1.ready_queue.queue@ == t0.ready_queue.queue@ && t1.outstanding_tasks == t0.outstanding_tasks,
        t1.dependencies@[tt] == 0 ==> t1.ready_queue.queue@.len() == t0.ready_queue.queue@.len() + 1
            && t1.ready_queue.queue@.drop_last() == t0.ready_queue.queue@
            && t1.ready_queue.queue@.last().node == tt
            && t1.outstanding_tasks == t0.outstanding_tasks + 1,
    ensures
        run_inv(ns, root, t1, v, i + 1),
{
    lemma_run_target(ns, root, t0, v, i, tt);
    reveal(run_inv);
    let d0 = t0.dependencies@;
    let d1 = t1.dependencies@;
    let q0 = t0.ready_queue.queue@;
    let q1 = t1.ready_queue.queue@;
    let r = t0.reachable@;
    let e = t0.executed@;
    let edges = ns[v].next_edges@;
    assert forall|n: int| 0 <= n < ns.len() implies #[trigger] d1[n] + in_count(ns, e, n) + (if v >= 0 {
        count_to(edges, i + 1, n)
    } else {
        0nat
    }) == in_count(ns, r, n) by {
        lemma_count_to_step(edges, i, n);
        assert(d0[n] + in_count(ns, e, n) + count_to(edges, i, n) == in_count(ns, r, n));
    }
    assert forall|n: int| 0 <= n < ns.len() && #[trigger] e[n] implies r[n] && d1[n] == 0 by {
        assert(d0[n] == 0);
    }
    if d1[tt] == 0 {
        assert forall|k: int| 0 <= k < q1.len() implies ({
            let w = (#[trigger] q1[k]).node as int;
            &&& w < ns.len()
            &&& r[w]
            &&& !e[w]
            &&& d1[w] == 0
            &&& w != v
        }) by {
            if k < q0.len() {
                assert(q1[k] == q0[k]);
                assert(q0[k].node != tt);
            }
        }
        assert forall|k1: int, k2: int| 0 <= k1 < q1.len() && 0 <= k2 < q1.len() && k1 != k2 implies (#[trigger] q1[k1]).node != (#[trigger] q1[k2]).node by {
            if k1 < q0.len() {
                assert(q1[k1] == q0[k1]);
            }
            if k2 < q0.len() {
                assert(q1[k2] == q0[k2]);
            }
            if k1 < q0.len() && k2 == q0.len() {
                assert(q0[k1].node != tt);
            }
            if k2 < q0.len() && k1 == q0.len() {
                assert(q0[k2].node != tt);
            }
        }
        assert forall|n: int| 0 <= n < ns.len() && r[n] && #[trigger] d1[n] == 0 && !e[n] && n != v implies queued(q1, n) by {
            if n == tt {
                assert(q1[q1.len() - 1].node == tt);
            } else {
                assert(queued(q0, n));
                let k = choose|k: int| 0 <= k < q0.len() && (#[trigger] q0[k]).node == n;
                assert(q1[k] == q0[k]);
            }
        }
    } else {
        assert forall|k: int| 0 <= k < q1.len() implies ({
            let w = (#[trigger] q1[k]).node as int;
            &&& w < ns.len()
            &&& r[w]
            &&& !e[w]
            &&& d1[w] == 0
            &&& w != v
        }) by {
            assert(q0[k].node != tt);
        }
        assert forall|n: int| 0 <= n < ns.len() && r[n] && #[trigger] d1[n] == 0 && !e[n] && n != v implies queued(q1, n) by {
            assert(d0[n] == 0);
        }
    }
    assert forall|n: int| 0 <= n < ns.len() && #[trigger] d1[n] > 0 implies t1.buffers@[n].slots@.len() == ns[n].input_metadata@.len() by {
        assert(d0[n] > 0);
    }
}

/// Once all its gradients are delivered, the running node counts as run.
proof fn lemma_run_finish(ns: Seq<Node>, root: int, t0: GraphTask, t1: GraphTask, v: int)
    requires
        v >= 0,
        run_inv(ns, root, t0, v, ns[v].next_edges@.len() as int),
        t1.reachable == t0.reachable,
        t1.dependencies == t0.dependencies,
        t1.buffers == t0.buffers,
        t1.ready_queue == t0.ready_queue,
        t1.executed@ == t0.executed@.update(v, true),
        t1.exec_order@ == t0.exec_order@.push(v as usize),
        t1.outstanding_tasks == t0.outstanding_tasks - 1,
    ensures
        run_inv(ns, root, t1, -1, 0),
        count_unmarked(t1.executed@) + 1 == count_unmarked(t0.executed@),
{
    reveal(run_inv);
    let e0 = t0.executed@;
    let e1 = t1.executed@;
    let d = t0.dependencies@;
    let r = t0.reachable@;
    let q = t0.ready_queue.queue@;
    let nn = ns.len() as int;
    lemma_count_unmarked_mark(e0, v);
    assert forall|n: int| 0 <= n < nn implies #[trigger] d[n] + in_count(ns, e1, n) + 0nat == in_count(ns, r, n) by {
        lemma_in_range_mark(ns, e0, 0, nn, v, n);
        assert(d[n] + in_count(ns, e0, n) + count_to(ns[v].next_edges@, ns[v].next_edges@.len() as int, n) == in_count(ns, r, n));
    }
    assert forall|k: int| 0 <= k < q.len() implies ({
        let w = (#[trigger] q[k]).node as int;
        &&& w < ns.len()
        &&& r[w]
        &&& !e1[w]
        &&& d[w] == 0
        &&& w != -1
    }) by {
    }
    assert forall|n: int| 0 <= n < nn && r[n] && #[trigger] d[n] == 0 && !e1[n] && n != -1 implies queued(q, n) by {
    }
    let o0 = t0.exec_order@;
    let o1 = t1.exec_order@;
    assert(!o0.contains(v as usize));
    assert forall|k1: int, k2: int| 0 <= k1 < o1.len() && 0 <= k2 < o1.len() && k1 != k2 implies o1[k1] != o1[k2] by {
        if k1 < o0.len() && k2 < o0.len() {
        } else if k1 < o0.len() {
            assert(o0.contains(o0[k1]));
        } else {
            assert(o0.contains(o0[k2]));
        }
    }
    assert forall|n: int| 0 <= n < nn implies (#[trigger] e1[n] <==> o1.contains(n as usize)) by {
        if n == v {
            assert(o1[o0.len() as int] == v as usize);
        } else {
            if o1.contains(n as usize) {
                let k = choose|k: int| 0 <= k < o1.len() && o1[k] == n as usize;
                assert(k < o0.len());
                assert(o0[k] == n as usize);
            }
            if o0.contains(n as usize) {
                let k = choose|k: int| 0 <= k < o0.len() && o0[k] == n as usize;
                assert(o1[k] == n as usize);
            }
        }
    }
    assert forall|k: int| 0 <= k < o1.len() implies (#[trigger] o1[k]) < nn by {
        if k < o0.len() {
            assert(o1[k] == o0[k]);
        }
    }
    assert forall|k: int, m: int|
        0 <= k < o1.len() && 0 <= m < nn && r[m] && #[trigger] out_to(ns, m, o1[k] as int) > 0
            implies exists|j: int| 0 <= j < k && o1[j] == m by {
        if k < o0.len() {
            assert(o1[k] == o0[k]);
            let j = choose|j: int| 0 <= j < k && o0[j] == m;
            assert(o1[j] == m);
        } else {
            assert(o1[k] == v as usize);
            if !e0[m] {
                if out_to(ns, v, v) > 0 {
                    lemma_out_to_below(ns, v, v);
                }
                assert(d[v] + in_count(ns, e0, v) + count_to(ns[v].next_edges@, ns[v].next_edges@.len() as int, v) == in_count(ns, r, v));
                assert forall|j: int| 0 <= j < nn && e0[j] implies r[j] by {
                }
                lemma_in_range_strict(ns, e0, r, 0, nn, v, m);
                assert(false);
            }
            assert(e1[m]);
            assert(o0.contains(m as usize));
            let j = choose|j: int| 0 <= j < o0.len() && o0[j] == m as usize;
            assert(o1[j] == m);
        }
    }
}

/// When the queue runs dry, every reachable node has run and no node waits.
proof fn lemma_run_done(ns: Seq<Node>, root: int, t: GraphTask)
    requires
        run_inv(ns, root, t, -1, 0),
        t.ready_queue.queue@.len() == 0,
    ensures
        run_done(ns, root, t),
{
    reveal(run_inv);
    let nn = ns.len() as int;
    lemma_run_all_done(ns, root, t, 0);
    assert forall|n: int| 0 <= n < nn implies t.dependencies@[n] == 0 by {
        lemma_in_range_frame(ns, t.executed@, t.reachable@, 0, nn, n);
        assert(t.dependencies@[n] + in_count(ns, t.executed@, n) + 0nat == in_count(ns, t.reachable@, n));
    }
    assert forall|n: int| 0 <= n < nn implies (t.reachable@[n] <==> t.exec_order@.contains(n as usize)) by {
        assert(t.executed@[n] <==> t.exec_order@.contains(n as usize));
    }
}

/// Downward induction: every reachable node from `k` on has run.
proof fn lemma_run_all_done(ns: Seq<Node>, root: int, t: GraphTask, k: int)
    requires
        run_inv(ns, root, t, -1, 0),
        t.ready_queue.queue@.len() == 0,
        0 <= k <= ns.len(),
    ensures
        forall|n: int| k <= n < ns.len() ==> t.executed@[n] == t.reachable@[n],
    decreases ns.len() - k,
{
    reveal(run_inv);
    let nn = ns.len() as int;
    if k < nn {
        lemma_run_all_done(ns, root, t, k + 1);
        let r = t.reachable@;
        let e = t.executed@;
        if r[k] && !e[k] {
            let d = t.dependencies@;
            assert(d[k] + in_count(ns, e, k) + 0nat == in_count(ns, r, k));
            if d[k] == 0 {
                assert(queued(t.ready_queue.queue@, k));
                let kk = choose|kk: int| 0 <= kk < t.ready_queue.queue@.len() && (#[trigger] t.ready_queue.queue@[kk]).node == k;
            }
            assert forall|j: int| 0 <= j < nn && e[j] implies r[j] by {
            }
            let m = lemma_in_range_witness(ns, e, r, 0, nn, k);
            lemma_out_to_below(ns, m, k);
            assert(e[m] == r[m]);
        }
        if e[k] {
            assert(r[k]);
        }
    }
}

/// A root edge names no node, or an existing node and one of its input
/// slots.
pub open spec fn root_edge_ok(ns: Seq<Node>, e: Edge) -> bool {
    e.function is Some ==> (e.function->0 < ns.len() && e.input_nr < ns[e.function->0 as int].input_metadata@.len())
}

/// As many seeds as root edges, and every root edge sound.
pub open spec fn roots_ok(ns: Seq<Node>, roots: Seq<Edge>, nseeds: nat) -> bool {
    &&& roots.len() == nseeds
    &&& ns.len() < usize::MAX
    &&& forall|j: int| 0 <= j < roots.len() ==> root_edge_ok(ns, #[trigger] roots[j])
}

/// A finished run: the reachable set is the one from `root`, each reachable
/// node ran exactly once (the execution order lists each of them once and
/// nothing else) and after every reachable node with an edge into it, no
/// in-degree remains, and nothing is queued or outstanding.
pub open spec fn run_done(ns: Seq<Node>, root: int, t: GraphTask) -> bool {
    &&& is_reach_set(ns, root, t.reachable@)
    &&& t.executed@.len() == ns.len()
    &&& forall|n: int| 0 <= n < ns.len() ==> t.executed@[n] == t.reachable@[n]
    &&& t.dependencies@.len() == ns.len()
    &&& forall|n: int| 0 <= n < ns.len() ==> t.dependencies@[n] == 0
    &&& t.outstanding_tasks == 0
    &&& t.ready_queue.queue@.len() == 0
    &&& t.exec_order@.no_duplicates()
    &&& forall|n: int| 0 <= n < ns.len() ==> (t.reachable@[n] <==> t.exec_order@.contains(n as usize))
    &&& forall|k: int| 0 <= k < t.exec_order@.len() ==> t.exec_order@[k] < ns.len()
    &&& runs_after_preds(ns, t.reachable@, t.exec_order@)
}

/// In a tree-shaped run, the gradient each waiting node holds: none while
/// its edge has not delivered, and once it has, the gradient that reaches
/// it along the tree. `cur` is the node being run (or -1).
#[verifier::opaque]
pub open spec fn flow_inv(ns: Seq<Node>, root: int, t: GraphTask, cur: int) -> bool {
    let r = t.reachable@;
    let d = t.dependencies@;
    let e = t.executed@;
    let b = t.buffers@;
    is_tree(ns, r, root) ==> {
        &&& forall|n: int| 0 <= n < ns.len() && r[n] && n != root && #[trigger] d[n] > 0
            ==> (b[n].slots@.len() == 0 || b[n].slots@[0] is None)
        &&& forall|n: int| 0 <= n < ns.len() && r[n] && #[trigger] d[n] == 0 && !e[n] && n != cur
            ==> first_grad(b[n]) == tree_grad(ns, r, root, n)
    }
}

proof fn lemma_flow_init(ns: Seq<Node>, root: int, t: GraphTask)
    requires
        run_inv(ns, root, t, -1, 0),
        forall|n: int| 0 <= n < ns.len() ==> #[trigger] t.dependencies@[n] == in_count(ns, t.reachable@, n),
        forall|n: int, k: int| 0 <= n < ns.len() && 0 <= k < t.buffers@[n].slots@.len() ==> #[trigger] t.buffers@[n].slots@[k] is None,
    ensures
        flow_inv(ns, root, t, -1),
{
    reveal(flow_inv);
    reveal(run_inv);
    let r = t.reachable@;
    if is_tree(ns, r, root) {
        assert forall|n: int| 0 <= n < ns.len() && r[n] && #[trigger] t.dependencies@[n] == 0 && !t.executed@[n] && n != -1
            implies first_grad(t.buffers@[n]) == tree_grad(ns, r, root, n) by {
            if n != root {
                assert(in_count(ns, r, n) == 1);
            }
            if t.buffers@[n].slots@.len() > 0 {
                assert(t.buffers@[n].slots@[0] is None);
            }
        }
        assert forall|n: int| 0 <= n < ns.len() && r[n] && n != root && #[trigger] t.dependencies@[n] > 0
            implies (t.buffers@[n].slots@.len() == 0 || t.buffers@[n].slots@[0] is None) by {
            if t.buffers@[n].slots@.len() > 0 {
                assert(t.buffers@[n].slots@[0] is None);
            }
        }
    }
}

/// The popped node holds the gradient that reaches it.
proof fn lemma_flow_pop(ns: Seq<Node>, root: int, t0: GraphTask, t1: GraphTask, v: int)
    requires
        flow_inv(ns, root, t0, -1),
        run_inv(ns, root, t0, -1, 0),
        t0.ready_queue.queue@.len() > 0,
        v == t0.ready_queue.queue@.last().node,
        t1.reachable == t0.reachable,
        t1.dependencies == t0.dependencies,
        t1.executed == t0.executed,
        t1.buffers@.len() == t0.buffers@.len(),
        forall|n: int| 0 <= n < t0.buffers@.len() && n != v ==> t1.buffers@[n] == t0.buffers@[n],
    ensures
        flow_inv(ns, root, t1, v),
        is_tree(ns, t0.reachable@, root) ==> first_grad(t0.buffers@[v]) == tree_grad(ns, t0.reachable@, root, v),
{
    reveal(flow_inv);
    reveal(run_inv);
    let q = t0.ready_queue.queue@;
    assert(q[q.len() - 1].node == v);
}

/// The running node has run: it no longer waits.
proof fn lemma_flow_finish(ns: Seq<Node>, root: int, t0: GraphTask, t1: GraphTask, v: int)
    requires
        flow_inv(ns, root, t0, v),
        0 <= v < t0.executed@.len(),
        t0.executed@.len() == ns.len(),
        t1.reachable == t0.reachable,
        t1.dependencies == t0.dependencies,
        t1.buffers == t0.buffers,
        t1.executed@ == t0.executed@.update(v, true),
    ensures
        flow_inv(ns, root, t1, -1),
{
    reveal(flow_inv);
    let r = t0.reachable@;
    if is_tree(ns, r, root) {
        assert forall|n: int| 0 <= n < ns.len() && r[n] && #[trigger] t1.dependencies@[n] == 0 && !t1.executed@[n] && n != -1
            implies first_grad(t1.buffers@[n]) == tree_grad(ns, r, root, n) by {
            assert(n != v);
            assert(!t0.executed@[n]);
        }
    }
}

/// Delivering the `i`-th gradient of the running node `v` to node `tt`
/// fills its first slot with the gradient that reaches `tt`.
proof fn lemma_flow_deliver(ns: Seq<Node>, root: int, t0: GraphTask, t1: GraphTask, v: int, i: int, tt: int, first: Seq<i64>, out: Seq<i64>)
    requires
        flow_inv(ns, root, t0, v),
        run_inv(ns, root, t0, v, i),
        v >= 0,
        i < ns[v].next_edges@.len(),
        ns[v].next_edges@[i].function == Some(tt as usize),
        0 <= tt <= usize::MAX,
        t0.dependencies@[tt] >= 1,
        is_tree(ns, t0.reachable@, root) ==> first == tree_grad(ns, t0.reachable@, root, v),
        out == apply_spec(ns[v].kind, first)[i],
        t1.reachable == t0.reachable,
        t1.executed == t0.executed,
        t1.dependencies@ == t0.dependencies@.update(tt, (t0.dependencies@[tt] - 1) as usize),
        t1.buffers@.len() == t0.buffers@.len(),
        forall|n: int| 0 <= n < t0.buffers@.len() && n != tt ==> t1.buffers@[n] == t0.buffers@[n],
        ({
            let nr = ns[v].next_edges@[i].input_nr as int;
            &&& t1.buffers@[tt].slots@.len() == t0.buffers@[tt].slots@.len()
            &&& nr < t0.buffers@[tt].slots@.len()
            &&& t1.buffers@[tt].slots@[nr] is Some
            &&& t0.buffers@[tt].slots@[nr] is None ==> t1.buffers@[tt].slots@[nr]->0@ == out
        }),
    ensures
        flow_inv(ns, root, t1, v),
{
    reveal(flow_inv);
    reveal(run_inv);
    let r = t0.reachable@;
    if is_tree(ns, r, root) {
        let e = ns[v].next_edges@[i];
        assert(tt < v);
        assert(r[tt]);
        assert(in_edge(ns, r, tt, v, i));
        assert(e.input_nr == 0);
        assert(tt != root) by {
            assert(r[v]);
        }
        crate::counting::lemma_count_to_step(ns[v].next_edges@, i, tt);
        assert(t0.dependencies@[tt] + in_count(ns, t0.executed@, tt) + count_to(ns[v].next_edges@, i, tt) == in_count(ns, r, tt));
        assert(in_count(ns, r, tt) == 1);
        assert(t0.dependencies@[tt] == 1);
        assert(t0.buffers@[tt].slots@[0] is None);
        lemma_tree_grad_step(ns, r, root, tt, v, i);
        assert(first_grad(t1.buffers@[tt]) == tree_grad(ns, r, root, tt));
    }
}

/// After a run over a tree-shaped graph started on `g0`, the leaf of each
/// reachable accumulator that is the only one for its leaf holds its
/// gradient from `g0` plus the gradient that reaches the accumulator along
/// the tree (the leaf's gradient if it had none).
pub open spec fn leaves_done(ns: Seq<Node>, root: int, r: Seq<bool>, g0: Graph, g: Graph) -> bool {
    is_tree(ns, r, root) ==> forall|a: int| 0 <= a < ns.len() && r[a] && #[trigger] sole_accumulator(ns, r, a)
        ==> grad_view(g, ns[a].kind->variable) == Some(add_into(grad_view(g0, ns[a].kind->variable), tree_grad(ns, r, root, a)))
}

/// Node `a` is an accumulator, and no other reachable node accumulates
/// into the same leaf.
pub open spec fn sole_accumulator(ns: Seq<Node>, r: Seq<bool>, a: int) -> bool {
    &&& ns[a].kind is AccumulateGrad
    &&& forall|b: int| 0 <= b < ns.len() && r[b] && b != a ==> #[trigger] ns[b].kind != ns[a].kind
}

/// In a tree-shaped run started on graph `g0`, the leaf of each reachable
/// sole accumulator holds its gradient from `g0`, plus the gradient that
/// reaches the accumulator once that has run.
#[verifier::opaque]
pub open spec fn leaf_inv(ns: Seq<Node>, root: int, t: GraphTask, g0: Graph, g: Graph) -> bool {
    let r = t.reachable@;
    is_tree(ns, r, root) ==> forall|a: int| 0 <= a < ns.len() && r[a] && #[trigger] sole_accumulator(ns, r, a) ==> {
        let v = ns[a].kind->variable;
        grad_view(g, v) == if t.executed@[a] {
            Some(add_into(grad_view(g0, v), tree_grad(ns, r, root, a)))
        } else {
            grad_view(g0, v)
        }
    }
}

proof fn lemma_leaf_init(ns: Seq<Node>, root: int, t: GraphTask, g: Graph)
    requires
        forall|n: int| 0 <= n < t.executed@.len() ==> !t.executed@[n],
        t.executed@.len() == ns.len(),
    ensures
        leaf_inv(ns, root, t, g, g),
{
    reveal(leaf_inv);
}

/// Running node `v` keeps the leaf gradients as stated.
proof fn lemma_leaf_step(ns: Seq<Node>, root: int, t0: GraphTask, t1: GraphTask, g0: Graph, gb: Graph, ga: Graph, v: int, first: Seq<i64>)
    requires
        leaf_inv(ns, root, t0, g0, gb),
        0 <= v < ns.len(),
        t0.executed@.len() == ns.len(),
        t0.reachable@.len() == ns.len(),
        t0.reachable@[v],
        !t0.executed@[v],
        t1.reachable == t0.reachable,
        t1.executed@ == t0.executed@.update(v, true),
        is_tree(ns, t0.reachable@, root) ==> first == tree_grad(ns, t0.reachable@, root, v),
        ga.tensors_spec().len() == gb.tensors_spec().len(),
        forall|a: int| 0 <= a < ns.len() && (#[trigger] ns[a]).kind is AccumulateGrad ==> ns[a].kind->variable.id < gb.tensors_spec().len(),
        ns[v].kind matches NodeKind::AccumulateGrad { variable }
            ==> (grad_view(ga, variable) == Some(add_into(grad_view(gb, variable), first))
            && forall|k: int| 0 <= k < gb.tensors_spec().len() && k != variable.id ==> ga.tensors_spec()[k] == gb.tensors_spec()[k]),
        !(ns[v].kind is AccumulateGrad) ==> ga.tensors_spec() == gb.tensors_spec(),
    ensures
        leaf_inv(ns, root, t1, g0, ga),
{
    reveal(leaf_inv);
    let r = t0.reachable@;
    if is_tree(ns, r, root) {
        assert forall|a: int| 0 <= a < ns.len() && r[a] && #[trigger] sole_accumulator(ns, r, a) implies ({
            let va = ns[a].kind->variable;
            grad_view(ga, va) == if t1.executed@[a] {
                Some(add_into(grad_view(g0, va), tree_grad(ns, r, root, a)))
            } else {
                grad_view(g0, va)
            }
        }) by {
            let va = ns[a].kind->variable;
            assert(ns[a].kind is AccumulateGrad);
            if a != v {
                if ns[v].kind is AccumulateGrad {
                    assert(ns[v].kind != ns[a].kind);
                    assert(ns[v].kind->variable != va);
                    assert(ga.tensors_spec()[va.id as int] == gb.tensors_spec()[va.id as int]);
                }
                assert(grad_view(ga, va) == grad_view(gb, va));
            }
        }
    }
}

/// While a node runs, the queue holds fewer units than there are nodes.
proof fn lemma_queue_bound(ns: Seq<Node>, root: int, t: GraphTask, cur: int, i: int, x: int)
    requires
        run_inv(ns, root, t, cur, i),
        cur >= 0,
        0 <= x < ns.len(),
        x != cur,
        !queued(t.ready_queue.queue@, x),
    ensures
        t.ready_queue.queue@.len() + 2 <= ns.len(),
        ns.len() <= usize::MAX,
{
    reveal(run_inv);
    let q = t.ready_queue.queue@;
    let s = Seq::new(q.len(), |k: int| q[k].node as int);
    assert(s.no_duplicates()) by {
        assert forall|k1: int, k2: int| 0 <= k1 < s.len() && 0 <= k2 < s.len() && k1 != k2 implies s[k1] != s[k2] by {
            assert(q[k1].node != q[k2].node);
        }
    }
    s.unique_seq_to_set();
    let range = vstd::set_lib::set_int_range(0, ns.len() as int).remove(cur).remove(x);
    vstd::set_lib::lemma_int_range(0, ns.len() as int);
    assert(s.to_set().subset_of(range)) by {
        assert forall|y: int| s.to_set().contains(y) implies range.contains(y) by {
            let k = choose|k: int| 0 <= k < s.len() && s[k] == y;
            assert(q[k].node as int == y);
            if y == x {
                assert(queued(q, x));
            }
        }
    }
    vstd::set_lib::lemma_len_subset(s.to_set(), range);
}

/// The number of edges of the graph that have a target, if it fits.
pub fn count_edges(g: &Graph) -> (r: Option<usize>)
    requires
        g.wf(),
    ensures
        r is Some <==> graph_edges(g.nodes_spec()) <= usize::MAX,
        r is Some ==> r->0 == graph_edges(g.nodes_spec()),
{
    let ghost ns = g.nodes_spec();
    let n = g.num_nodes();
    let ghost full = all_marked(n as nat);
    let mut acc: usize = 0;
    let mut m: usize = n;
    while m > 0
        invariant
            m <= n,
            n == ns.len(),
            ns == g.nodes_spec(),
            full == all_marked(n as nat),
            acc == defined_range(ns, full, m as int, n as int),
        decreases m,
    {
        m = m - 1;
        let node = g.node(m);
        let k = node.next_edges.len();
        let mut i: usize = 0;
        let mut c: usize = 0;
        while i < k
            invariant
                i <= k,
                k == node.next_edges@.len(),
                *node == ns[m as int],
                m < n,
                n == ns.len(),
                full == all_marked(n as nat),
                acc == defined_range(ns, full, m + 1, n as int),
                c == count_defined(node.next_edges@, i as int),
                c <= i,
            decreases k - i,
        {
            if node.next_edges[i].function.is_some() {
                c = c + 1;
            }
            i = i + 1;
        }
        match acc.checked_add(c) {
            Some(v) => {
                acc = v;
            },
            None => {
                proof {
                    lemma_defined_range_suffix(ns, full, 0, m as int, n as int);
                }
                return None;
            },
        }
    }
    Some(acc)
}

/// A unit of work: a node whose gradients have all arrived; they wait
/// in the task's input buffer for that node until it runs.
pub struct NodeTask {
    pub node: usize,
}

/// The gradients delivered so far to each input slot of one node.
pub struct InputBuffer {
    pub slots: Vec<Option<Vec<i64>>>,
}

impl InputBuffer {
    /// `size` empty slots.
    pub fn new_with_size(size: usize) -> (r: InputBuffer)
        ensures
            r.slots@.len() == size,
            forall|i: int| 0 <= i < size ==> r.slots@[i] is None,
    {
        let mut slots: Vec<Option<Vec<i64>>> = Vec::with_capacity(size);
        let mut i: usize = 0;
        while i < size
            invariant
                i <= size,
                slots@.len() == i,
                forall|k: int| 0 <= k < i ==> slots@[k] is None,
            decreases size - i,
        {
            slots.push(None);
            i = i + 1;
        }
        InputBuffer { slots }
    }

    /// Adds a gradient into slot `pos`: an empty slot takes it, a filled one
    /// becomes the sum of both.
    pub fn add(&mut self, pos: usize, var: Vec<i64>)
        requires
            pos < old(self).slots@.len(),
        ensures
            final(self).slots@.len() == old(self).slots@.len(),
            forall|i: int| 0 <= i < old(self).slots@.len() && i != pos ==> final(self).slots@[i] == old(self).slots@[i],
            final(self).slots@[pos as int] is Some,
            old(self).slots@[pos as int] is None ==> final(self).slots@[pos as int]->0@ == var@,
            old(self).slots@[pos as int] is Some ==> final(self).slots@[pos as int]->0@ == grad_sum(old(self).slots@[pos as int]->0@, var@),
    {
        let mut cur: Option<Vec<i64>> = None;
        self.slots.set_and_swap(pos, &mut cur);
        let next = match cur {
            Some(old_grad) => grad_sum_exec(&old_grad, &var),
            None => var,
        };
        self.slots.set(pos, Some(next));
    }

    /// The gradient of the first slot, empty if nothing was delivered there.
    pub fn first(&self) -> (r: Vec<i64>)
        ensures
            self.slots@.len() > 0 && self.slots@[0] is Some ==> r@ == self.slots@[0]->0@,
            !(self.slots@.len() > 0 && self.slots@[0] is Some) ==> r@.len() == 0,
    {
        if self.slots.len() > 0 {
            match &self.slots[0] {
                Some(v) => crate::node::copy_grad(v),
                None => Vec::new(),
            }
        } else {
            Vec::new()
        }
    }
}

/// The units of work whose nodes are ready to run.
pub struct ReadyQueue {
    pub queue: Vec<NodeTask>,
}

impl ReadyQueue {
    pub fn new() -> (r: ReadyQueue)
        ensures
            r.queue@.len() == 0,
    {
        ReadyQueue { queue: Vec::new() }
    }

    pub fn push(&mut self, task: NodeTask)
        ensures
            final(self).queue@ == old(self).queue@.push(task),
    {
        self.queue.push(task);
    }

    pub fn pop(&mut self) -> (r: Option<NodeTask>)
        ensures
            old(self).queue@.len() == 0 ==> r is None && final(self).queue@ == old(self).queue@,
            old(self).queue@.len() > 0 ==> r == Some(old(self).queue@.last()) && final(self).queue@ == old(self).queue@.drop_last(),
    {
        self.queue.pop()
    }

    pub fn len(&self) -> (r: usize)
        ensures
            r == self.queue@.len(),
    {
        self.queue.len()
    }
}

/// The state of one backward call: the remaining in-degree of each node
/// (zero for nodes with no entry), the number of units not yet finished,
/// the ready queue, the nodes reachable from the root, those run so far and
/// the order they ran in, and the input buffers being filled.
pub struct GraphTask {
    pub root: usize,
    pub dependencies: Vec<usize>,
    pub outstanding_tasks: usize,
    pub ready_queue: ReadyQueue,
    pub grad_mode: bool,
    pub keep_graph: bool,
    pub reachable: Vec<bool>,
    pub executed: Vec<bool>,
    pub exec_order: Vec<usize>,
    pub buffers: Vec<InputBuffer>,
}

impl GraphTask {
    /// A task with nothing counted and nothing queued.
    pub fn new(grad_mode: bool, keep_graph: bool) -> (r: GraphTask)
        ensures
            r.dependencies@.len() == 0,
            r.outstanding_tasks == 0,
            r.ready_queue.queue@.len() == 0,
            r.grad_mode == grad_mode,
            r.keep_graph == keep_graph,
            r.reachable@.len() == 0,
            r.executed@.len() == 0,
            r.exec_order@.len() == 0,
            r.buffers@.len() == 0,
    {
        GraphTask {
            root: 0,
            dependencies: Vec::new(),
            outstanding_tasks: 0,
            ready_queue: ReadyQueue::new(),
            grad_mode,
            keep_graph,
            reachable: Vec::new(),
            executed: Vec::new(),
            exec_order: Vec::new(),
            buffers: Vec::new(),
        }
    }

    /// The task is complete when no unit is outstanding.
    pub fn completed(&self) -> (r: bool)
        ensures
            r == (self.outstanding_tasks == 0),
    {
        self.outstanding_tasks == 0
    }

    /// No node has a remaining in-degree.
    pub fn dependencies_empty(&self) -> (r: bool)
        ensures
            r == forall|n: int| 0 <= n < self.dependencies@.len() ==> self.dependencies@[n] == 0,
    {
        let mut i: usize = 0;
        while i < self.dependencies.len()
            invariant
                i <= self.dependencies@.len(),
                forall|n: int| 0 <= n < i ==> self.dependencies@[n] == 0,
            decreases self.dependencies@.len() - i,
        {
            if self.dependencies[i] != 0 {
                return false;
            }
            i = i + 1;
        }
        true
    }
}

/// The engine that runs backward calls; each call brings its own task and
/// ready queue.
pub struct Engine {}

impl Engine {
    pub fn get_default_engine() -> (r: Engine) {
        Engine {}
    }

    /// Counts the edges of reachable node `m` into the nodes they lead to,
    /// and marks those nodes reachable.
    #[verifier::spinoff_prover]
    fn count_out_edges(g: &Graph, m: usize, root: usize, reach: &mut Vec<bool>, deps: &mut Vec<usize>)
        requires
            edges_descend(g.nodes_spec()),
            m <= root,
            root < g.nodes_spec().len(),
            old(reach)@.len() == g.nodes_spec().len(),
            old(deps)@.len() == g.nodes_spec().len(),
            old(reach)@[m as int],
            forall|j: int| 0 <= j < old(reach)@.len() && old(reach)@[j] ==> j <= root,
            forall|x: int| 0 <= x < g.nodes_spec().len() ==> #[trigger] old(deps)@[x] == in_range(g.nodes_spec(), old(reach)@, m + 1, g.nodes_spec().len() as int, x),
            seq_sum(old(deps)@) == defined_range(g.nodes_spec(), old(reach)@, m + 1, g.nodes_spec().len() as int),
            defined_range(g.nodes_spec(), old(reach)@, m as int, g.nodes_spec().len() as int) <= usize::MAX,
        ensures
            final(reach)@.len() == g.nodes_spec().len(),
            final(deps)@.len() == g.nodes_spec().len(),
            forall|j: int| m <= j < g.nodes_spec().len() ==> final(reach)@[j] == old(reach)@[j],
            forall|j: int| 0 <= j < g.nodes_spec().len() && old(reach)@[j] ==> final(reach)@[j],
            forall|j: int| 0 <= j < g.nodes_spec().len() && final(reach)@[j] ==> j <= root,
            forall|x: int| 0 <= x < g.nodes_spec().len() ==> #[trigger] final(deps)@[x]
                == in_range(g.nodes_spec(), old(reach)@, m + 1, g.nodes_spec().len() as int, x) + out_to(g.nodes_spec(), m as int, x),
            seq_sum(final(deps)@) == defined_range(g.nodes_spec(), old(reach)@, m as int, g.nodes_spec().len() as int),
            forall|ii: int| 0 <= ii < g.nodes_spec()[m as int].next_edges@.len()
                && (#[trigger] g.nodes_spec()[m as int].next_edges@[ii]).function is Some
                ==> final(reach)@[g.nodes_spec()[m as int].next_edges@[ii].function->0 as int],
            forall|x: int| 0 <= x < g.nodes_spec().len() && final(reach)@[x] && !old(reach)@[x] ==> #[trigger] out_to(g.nodes_spec(), m as int, x) > 0,
    {
        let ghost ns = g.nodes_spec();
        let ghost r0 = reach@;
        let n = g.num_nodes();
        let node = g.node(m);
        let ghost edges = node.next_edges@;
        let k = node.next_edges.len();
        let mut i: usize = 0;
        proof {
            assert(defined_range(ns, r0, m as int, n as int) == count_defined(edges, k as int) + defined_range(ns, r0, m + 1, n as int));
        }
        while i < k
            invariant
                ns == g.nodes_spec(),
                edges_descend(ns),
                n == ns.len(),
                m < n,
                m <= root,
                *node == ns[m as int],
                edges == ns[m as int].next_edges@,
                k == edges.len(),
                i <= k,
                reach@.len() == n,
                deps@.len() == n,
                forall|j: int| 0 <= j < n && reach@[j] ==> j <= root,
                forall|j: int| m <= j < n ==> reach@[j] == r0[j],
                forall|j: int| 0 <= j < n && r0[j] ==> reach@[j],
                forall|x: int| 0 <= x < n ==> #[trigger] deps@[x] == in_range(ns, r0, m + 1, n as int, x) + count_to(edges, i as int, x),
                seq_sum(deps@) == defined_range(ns, r0, m + 1, n as int) + count_defined(edges, i as int),
                defined_range(ns, r0, m as int, n as int) == count_defined(edges, k as int) + defined_range(ns, r0, m + 1, n as int),
                defined_range(ns, r0, m as int, n as int) <= usize::MAX,
                forall|ii: int| 0 <= ii < i && (#[trigger] edges[ii]).function is Some ==> reach@[edges[ii].function->0 as int],
                forall|x: int| 0 <= x < n && reach@[x] && !r0[x] ==> count_to(edges, i as int, x) > 0,
            decreases k - i,
        {
            let e = node.next_edges[i];
            proof {
                lemma_count_defined_mono(edges, i + 1, k as int);
            }
            match e.function {
                Some(t) => {
                    proof {
                        assert(t < m);
                        lemma_seq_sum_ge(deps@, t as int);
                    }
                    let ghost d0 = deps@;
                    let ghost re0 = reach@;
                    deps.set(t, deps[t] + 1);
                    reach.set(t, true);
                    proof {
                        lemma_seq_sum_update(d0, t as int, (d0[t as int] + 1) as usize);
                        assert forall|x: int| 0 <= x < n implies #[trigger] deps@[x] == in_range(ns, r0, m + 1, n as int, x) + count_to(edges, i + 1, x) by {
                            lemma_count_to_step(edges, i as int, x);
                        }
                        assert forall|x: int| 0 <= x < n && reach@[x] && !r0[x] implies count_to(edges, i + 1, x) > 0 by {
                            lemma_count_to_step(edges, i as int, x);
                        }
                    }
                },
                None => {
                    proof {
                        assert forall|x: int| 0 <= x < n implies #[trigger] deps@[x] == in_range(ns, r0, m + 1, n as int, x) + count_to(edges, i + 1, x) by {
                            lemma_count_to_step(edges, i as int, x);
                        }
                        assert forall|x: int| 0 <= x < n && reach@[x] && !r0[x] implies count_to(edges, i + 1, x) > 0 by {
                            lemma_count_to_step(edges, i as int, x);
                        }
                    }
                },
            }
            i = i + 1;
        }
    }

    /// Runs node `func` on the gradients gathered for it and delivers each
    /// gradient it hands on to the input slot its edge names; a node whose
    /// last awaited gradient arrives is queued. An accumulator adds its
    /// gradient into its leaf.
    pub fn evaluate_function(&mut self, g: &mut Graph, graph_task: &mut GraphTask, func: usize, inputs: InputBuffer)
        requires
            old(g).wf(),
            run_inv(old(g).nodes_spec(), old(graph_task).root as int, *old(graph_task), func as int, 0),
            flow_inv(old(g).nodes_spec(), old(graph_task).root as int, *old(graph_task), func as int),
            is_tree(old(g).nodes_spec(), old(graph_task).reachable@, old(graph_task).root as int)
                ==> first_grad(inputs) == tree_grad(old(g).nodes_spec(), old(graph_task).reachable@, old(graph_task).root as int, func as int),
            old(g).grad_mode_spec() == old(graph_task).grad_mode,
        ensures
            flow_inv(old(g).nodes_spec(), old(graph_task).root as int, *final(graph_task), func as int),
            final(g).wf(),
            final(g).grad_mode_spec() == old(g).grad_mode_spec(),
            buffers_view(final(graph_task).buffers@) == deliver_upto(buffers_view(old(graph_task).buffers@),
                old(g).nodes_spec()[func as int].next_edges@,
                apply_spec(old(g).nodes_spec()[func as int].kind, first_grad(inputs)),
                old(g).nodes_spec()[func as int].next_edges@.len() as int),
            old(g).nodes_spec()[func as int].kind matches NodeKind::AccumulateGrad { variable }
                ==> (grad_view(*final(g), variable) == Some(add_into(grad_view(*old(g), variable), first_grad(inputs)))
                && final(g).meta_of(variable)->0.grad_fn == old(g).grad_fn_spec(variable)
                && final(g).meta_of(variable)->0.requires_grad == old(g).requires_grad_spec(variable)
                && forall|k: int| 0 <= k < old(g).tensors_spec().len() && k != variable.id ==> final(g).tensors_spec()[k] == old(g).tensors_spec()[k]),
            !(old(g).nodes_spec()[func as int].kind is AccumulateGrad) ==> final(g).tensors_spec() == old(g).tensors_spec(),
            final(g).values_spec() == old(g).values_spec(),
            final(g).nodes_spec() == old(g).nodes_spec(),
            final(g).tensors_spec().len() == old(g).tensors_spec().len(),
            run_inv(old(g).nodes_spec(), old(graph_task).root as int, *final(graph_task), func as int,
                old(g).nodes_spec()[func as int].next_edges@.len() as int),
            final(graph_task).root == old(graph_task).root,
            final(graph_task).reachable == old(graph_task).reachable,
            final(graph_task).executed == old(graph_task).executed,
            final(graph_task).exec_order == old(graph_task).exec_order,
            final(graph_task).grad_mode == old(graph_task).grad_mode,
            final(graph_task).keep_graph == old(graph_task).keep_graph,
    {
        let ghost ns = g.nodes_spec();
        let ghost root = graph_task.root as int;
        proof {
            reveal(run_inv);
        }
        let first = inputs.first();
        proof {
            assert(node_ok(ns, g.tensors_spec().len(), func as int));
            assert(first@ == first_grad(inputs));
        }
        let outputs = g.node(func).apply(&first);
        let ghost outs = apply_spec(ns[func as int].kind, first@);
        let ghost edges = ns[func as int].next_edges@;
        let ghost bv0 = buffers_view(graph_task.buffers@);
        if let NodeKind::AccumulateGrad { variable } = g.node(func).kind {
            proof {
                assert(node_ok(ns, g.tensors_spec().len(), func as int));
            }
            g.accumulate_grad(variable, &first);
        }
        let ghost g_after = *g;
        let n_out = outputs.len();
        proof {
            assert(edges_fit(ns));
            assert(ns[func as int].next_edges@.len() == num_outputs(ns[func as int].kind));
            assert(n_out == apply_spec(ns[func as int].kind, first@).len());
        }
        let mut i: usize = 0;
        while i < n_out
            invariant
                g.wf(),
                g.nodes_spec() == ns,
                g.tensors_spec().len() == old(g).tensors_spec().len(),
                func < ns.len(),
                n_out == outputs@.len(),
                n_out == ns[func as int].next_edges@.len(),
                i <= n_out,
                root == graph_task.root,
                run_inv(ns, root, *graph_task, func as int, i as int),
                graph_task.reachable == old(graph_task).reachable,
                graph_task.executed == old(graph_task).executed,
                graph_task.exec_order == old(graph_task).exec_order,
                graph_task.grad_mode == old(graph_task).grad_mode,
                graph_task.keep_graph == old(graph_task).keep_graph,
                g.grad_mode_spec() == old(g).grad_mode_spec(),
                g.values_spec() == old(g).values_spec(),
                g.tensors_spec() == g_after.tensors_spec(),
                outs == apply_spec(ns[func as int].kind, first@),
                edges == ns[func as int].next_edges@,
                outs.len() == n_out,
                forall|k: int| 0 <= k < n_out ==> #[trigger] outputs@[k]@ == outs[k],
                buffers_view(graph_task.buffers@) == deliver_upto(bv0, edges, outs, i as int),
                graph_task.buffers@.len() == ns.len(),
                flow_inv(ns, root, *graph_task, func as int),
                first@ == first_grad(inputs),
                is_tree(ns, graph_task.reachable@, root) ==> first@ == tree_grad(ns, graph_task.reachable@, root, func as int),
            decreases n_out - i,
        {
            let next = g.node(func).next_edge(i);
            if let Some(e) = next {
                match e.function {
                    None => {
                        proof {
                            lemma_run_skip(ns, root, *graph_task, func as int, i as int);
                        }
                    },
                    Some(t) => {
                        proof {
                            lemma_run_target(ns, root, *graph_task, func as int, i as int, t as int);
                            lemma_queue_bound(ns, root, *graph_task, func as int, i as int, t as int);
                            reveal(run_inv);
                        }
                        let ghost t0 = *graph_task;
                        let ghost bvi = buffers_view(graph_task.buffers@);
                        let d = graph_task.dependencies[t] - 1;
                        graph_task.dependencies.set(t, d);
                        let out = crate::node::copy_grad(&outputs[i]);
                        graph_task.buffers[t].add(e.input_nr, out);
                        proof {
                            let bv1 = buffers_view(graph_task.buffers@);
                            assert(e == edges[i as int]);
                            assert(bvi[t as int].len() == t0.buffers@[t as int].slots@.len());
                            assert(bv1 =~~= deliver(bvi, e, outs[i as int]));
                        }
                        if d == 0 {
                            graph_task.ready_queue.push(NodeTask { node: t });
                            graph_task.outstanding_tasks = graph_task.outstanding_tasks + 1;
                            proof {
                                assert(graph_task.ready_queue.queue@.drop_last() =~= t0.ready_queue.queue@);
                            }
                        }
                        proof {
                            lemma_run_deliver(ns, root, t0, *graph_task, func as int, i as int, t as int);
                            lemma_flow_deliver(ns, root, t0, *graph_task, func as int, i as int, t as int, first@, outs[i as int]);
                        }
                    },
                }
            }
            i = i + 1;
        }
    }

    /// Drains the ready queue: takes a unit, runs its node on the gradients
    /// gathered for it, with the graph's grad mode set to the task's for
    /// the run and put back after, and counts the unit as finished, until
    /// no unit is outstanding.
    pub fn thread_main(&mut self, g: &mut Graph, graph_task: &mut GraphTask)
        requires
            old(g).wf(),
            run_inv(old(g).nodes_spec(), old(graph_task).root as int, *old(graph_task), -1, 0),
            flow_inv(old(g).nodes_spec(), old(graph_task).root as int, *old(graph_task), -1),
        ensures
            final(g).wf(),
            final(g).nodes_spec() == old(g).nodes_spec(),
            final(g).tensors_spec().len() == old(g).tensors_spec().len(),
            run_inv(old(g).nodes_spec(), old(graph_task).root as int, *final(graph_task), -1, 0),
            final(graph_task).ready_queue.queue@.len() == 0,
            final(graph_task).outstanding_tasks == 0,
            final(graph_task).root == old(graph_task).root,
            final(graph_task).reachable == old(graph_task).reachable,
            final(graph_task).grad_mode == old(graph_task).grad_mode,
            final(graph_task).keep_graph == old(graph_task).keep_graph,
            final(g).grad_mode_spec() == old(g).grad_mode_spec(),
            leaf_inv(old(g).nodes_spec(), old(graph_task).root as int, *old(graph_task), *old(g), *old(g))
                ==> leaf_inv(old(g).nodes_spec(), old(graph_task).root as int, *final(graph_task), *old(g), *final(g)),
    {
        let ghost ns = g.nodes_spec();
        let ghost root = graph_task.root as int;
        proof {
            reveal(run_inv);
        }
        while !graph_task.completed()
            invariant
                g.wf(),
                g.nodes_spec() == ns,
                g.tensors_spec().len() == old(g).tensors_spec().len(),
                root == graph_task.root,
                run_inv(ns, root, *graph_task, -1, 0),
                graph_task.reachable == old(graph_task).reachable,
                graph_task.grad_mode == old(graph_task).grad_mode,
                graph_task.keep_graph == old(graph_task).keep_graph,
                g.grad_mode_spec() == old(g).grad_mode_spec(),
                flow_inv(ns, root, *graph_task, -1),
                leaf_inv(ns, root, *old(graph_task), *old(g), *old(g)) ==> leaf_inv(ns, root, *graph_task, *old(g), *g),
            decreases count_unmarked(graph_task.executed@),
        {
            proof {
                reveal(run_inv);
            }
            let ghost t0 = *graph_task;
            let ghost g_head = *g;
            let task = graph_task.ready_queue.pop().unwrap();
            let v = task.node;
            proof {
                lemma_run_pop(ns, root, t0, *graph_task, v as int);
                reveal(run_inv);
            }
            let ghost tp = *graph_task;
            let mut inputs = InputBuffer { slots: Vec::new() };
            graph_task.buffers.set_and_swap(v, &mut inputs);
            proof {
                lemma_run_take(ns, root, tp, *graph_task, v as int);
                lemma_flow_pop(ns, root, t0, *graph_task, v as int);
            }
            let ghost first = first_grad(inputs);
            let prev = g.set_grad_enabled(graph_task.grad_mode);
            self.evaluate_function(g, graph_task, v, inputs);
            g.set_grad_enabled(prev);
            let ghost t1 = *graph_task;
            proof {
                reveal(run_inv);
            }
            graph_task.executed.set(v, true);
            graph_task.exec_order.push(v);
            graph_task.outstanding_tasks = graph_task.outstanding_tasks - 1;
            proof {
                lemma_run_finish(ns, root, t1, *graph_task, v as int);
                lemma_flow_finish(ns, root, t1, *graph_task, v as int);
                reveal(run_inv);
                assert forall|a: int| 0 <= a < ns.len() && (#[trigger] ns[a]).kind is AccumulateGrad
                    implies ns[a].kind->variable.id < g_head.tensors_spec().len() by {
                    assert(node_ok(ns, g_head.tensors_spec().len(), a));
                }
                if leaf_inv(ns, root, *old(graph_task), *old(g), *old(g)) {
                    lemma_leaf_step(ns, root, t0, *graph_task, *old(g), g_head, *g, v as int, first);
                }
            }
        }
        proof {
            reveal(run_inv);
        }
    }

    /// Runs a task whose dependencies have been counted from `root`: queues
    /// the root with an empty input buffer and drains the queue.
    pub fn execute_with_graph_task(&mut self, g: &mut Graph, graph_task: &mut GraphTask, root: usize)
        requires
            old(g).wf(),
            root < old(g).nodes_spec().len(),
            is_reach_set(old(g).nodes_spec(), root as int, old(graph_task).reachable@),
            old(graph_task).dependencies@.len() == old(g).nodes_spec().len(),
            forall|n: int| 0 <= n < old(g).nodes_spec().len() ==> #[trigger] old(graph_task).dependencies@[n]
                == in_count(old(g).nodes_spec(), old(graph_task).reachable@, n),
        ensures
            final(g).wf(),
            final(g).nodes_spec() == old(g).nodes_spec(),
            final(g).tensors_spec().len() == old(g).tensors_spec().len(),
            final(graph_task).root == root,
            final(graph_task).reachable == old(graph_task).reachable,
            final(graph_task).grad_mode == old(graph_task).grad_mode,
            final(graph_task).keep_graph == old(graph_task).keep_graph,
            final(g).grad_mode_spec() == old(g).grad_mode_spec(),
            run_done(old(g).nodes_spec(), root as int, *final(graph_task)),
            leaves_done(old(g).nodes_spec(), root as int, final(graph_task).reachable@, *old(g), *final(g)),
    {
        let ghost ns = g.nodes_spec();
        proof {
            lemma_edges_fit(g);
        }
        let n = g.num_nodes();
        let mut buffers: Vec<InputBuffer> = Vec::with_capacity(n);
        let mut k: usize = 0;
        while k < n
            invariant
                k <= n,
                n == ns.len(),
                ns == g.nodes_spec(),
                buffers@.len() == k,
                forall|j: int| 0 <= j < k ==> (#[trigger] buffers@[j]).slots@.len() == ns[j].input_metadata@.len(),
                forall|j: int, q: int| 0 <= j < k && 0 <= q < buffers@[j].slots@.len() ==> #[trigger] buffers@[j].slots@[q] is None,
            decreases n - k,
        {
            buffers.push(InputBuffer::new_with_size(g.node(k).num_inputs()));
            k = k + 1;
        }
        graph_task.root = root;
        graph_task.buffers = buffers;
        graph_task.executed = vec![false; n];
        graph_task.exec_order = Vec::new();
        graph_task.ready_queue = ReadyQueue::new();
        graph_task.ready_queue.push(NodeTask { node: root });
        graph_task.outstanding_tasks = 1;
        proof {
            assert(graph_task.executed@ =~= Seq::new(ns.len(), |i: int| false));
            lemma_run_init(ns, root as int, *graph_task);
            lemma_flow_init(ns, root as int, *graph_task);
            lemma_leaf_init(ns, root as int, *graph_task, *g);
        }
        self.thread_main(g, graph_task);
        proof {
            lemma_run_done(ns, root as int, *graph_task);
            reveal(leaf_inv);
        }
    }

    /// A backward call: wraps the root edges and their seed gradients in a
    /// new root node, counts dependencies from it and runs the graph. Fails,
    /// before touching the graph, when roots and seeds differ in number or a
    /// root edge names no node or no input slot of it, and after adding the
    /// root when the graph has more edges than fit in `usize`.
    pub fn execute(&mut self, g: &mut Graph, roots: Vec<Edge>, inputs: Vec<Vec<i64>>, create_graph: bool) -> (r: Result<GraphTask, AutogradError>)
        requires
            old(g).wf(),
        ensures
            final(g).wf(),
            !roots_ok(old(g).nodes_spec(), roots@, inputs@.len()) ==> r == Err::<GraphTask, AutogradError>(AutogradError::GraphConsistency)
                && *final(g) == *old(g),
            roots_ok(old(g).nodes_spec(), roots@, inputs@.len()) ==> final(g).nodes_spec() == old(g).nodes_spec().push(Node {
                kind: NodeKind::GraphRoot { seeds: inputs },
                next_edges: roots,
                input_metadata: final(g).nodes_spec().last().input_metadata,
            }) && final(g).nodes_spec().last().input_metadata@.len() == 0
                && (r is Ok <==> graph_edges(final(g).nodes_spec()) <= usize::MAX),
            r is Err ==> r == Err::<GraphTask, AutogradError>(AutogradError::GraphConsistency),
            r is Ok ==> ({
                let t = r->Ok_0;
                &&& t.root == old(g).nodes_spec().len()
                &&& t.grad_mode == create_graph
                &&& t.keep_graph == create_graph
                &&& run_done(final(g).nodes_spec(), t.root as int, t)
                &&& leaves_done(final(g).nodes_spec(), t.root as int, t.reachable@, *old(g), *final(g))
            }),
            final(g).tensors_spec().len() == old(g).tensors_spec().len(),
            final(g).grad_mode_spec() == old(g).grad_mode_spec(),
    {
        if roots.len() != inputs.len() || g.num_nodes() == usize::MAX {
            return Err(AutogradError::GraphConsistency);
        }
        let mut k: usize = 0;
        while k < roots.len()
            invariant
                k <= roots@.len(),
                *g == *old(g),
                g.wf(),
                roots@.len() == inputs@.len(),
                g.nodes_spec().len() < usize::MAX,
                forall|j: int| 0 <= j < k ==> root_edge_ok(g.nodes_spec(), #[trigger] roots@[j]),
            decreases roots@.len() - k,
        {
            if let Some(n) = roots[k].function {
                if n >= g.num_nodes() {
                    assert(!root_edge_ok(g.nodes_spec(), roots@[k as int]));
                    return Err(AutogradError::GraphConsistency);
                }
                if roots[k].input_nr >= g.node(n).num_inputs() {
                    assert(!root_edge_ok(g.nodes_spec(), roots@[k as int]));
                    return Err(AutogradError::GraphConsistency);
                }
            }
            k = k + 1;
        }
        let ghost ns0 = g.nodes_spec();
        let node = Node::new(NodeKind::GraphRoot { seeds: inputs }, roots);
        proof {
            assert forall|i: int| 0 <= i < node.next_edges@.len() implies crate::graph::edge_ok(ns0, ns0.len() as int, #[trigger] node.next_edges@[i]) by {
                assert(root_edge_ok(ns0, roots@[i]));
            }
        }
        let root = g.add_node(node);
        if count_edges(g).is_none() {
            return Err(AutogradError::GraphConsistency);
        }
        let mut task = GraphTask::new(create_graph, create_graph);
        Self::compute_dependencies(g, root, &mut task);
        let ghost g_mid = *g;
        self.execute_with_graph_task(g, &mut task, root);
        proof {
            assert(g_mid.tensors_spec() == old(g).tensors_spec());
            assert forall|x: crate::node::Tensor| grad_view(g_mid, x) == grad_view(*old(g), x) by {
            }
        }
        Ok(task)
    }

    /// Marks every node reachable from `root` and counts, for every node,
    /// the edges that lead into it from reachable nodes. Edges lead to
    /// earlier nodes, so one sweep from the root down visits each reachable
    /// node after all its predecessors.
    #[verifier::spinoff_prover]
    pub fn compute_dependencies(g: &Graph, root: usize, graph_task: &mut GraphTask)
        requires
            g.wf(),
            root < g.nodes_spec().len(),
            graph_edges(g.nodes_spec()) <= usize::MAX,
        ensures
            is_reach_set(g.nodes_spec(), root as int, final(graph_task).reachable@),
            final(graph_task).dependencies@.len() == g.nodes_spec().len(),
            forall|n: int| 0 <= n < g.nodes_spec().len() ==> #[trigger] final(graph_task).dependencies@[n]
                == in_count(g.nodes_spec(), final(graph_task).reachable@, n),
            seq_sum(final(graph_task).dependencies@) == defined_count(g.nodes_spec(), final(graph_task).reachable@),
            final(graph_task).root == old(graph_task).root,
            final(graph_task).outstanding_tasks == old(graph_task).outstanding_tasks,
            final(graph_task).ready_queue == old(graph_task).ready_queue,
            final(graph_task).grad_mode == old(graph_task).grad_mode,
            final(graph_task).keep_graph == old(graph_task).keep_graph,
            final(graph_task).executed == old(graph_task).executed,
            final(graph_task).exec_order == old(graph_task).exec_order,
            final(graph_task).buffers == old(graph_task).buffers,
    {
        let ghost ns = g.nodes_spec();
        proof {
            lemma_descend(ns, g.tensors_spec().len());
        }
        let n = g.num_nodes();
        let ghost full = all_marked(n as nat);
        let mut reach: Vec<bool> = vec![false; n];
        reach.set(root, true);
        let mut deps: Vec<usize> = vec![0usize; n];
        proof {
            assert(deps@ =~= Seq::new(n as nat, |i: int| 0usize));
            assert(reach@ =~= Seq::new(n as nat, |i: int| false).update(root as int, true));
        }
        proof {
            lemma_sweep_init(ns, reach@, deps@, root as int);
        }
        let mut m: usize = root + 1;
        while m > 0
            invariant
                ns == g.nodes_spec(),
                edges_descend(ns),
                n == ns.len(),
                full == all_marked(n as nat),
                root < n,
                m <= root + 1,
                graph_edges(ns) <= usize::MAX,
                sweep_inv(ns, reach@, deps@, m as int, root as int),
            decreases m,
        {
            m = m - 1;
            let ghost r0 = reach@;
            let ghost d0 = deps@;
            proof {
                lemma_sweep_facts(ns, r0, d0, m as int, root as int);
            }
            if reach[m] {
                proof {
                    lemma_defined_range_mono(ns, reach@, full, m as int, n as int);
                    lemma_defined_range_suffix(ns, full, 0, m as int, n as int);
                }
                Self::count_out_edges(g, m, root, &mut reach, &mut deps);
                proof {
                    lemma_sweep_visit(ns, r0, d0, reach@, deps@, m as int, root as int);
                }
            } else {
                proof {
                    lemma_sweep_skip(ns, r0, d0, m as int, root as int);
                }
            }
        }
        proof {
            lemma_sweep_done(ns, reach@, deps@, root as int);
        }
        graph_task.reachable = reach;
        graph_task.dependencies = deps;
    }
}

} // verus!
