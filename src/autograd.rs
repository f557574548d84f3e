//! The protocol every differentiable forward operation follows: decide
//! whether to record, collect the edges to the producers of its inputs
//! (creating leaf accumulators on demand, once per leaf), and attach the
//! recorded node to its result.
use crate::autograd_meta::AutogradMeta;
use crate::graph::{Graph, edge_ok, meta_ok};
use crate::node::{Edge, Node, NodeKind, Tensor};
use crate::version::TensorVersion;
use vstd::prelude::*;

verus! {

/// Whether an operation on `tensors` is recorded: grad mode is on and some
/// input requires gradients.
pub open spec fn compute_requires_grad_spec(g: Graph, tensors: Seq<Tensor>) -> bool {
    g.grad_mode_spec() && exists|i: int| 0 <= i < tensors.len() && g.requires_grad_spec(#[trigger] tensors[i])
}

pub fn compute_requires_grad(g: &Graph, tensors: &[Tensor]) -> (r: bool)
    requires
        forall|i: int| 0 <= i < tensors@.len() ==> g.valid_tensor(#[trigger] tensors@[i]),
    ensures
        r == compute_requires_grad_spec(*g, tensors@),
{
    if !g.is_grad_enabled() {
        return false;
    }
    let mut i: usize = 0;
    while i < tensors.len()
        invariant
            i <= tensors@.len(),
            g.grad_mode_spec(),
            forall|j: int| 0 <= j < tensors@.len() ==> g.valid_tensor(#[trigger] tensors@[j]),
            forall|j: int| 0 <= j < i ==> !g.requires_grad_spec(#[trigger] tensors@[j]),
        decreases tensors@.len() - i,
    {
        if g.tensor_impl(tensors[i]).requires_grad() {
            return true;
        }
        i = i + 1;
    }
    false
}

/// Access to the autograd side of tensors held in a graph.
pub struct TensorHook {}

impl TensorHook {
    /// The node that produced `tensor`, if any.
    pub fn grad_fn(g: &Graph, tensor: Tensor) -> (r: Option<usize>)
        requires
            g.valid_tensor(tensor),
        ensures
            r == g.grad_fn_spec(tensor),
    {
        match g.tensor_impl(tensor).get_autogradmeta() {
            Some(m) => m.grad_fn,
            None => None,
        }
    }

    pub fn get_autograd_meta(g: &Graph, tensor: Tensor) -> (r: Option<&AutogradMeta>)
        requires
            g.valid_tensor(tensor),
        ensures
            r is Some <==> g.meta_of(tensor) is Some,
            r is Some ==> *r->0 == g.meta_of(tensor)->0,
    {
        g.tensor_impl(tensor).get_autogradmeta()
    }

    /// Gives `tensor` an autograd record if it has none.
    pub fn materialize_autograd_meta(g: &mut Graph, tensor: Tensor)
        requires
            old(g).wf(),
            old(g).valid_tensor(tensor),
        ensures
            final(g).wf(),
            final(g).meta_of(tensor) is Some,
            old(g).meta_of(tensor) is Some ==> *final(g) == *old(g),
            old(g).meta_of(tensor) is None ==> final(g).meta_of(tensor) == Some(AutogradMeta {
                requires_grad: false, grad: None, grad_fn: None, output_nr: 0, grad_accumulator: None }),
            final(g).tensors_spec().len() == old(g).tensors_spec().len(),
            final(g).tensors_spec()[tensor.id as int].same_layout(&old(g).tensors_spec()[tensor.id as int]),
            forall|k: int| 0 <= k < old(g).tensors_spec().len() && k != tensor.id ==> final(g).tensors_spec()[k] == old(g).tensors_spec()[k],
            final(g).nodes_spec() == old(g).nodes_spec(),
            final(g).values_spec() == old(g).values_spec(),
            final(g).grad_mode_spec() == old(g).grad_mode_spec(),
    {
        if g.tensor_impl(tensor).get_autogradmeta().is_none() {
            g.set_meta(tensor, AutogradMeta::new());
        }
    }

    /// A new tensor over the same storage, with the same metadata, elements
    /// and version counter, and no autograd record.
    pub fn tensor_data(g: &mut Graph, tensor: Tensor) -> (r: Tensor)
        requires
            old(g).wf(),
            old(g).valid_tensor(tensor),
        ensures
            final(g).wf(),
            r.id == old(g).tensors_spec().len(),
            final(g).tensors_spec().len() == old(g).tensors_spec().len() + 1,
            final(g).tensors_spec()[r.id as int].same_layout(&old(g).tensors_spec()[tensor.id as int]),
            final(g).tensors_spec()[r.id as int].version_spec() == old(g).tensors_spec()[tensor.id as int].version_spec(),
            final(g).meta_of(r) is None,
            final(g).values_spec()[r.id as int] == old(g).values_spec()[tensor.id as int],
            forall|k: int| 0 <= k < old(g).tensors_spec().len() ==> final(g).tensors_spec()[k] == old(g).tensors_spec()[k],
            final(g).nodes_spec() == old(g).nodes_spec(),
    {
        let src = g.tensor_impl(tensor);
        let copy = src.shallow_copy_and_detach(src.version_counter());
        let values = crate::node::copy_grad(g.values(tensor));
        proof {
            assert(old(g).tensors_spec()[tensor.id as int].wf());
        }
        g.add_tensor(copy, values)
    }

    pub fn version_counter(g: &Graph, tensor: Tensor) -> (r: TensorVersion)
        requires
            g.valid_tensor(tensor),
        ensures
            r == g.tensors_spec()[tensor.id as int].version_spec(),
    {
        g.tensor_impl(tensor).version_counter()
    }

    /// Records (or clears) the accumulator of leaf `tensor`; it must be an
    /// accumulator node for that tensor.
    pub fn set_grad_accumulator(g: &mut Graph, tensor: Tensor, grad_accumulator: Option<usize>)
        requires
            old(g).wf(),
            old(g).valid_tensor(tensor),
            grad_accumulator is Some ==> grad_accumulator->0 < old(g).nodes_spec().len()
                && old(g).nodes_spec()[grad_accumulator->0 as int].kind == (NodeKind::AccumulateGrad { variable: tensor }),
        ensures
            final(g).wf(),
            final(g).meta_of(tensor) is Some,
            final(g).meta_of(tensor)->0.grad_accumulator == grad_accumulator,
            old(g).meta_of(tensor) is Some ==> final(g).meta_of(tensor)->0 == (AutogradMeta {
                grad_accumulator, ..old(g).meta_of(tensor)->0 }),
            old(g).meta_of(tensor) is None ==> final(g).meta_of(tensor)->0 == (AutogradMeta {
                requires_grad: false, grad: None, grad_fn: None, output_nr: 0, grad_accumulator }),
            final(g).tensors_spec()[tensor.id as int].same_layout(&old(g).tensors_spec()[tensor.id as int]),
            forall|k: int| 0 <= k < old(g).tensors_spec().len() && k != tensor.id ==> final(g).tensors_spec()[k] == old(g).tensors_spec()[k],
            final(g).nodes_spec() == old(g).nodes_spec(),
            final(g).tensors_spec().len() == old(g).tensors_spec().len(),
    {
        g.set_accumulator(tensor, grad_accumulator);
    }

    /// Gives `tensor` another version counter.
    pub fn set_version_counter(g: &mut Graph, tensor: Tensor, version_counter: TensorVersion)
        requires
            old(g).wf(),
            old(g).valid_tensor(tensor),
            version_counter.id < old(g).versions_spec().len(),
        ensures
            final(g).wf(),
            final(g).tensors_spec()[tensor.id as int].version_spec() == version_counter,
            final(g).tensors_spec()[tensor.id as int].same_layout(&old(g).tensors_spec()[tensor.id as int]),
            forall|k: int| 0 <= k < old(g).tensors_spec().len() && k != tensor.id ==> final(g).tensors_spec()[k] == old(g).tensors_spec()[k],
            final(g).meta_of(tensor) == old(g).meta_of(tensor),
            final(g).nodes_spec() == old(g).nodes_spec(),
            final(g).tensors_spec().len() == old(g).tensors_spec().len(),
    {
        g.set_tensor_version(tensor, version_counter);
    }
}

/// What `grad_accumulator` does: a tensor with no record, or that does not
/// require gradients, has none and nothing changes; a leaf that has one gets
/// it back and nothing changes; otherwise a new accumulator node for it is
/// appended and recorded on the leaf.
pub open spec fn grad_accumulator_post(g0: Graph, tensor: Tensor, g1: Graph, r: Option<usize>) -> bool {
    &&& g1.wf()
    &&& g1.extends(&g0)
    &&& !g0.requires_grad_spec(tensor) ==> r is None && g1 == g0
    &&& g0.requires_grad_spec(tensor) ==> r is Some && r->0 < g1.nodes_spec().len()
        && g1.nodes_spec()[r->0 as int].kind == (NodeKind::AccumulateGrad { variable: tensor })
        && g1.nodes_spec()[r->0 as int].input_metadata@.len() == 1
        && g1.meta_of(tensor) is Some
        && g1.meta_of(tensor)->0.grad_accumulator == r
    &&& g0.requires_grad_spec(tensor) && g0.meta_of(tensor)->0.grad_accumulator is Some
        ==> r == g0.meta_of(tensor)->0.grad_accumulator && g1 == g0
    &&& g0.requires_grad_spec(tensor) && g0.meta_of(tensor)->0.grad_accumulator is None
        ==> r == Some(g0.nodes_spec().len() as usize) && g1.nodes_spec().len() == g0.nodes_spec().len() + 1
}

/// Asking twice for the accumulator of the same leaf gives the same node,
/// and the second request changes nothing.
pub proof fn leaf_accumulator_identity(g0: Graph, g1: Graph, g2: Graph, tensor: Tensor, r1: Option<usize>, r2: Option<usize>)
    requires
        g0.wf(),
        g0.valid_tensor(tensor),
        grad_accumulator_post(g0, tensor, g1, r1),
        grad_accumulator_post(g1, tensor, g2, r2),
    ensures
        r1 == r2,
        g2 == g1,
{
    if g0.requires_grad_spec(tensor) {
        assert(g1.tensors_spec()[tensor.id as int].same_layout(&g0.tensors_spec()[tensor.id as int]));
        assert(g1.requires_grad_spec(tensor));
    }
}

/// The gradient sink of leaf `tensor`, created on first use and the same
/// node on every later call.
pub fn grad_accumulator(g: &mut Graph, tensor: Tensor) -> (r: Option<usize>)
    requires
        old(g).wf(),
        old(g).valid_tensor(tensor),
        old(g).grad_fn_spec(tensor) is None,
    ensures
        grad_accumulator_post(*old(g), tensor, *final(g), r),
{
    proof {
        old(g).lemma_extends_refl();
    }
    let meta = match g.tensor_impl(tensor).get_autogradmeta() {
        Some(m) => m,
        None => {
            return None;
        },
    };
    if !meta.requires_grad {
        return None;
    }
    if let Some(acc) = meta.grad_accumulator {
        proof {
            assert(meta_ok(g.nodes_spec(), tensor.id as int, g.meta_of(tensor)->0));
            assert(crate::graph::node_ok(g.nodes_spec(), g.tensors_spec().len(), acc as int));
        }
        return Some(acc);
    }
    let numel = g.tensor_impl(tensor).numel();
    let mut input_metadata: Vec<usize> = Vec::new();
    input_metadata.push(numel);
    let node = Node { kind: NodeKind::AccumulateGrad { variable: tensor }, next_edges: Vec::new(), input_metadata };
    let id = g.add_node(node);
    g.set_accumulator(tensor, Some(id));
    proof {
        assert forall|n: int| 0 <= n < old(g).nodes_spec().len() implies #[trigger] g.nodes_spec()[n] == old(g).nodes_spec()[n] by {
        }
    }
    Some(id)
}

/// The edge along which the gradient of `tensor` flows: to the node that
/// produced it, at its output slot, or for a leaf to its accumulator (no
/// edge target if it does not require gradients).
pub fn gradient_edge(g: &mut Graph, tensor: Tensor) -> (r: Edge)
    requires
        old(g).wf(),
        old(g).valid_tensor(tensor),
    ensures
        final(g).wf(),
        final(g).extends(old(g)),
        edge_ok(final(g).nodes_spec(), final(g).nodes_spec().len() as int, r),
        old(g).grad_fn_spec(tensor) is Some ==> (r == (Edge { function: old(g).grad_fn_spec(tensor), input_nr: old(g).meta_of(tensor)->0.output_nr })
            && *final(g) == *old(g)),
        old(g).grad_fn_spec(tensor) is None ==> (grad_accumulator_post(*old(g), tensor, *final(g), r.function) && r.input_nr == 0),
{
    proof {
        old(g).lemma_extends_refl();
    }
    match TensorHook::grad_fn(g, tensor) {
        Some(f) => {
            let nr = g.tensor_impl(tensor).get_autogradmeta().unwrap().output_nr;
            proof {
                assert(meta_ok(g.nodes_spec(), tensor.id as int, g.meta_of(tensor)->0));
            }
            Edge::new(Some(f), nr)
        },
        None => {
            let acc = grad_accumulator(g, tensor);
            Edge::new(acc, 0)
        },
    }
}

/// The edge of a leaf that requires gradients: to its recorded
/// accumulator, at slot 0.
pub open spec fn leaf_edge(g: Graph, t: Tensor, e: Edge) -> bool {
    &&& g.meta_of(t) is Some
    &&& g.meta_of(t)->0.grad_accumulator is Some
    &&& e == (Edge { function: g.meta_of(t)->0.grad_accumulator, input_nr: 0 })
    &&& g.meta_of(t)->0.grad_accumulator->0 < g.nodes_spec().len()
    &&& g.nodes_spec()[g.meta_of(t)->0.grad_accumulator->0 as int].kind == (NodeKind::AccumulateGrad { variable: t })
}

/// The edge for input `t` of an operation recorded on `g0`, with `g1` the
/// graph afterwards: to the node that produced `t` at its output slot, to
/// the memoized accumulator of a leaf that requires gradients, or to
/// nothing.
pub open spec fn input_edge(g0: Graph, g1: Graph, t: Tensor, e: Edge) -> bool {
    if g0.grad_fn_spec(t) is Some {
        e == (Edge { function: g0.grad_fn_spec(t), input_nr: g0.meta_of(t)->0.output_nr })
    } else if g0.requires_grad_spec(t) {
        leaf_edge(g1, t, e)
    } else {
        e.function is None
    }
}

/// The gradient edge of each input, in order.
pub fn collect_next_edges(g: &mut Graph, tensors: &[Tensor]) -> (r: Vec<Edge>)
    requires
        old(g).wf(),
        forall|i: int| 0 <= i < tensors@.len() ==> old(g).valid_tensor(#[trigger] tensors@[i]),
    ensures
        final(g).wf(),
        final(g).extends(old(g)),
        r@.len() == tensors@.len(),
        forall|i: int| 0 <= i < r@.len() ==> edge_ok(final(g).nodes_spec(), final(g).nodes_spec().len() as int, #[trigger] r@[i]),
        forall|i: int| 0 <= i < r@.len() && old(g).grad_fn_spec(#[trigger] tensors@[i]) is Some ==> r@[i] == (Edge {
            function: old(g).grad_fn_spec(tensors@[i]),
            input_nr: old(g).meta_of(tensors@[i])->0.output_nr,
        }),
        forall|i: int| 0 <= i < r@.len() ==> ((#[trigger] r@[i]).function is Some <==> (old(g).grad_fn_spec(tensors@[i]) is Some
            || old(g).requires_grad_spec(tensors@[i]))),
        forall|i: int| 0 <= i < r@.len() ==> input_edge(*old(g), *final(g), tensors@[i], #[trigger] r@[i]),
{
    let mut next_edges: Vec<Edge> = Vec::with_capacity(tensors.len());
    let mut i: usize = 0;
    proof {
        old(g).lemma_extends_refl();
    }
    while i < tensors.len()
        invariant
            i <= tensors@.len(),
            g.wf(),
            g.extends(old(g)),
            forall|j: int| 0 <= j < tensors@.len() ==> old(g).valid_tensor(#[trigger] tensors@[j]),
            next_edges@.len() == i,
            forall|j: int| 0 <= j < i ==> edge_ok(g.nodes_spec(), g.nodes_spec().len() as int, #[trigger] next_edges@[j]),
            forall|j: int| 0 <= j < i && old(g).grad_fn_spec(#[trigger] tensors@[j]) is Some ==> next_edges@[j] == (Edge {
                function: old(g).grad_fn_spec(tensors@[j]),
                input_nr: old(g).meta_of(tensors@[j])->0.output_nr,
            }),
            forall|j: int| 0 <= j < i ==> ((#[trigger] next_edges@[j]).function is Some <==> (old(g).grad_fn_spec(tensors@[j]) is Some
                || old(g).requires_grad_spec(tensors@[j]))),
            forall|j: int| 0 <= j < i ==> input_edge(*old(g), *g, tensors@[j], #[trigger] next_edges@[j]),
        decreases tensors@.len() - i,
    {
        let ghost g0 = *g;
        let t = tensors[i];
        proof {
            assert(g0.tensors_spec()[t.id as int].same_layout(&old(g).tensors_spec()[t.id as int]));
        }
        let e = gradient_edge(g, t);
        proof {
            Graph::lemma_extends_trans(old(g), &g0, g);
            assert forall|j: int| 0 <= j < i implies edge_ok(g.nodes_spec(), g.nodes_spec().len() as int, #[trigger] next_edges@[j]) by {
                Graph::lemma_edge_extends(&g0, g, next_edges@[j]);
            }
            assert forall|j: int| 0 <= j < i implies input_edge(*old(g), *g, tensors@[j], #[trigger] next_edges@[j]) by {
                let u = tensors@[j];
                assert(g.tensors_spec()[u.id as int].same_layout(&g0.tensors_spec()[u.id as int]));
                if old(g).grad_fn_spec(u) is None && old(g).requires_grad_spec(u) {
                    assert(leaf_edge(g0, u, next_edges@[j]));
                    let acc = g0.meta_of(u)->0.grad_accumulator->0 as int;
                    assert(g.nodes_spec()[acc] == g0.nodes_spec()[acc]);
                }
            }
            assert(g0.meta_of(t) == old(g).meta_of(t) || (old(g).meta_of(t) is Some && g0.meta_of(t) is Some));
            assert(g0.grad_fn_spec(t) == old(g).grad_fn_spec(t));
            assert(g0.requires_grad_spec(t) == old(g).requires_grad_spec(t));
            assert(input_edge(*old(g), *g, t, e));
        }
        next_edges.push(e);
        i = i + 1;
    }
    next_edges
}

/// Makes `tensor` the output `args.1` of node `args.0`.
pub fn set_gradient_edge(g: &mut Graph, tensor: Tensor, args: (usize, usize))
    requires
        old(g).wf(),
        old(g).valid_tensor(tensor),
        args.0 < old(g).nodes_spec().len(),
        args.1 < old(g).nodes_spec()[args.0 as int].input_metadata@.len(),
    ensures
        final(g).wf(),
        final(g).meta_of(tensor) is Some,
        final(g).meta_of(tensor)->0.grad_fn == Some(args.0),
        final(g).meta_of(tensor)->0.output_nr == args.1,
        final(g).meta_of(tensor)->0.requires_grad == old(g).requires_grad_spec(tensor),
        old(g).meta_of(tensor) is Some ==> final(g).meta_of(tensor)->0 == (AutogradMeta {
            grad_fn: Some(args.0), output_nr: args.1, ..old(g).meta_of(tensor)->0 }),
        old(g).meta_of(tensor) is None ==> final(g).meta_of(tensor)->0 == (AutogradMeta {
            requires_grad: false, grad: None, grad_fn: Some(args.0), output_nr: args.1, grad_accumulator: None }),
        final(g).nodes_spec() == old(g).nodes_spec(),
        final(g).tensors_spec().len() == old(g).tensors_spec().len(),
        final(g).tensors_spec()[tensor.id as int].same_layout(&old(g).tensors_spec()[tensor.id as int]),
        forall|k: int| 0 <= k < old(g).tensors_spec().len() && k != tensor.id ==> final(g).tensors_spec()[k] == old(g).tensors_spec()[k],
        final(g).values_spec() == old(g).values_spec(),
        final(g).grad_mode_spec() == old(g).grad_mode_spec(),
{
    let edge = Edge::new(Some(args.0), args.1);
    g.set_edge_of(tensor, edge.function, edge.input_nr);
}

/// Registers `tensor` as the next output of node `grad_fn` and makes it
/// that output. Fails, changing nothing, when the node is an accumulator
/// (which has no outputs to register) or its slots are exhausted.
pub fn set_history(g: &mut Graph, tensor: Tensor, grad_fn: usize) -> (r: bool)
    requires
        old(g).wf(),
        old(g).valid_tensor(tensor),
        grad_fn < old(g).nodes_spec().len(),
    ensures
        final(g).wf(),
        r <==> !(old(g).nodes_spec()[grad_fn as int].kind is AccumulateGrad)
            && old(g).nodes_spec()[grad_fn as int].input_metadata@.len() < usize::MAX,
        !r ==> *final(g) == *old(g),
        r ==> final(g).grad_fn_spec(tensor) == Some(grad_fn)
            && final(g).meta_of(tensor)->0.output_nr == old(g).nodes_spec()[grad_fn as int].input_metadata@.len()
            && final(g).meta_of(tensor)->0.requires_grad == old(g).requires_grad_spec(tensor)
            && final(g).nodes_spec()[grad_fn as int].input_metadata@ == old(g).nodes_spec()[grad_fn as int].input_metadata@.push(
                old(g).tensors_spec()[tensor.id as int].numel_spec()),
        final(g).nodes_spec().len() == old(g).nodes_spec().len(),
        forall|n: int| 0 <= n < old(g).nodes_spec().len() ==> (#[trigger] final(g).nodes_spec()[n]).kind == old(g).nodes_spec()[n].kind
            && final(g).nodes_spec()[n].next_edges == old(g).nodes_spec()[n].next_edges,
        final(g).tensors_spec().len() == old(g).tensors_spec().len(),
        forall|k: int| 0 <= k < old(g).tensors_spec().len() ==> (#[trigger] final(g).tensors_spec()[k]).same_layout(&old(g).tensors_spec()[k]),
        forall|k: int| 0 <= k < old(g).tensors_spec().len() && k != tensor.id ==> final(g).tensors_spec()[k] == old(g).tensors_spec()[k],
        final(g).values_spec() == old(g).values_spec(),
        final(g).grad_mode_spec() == old(g).grad_mode_spec(),
{
    let numel = g.tensor_impl(tensor).numel_of_impl();
    match g.add_input_metadata(grad_fn, numel) {
        Some(output_nr) => {
            set_gradient_edge(g, tensor, (grad_fn, output_nr));
            true
        },
        None => false,
    }
}

} // verus!
