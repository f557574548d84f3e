//! Differentiable forward operations on tensors of 64-bit integers. Each
//! decides whether to record, builds its backward node with the edges to
//! its inputs' producers, computes its result and attaches the node to it.
use crate::autograd::{collect_next_edges, compute_requires_grad, compute_requires_grad_spec, input_edge, leaf_edge, set_history};
use crate::error::AutogradError;
use crate::graph::Graph;
use crate::matrix::{addmm_exec, addmm_values, matmul, matmul_exec, transpose_exec, transposed};
use crate::node::{Node, NodeKind, Tensor, at, kind_ok, num_outputs};
use crate::shape::prod;
use vstd::prelude::*;

verus! {

/// Elementwise sum of the first `n` elements; arithmetic wraps.
pub open spec fn add_values(a: Seq<i64>, b: Seq<i64>, n: nat) -> Seq<i64> {
    Seq::new(n, |i: int| at(a, i).wrapping_add(at(b, i)))
}

/// Elementwise difference of the first `n` elements; arithmetic wraps.
pub open spec fn sub_values(a: Seq<i64>, b: Seq<i64>, n: nat) -> Seq<i64> {
    Seq::new(n, |i: int| at(a, i).wrapping_sub(at(b, i)))
}

/// Elementwise product of the first `n` elements; arithmetic wraps.
pub open spec fn mul_values(a: Seq<i64>, b: Seq<i64>, n: nat) -> Seq<i64> {
    Seq::new(n, |i: int| at(a, i).wrapping_mul(at(b, i)))
}

/// Elementwise negation of the first `n` elements; arithmetic wraps.
pub open spec fn neg_values(a: Seq<i64>, n: nat) -> Seq<i64> {
    Seq::new(n, |i: int| 0i64.wrapping_sub(at(a, i)))
}

/// Sum of the first `n` elements; arithmetic wraps.
pub open spec fn sum_values(a: Seq<i64>, n: nat) -> i64
    decreases n,
{
    if n == 0 {
        0i64
    } else {
        sum_values(a, (n - 1) as nat).wrapping_add(at(a, n - 1))
    }
}

/// An operation's inputs and result are well placed in the graph.
pub open spec fn op_result(g0: Graph, g1: Graph, inputs: Seq<Tensor>, kind: NodeKind, sizes: Seq<usize>, values: Seq<i64>, r: Tensor) -> bool {
    &&& g1.wf()
    &&& g1.valid_tensor(r)
    &&& r.id >= g0.tensors_spec().len()
    &&& g1.tensors_spec()[r.id as int].sizes_spec() == sizes
    &&& g1.values_spec()[r.id as int] == values
    &&& g1.grad_mode_spec() == g0.grad_mode_spec()
    &&& (compute_requires_grad_spec(g0, inputs) <==> g1.grad_fn_spec(r) is Some)
    &&& g1.requires_grad_spec(r) == compute_requires_grad_spec(g0, inputs)
    &&& g1.grad_fn_spec(r) is Some ==> ({
        let n = g1.grad_fn_spec(r)->0 as int;
        &&& g1.nodes_spec()[n].kind == kind
        &&& g1.nodes_spec()[n].next_edges@.len() == inputs.len()
        &&& g1.meta_of(r)->0.output_nr == 0
        &&& forall|i: int| 0 <= i < inputs.len() ==> ((#[trigger] g1.nodes_spec()[n].next_edges@[i]).function is Some
            <==> (g0.grad_fn_spec(inputs[i]) is Some || g0.requires_grad_spec(inputs[i])))
        &&& forall|i: int| 0 <= i < inputs.len() ==> input_edge(g0, g1, inputs[i], #[trigger] g1.nodes_spec()[n].next_edges@[i])
    })
}

/// Fails when a tensor that must not require gradients (a loss's target or
/// weight) does.
pub fn check_no_requires_grad(g: &Graph, tensor: Tensor, name: &str) -> (r: Result<(), AutogradError>)
    requires
        g.valid_tensor(tensor),
    ensures
        r is Ok <==> !(g.tensors_spec()[tensor.id as int].defined_spec() && g.requires_grad_spec(tensor)),
        r is Err ==> r == Err::<(), AutogradError>(AutogradError::GradientOnNonDifferentiableInput),
{
    let t = g.tensor_impl(tensor);
    if t.defined() && t.requires_grad() {
        Err(AutogradError::GradientOnNonDifferentiableInput)
    } else {
        Ok(())
    }
}

/// Records `kind` over `inputs` when grad mode is on and some input
/// requires gradients, and creates the result with the given sizes and
/// elements, attached to the node.
fn record(g: &mut Graph, inputs: &[Tensor], kind: NodeKind, sizes: &[usize], values: Vec<i64>) -> (r: Result<Tensor, AutogradError>)
    requires
        old(g).wf(),
        forall|i: int| 0 <= i < inputs@.len() ==> old(g).valid_tensor(#[trigger] inputs@[i]),
        inputs@.len() == num_outputs(kind),
        kind_ok(kind),
        !(kind is AccumulateGrad),
        !(kind is GraphRoot),
    ensures
        final(g).wf(),
        final(g).tensors_spec().len() >= old(g).tensors_spec().len(),
        r is Ok <==> (sizes@.len() <= i64::MAX && crate::shape::strides_fit(sizes@) && values@.len() == prod(sizes@)
            && prod(sizes@) * 8 <= usize::MAX),
        r is Err ==> r == Err::<Tensor, AutogradError>(AutogradError::ShapeMismatch),
        r is Ok ==> op_result(*old(g), *final(g), inputs@, kind, sizes@, values@, r->Ok_0),
{
    let requires_grad = compute_requires_grad(g, inputs);
    let ghost g0 = *g;
    let mut grad_fn: Option<usize> = None;
    let ghost gc = *g;
    if requires_grad {
        let next_edges = collect_next_edges(g, inputs);
        proof {
            gc = *g;
        }
        let node = Node::new(kind, next_edges);
        proof {
            assert forall|i: int| 0 <= i < node.next_edges@.len() implies crate::graph::edge_ok(g.nodes_spec(), g.nodes_spec().len() as int, #[trigger] node.next_edges@[i]) by {
            }
        }
        grad_fn = Some(g.add_node(node));
    }
    let result = g.new_tensor(sizes, values, requires_grad)?;
    if let Some(f) = grad_fn {
        let ok = set_history(g, result, f);
        assert(ok);
    }
    proof {
        if requires_grad {
            let n = grad_fn->0 as int;
            assert(g.nodes_spec()[n].kind == kind);
            assert forall|i: int| 0 <= i < inputs@.len() implies ((#[trigger] g.nodes_spec()[n].next_edges@[i]).function is Some
                <==> (g0.grad_fn_spec(inputs@[i]) is Some || g0.requires_grad_spec(inputs@[i]))) by {
            }
            assert forall|i: int| 0 <= i < inputs@.len() implies input_edge(g0, *g, inputs@[i], #[trigger] g.nodes_spec()[n].next_edges@[i]) by {
                let u = inputs@[i];
                assert(input_edge(g0, gc, u, g.nodes_spec()[n].next_edges@[i]));
                assert(u.id < result.id);
                assert(g.tensors_spec()[u.id as int] == gc.tensors_spec()[u.id as int]);
                if g0.grad_fn_spec(u) is None && g0.requires_grad_spec(u) {
                    let acc = gc.meta_of(u)->0.grad_accumulator->0 as int;
                    assert(g.nodes_spec()[acc].kind == gc.nodes_spec()[acc].kind);
                }
            }
        }
    }
    Ok(result)
}

/// Elements of `t`, the first `n` of them padded with zeros.
fn elements(g: &Graph, t: Tensor, n: usize) -> (r: Vec<i64>)
    requires
        g.wf(),
        g.valid_tensor(t),
    ensures
        r@ == Seq::new(n as nat, |i: int| at(g.values_spec()[t.id as int], i)),
{
    let v = g.values(t);
    let mut r: Vec<i64> = Vec::with_capacity(n);
    let mut i: usize = 0;
    while i < n
        invariant
            i <= n,
            v@ == g.values_spec()[t.id as int],
            r@ =~= Seq::new(i as nat, |k: int| at(v@, k)),
        decreases n - i,
    {
        r.push(if i < v.len() { v[i] } else { 0 });
        i = i + 1;
    }
    r
}

/// `a + b`, elementwise, for tensors of one shape.
pub fn add(g: &mut Graph, a: Tensor, b: Tensor) -> (r: Result<Tensor, AutogradError>)
    requires
        old(g).wf(),
        old(g).valid_tensor(a),
        old(g).valid_tensor(b),
    ensures
        final(g).wf(),
        r is Ok <==> (old(g).tensors_spec()[a.id as int].sizes_spec() == old(g).tensors_spec()[b.id as int].sizes_spec()
            && prod(old(g).tensors_spec()[a.id as int].sizes_spec()) * 8 <= usize::MAX),
        r is Err ==> r == Err::<Tensor, AutogradError>(AutogradError::ShapeMismatch),
        r is Ok ==> op_result(*old(g), *final(g), seq![a, b], NodeKind::AddBackward, old(g).tensors_spec()[a.id as int].sizes_spec(),
            add_values(old(g).values_spec()[a.id as int], old(g).values_spec()[b.id as int],
                prod(old(g).tensors_spec()[a.id as int].sizes_spec()) as nat), r->Ok_0),
{
    let (sizes, n) = match same_shape(g, a, b) {
        Some(p) => p,
        None => {
            return Err(AutogradError::ShapeMismatch);
        },
    };
    proof {
        assert(g.tensors_spec()[a.id as int].wf());
    }
    let va = elements(g, a, n);
    let vb = elements(g, b, n);
    let mut out: Vec<i64> = Vec::with_capacity(n);
    let mut i: usize = 0;
    while i < n
        invariant
            i <= n,
            va@.len() == n,
            vb@.len() == n,
            out@ =~= Seq::new(i as nat, |k: int| va@[k].wrapping_add(vb@[k])),
        decreases n - i,
    {
        out.push(va[i].wrapping_add(vb[i]));
        i = i + 1;
    }
    proof {
        assert(out@ =~= add_values(g.values_spec()[a.id as int], g.values_spec()[b.id as int], n as nat));
    }
    let inputs: [Tensor; 2] = [a, b];
    proof {
        assert(inputs@ =~= seq![a, b]);
    }
    record(g, inputs.as_slice(), NodeKind::AddBackward, sizes.as_slice(), out)
}

/// `a - b`, elementwise, for tensors of one shape.
pub fn sub(g: &mut Graph, a: Tensor, b: Tensor) -> (r: Result<Tensor, AutogradError>)
    requires
        old(g).wf(),
        old(g).valid_tensor(a),
        old(g).valid_tensor(b),
    ensures
        final(g).wf(),
        r is Ok <==> (old(g).tensors_spec()[a.id as int].sizes_spec() == old(g).tensors_spec()[b.id as int].sizes_spec()
            && prod(old(g).tensors_spec()[a.id as int].sizes_spec()) * 8 <= usize::MAX),
        r is Err ==> r == Err::<Tensor, AutogradError>(AutogradError::ShapeMismatch),
        r is Ok ==> op_result(*old(g), *final(g), seq![a, b], NodeKind::SubBackward, old(g).tensors_spec()[a.id as int].sizes_spec(),
            sub_values(old(g).values_spec()[a.id as int], old(g).values_spec()[b.id as int],
                prod(old(g).tensors_spec()[a.id as int].sizes_spec()) as nat), r->Ok_0),
{
    let (sizes, n) = match same_shape(g, a, b) {
        Some(p) => p,
        None => {
            return Err(AutogradError::ShapeMismatch);
        },
    };
    proof {
        assert(g.tensors_spec()[a.id as int].wf());
    }
    let va = elements(g, a, n);
    let vb = elements(g, b, n);
    let mut out: Vec<i64> = Vec::with_capacity(n);
    let mut i: usize = 0;
    while i < n
        invariant
            i <= n,
            va@.len() == n,
            vb@.len() == n,
            out@ =~= Seq::new(i as nat, |k: int| va@[k].wrapping_sub(vb@[k])),
        decreases n - i,
    {
        out.push(va[i].wrapping_sub(vb[i]));
        i = i + 1;
    }
    proof {
        assert(out@ =~= sub_values(g.values_spec()[a.id as int], g.values_spec()[b.id as int], n as nat));
    }
    let inputs: [Tensor; 2] = [a, b];
    proof {
        assert(inputs@ =~= seq![a, b]);
    }
    record(g, inputs.as_slice(), NodeKind::SubBackward, sizes.as_slice(), out)
}

/// `a * b`, elementwise, for tensors of one shape; both operands are
/// captured for the backward pass.
pub fn mul(g: &mut Graph, a: Tensor, b: Tensor) -> (r: Result<Tensor, AutogradError>)
    requires
        old(g).wf(),
        old(g).valid_tensor(a),
        old(g).valid_tensor(b),
    ensures
        final(g).wf(),
        r is Ok <==> (old(g).tensors_spec()[a.id as int].sizes_spec() == old(g).tensors_spec()[b.id as int].sizes_spec()
            && prod(old(g).tensors_spec()[a.id as int].sizes_spec()) * 8 <= usize::MAX),
        r is Err ==> r == Err::<Tensor, AutogradError>(AutogradError::ShapeMismatch),
        r is Ok ==> ({
            let n = prod(old(g).tensors_spec()[a.id as int].sizes_spec()) as nat;
            let va = old(g).values_spec()[a.id as int];
            let vb = old(g).values_spec()[b.id as int];
            &&& exists|k: NodeKind| op_result(*old(g), *final(g), seq![a, b], k, old(g).tensors_spec()[a.id as int].sizes_spec(),
                mul_values(va, vb, n), r->Ok_0)
            &&& final(g).grad_fn_spec(r->Ok_0) is Some ==> ({
                let kind = final(g).nodes_spec()[final(g).grad_fn_spec(r->Ok_0)->0 as int].kind;
                &&& kind is MulBackward
                &&& kind->self_@ == Seq::new(n, |i: int| at(va, i))
                &&& kind->other@ == Seq::new(n, |i: int| at(vb, i))
            })
        }),
{
    let (sizes, n) = match same_shape(g, a, b) {
        Some(p) => p,
        None => {
            return Err(AutogradError::ShapeMismatch);
        },
    };
    proof {
        assert(g.tensors_spec()[a.id as int].wf());
    }
    let va = elements(g, a, n);
    let vb = elements(g, b, n);
    let mut out: Vec<i64> = Vec::with_capacity(n);
    let mut i: usize = 0;
    while i < n
        invariant
            i <= n,
            va@.len() == n,
            vb@.len() == n,
            out@ =~= Seq::new(i as nat, |k: int| va@[k].wrapping_mul(vb@[k])),
        decreases n - i,
    {
        out.push(va[i].wrapping_mul(vb[i]));
        i = i + 1;
    }
    proof {
        assert(out@ =~= mul_values(g.values_spec()[a.id as int], g.values_spec()[b.id as int], n as nat));
    }
    let inputs: [Tensor; 2] = [a, b];
    proof {
        assert(inputs@ =~= seq![a, b]);
    }
    let kind = NodeKind::MulBackward { self_: va, other: vb };
    let ghost k = kind;
    let r = record(g, inputs.as_slice(), kind, sizes.as_slice(), out);
    proof {
        if r is Ok {
            let nn = prod(old(g).tensors_spec()[a.id as int].sizes_spec()) as nat;
            assert(nn == n);
            assert(op_result(*old(g), *g, seq![a, b], k, old(g).tensors_spec()[a.id as int].sizes_spec(),
                mul_values(old(g).values_spec()[a.id as int], old(g).values_spec()[b.id as int], nn), r->Ok_0));
            if g.grad_fn_spec(r->Ok_0) is Some {
                let kind2 = g.nodes_spec()[g.grad_fn_spec(r->Ok_0)->0 as int].kind;
                assert(kind2 == k);
                assert(kind2->self_@ == va@);
            }
        }
    }
    r
}

/// `-a`, elementwise.
pub fn neg(g: &mut Graph, a: Tensor) -> (r: Result<Tensor, AutogradError>)
    requires
        old(g).wf(),
        old(g).valid_tensor(a),
    ensures
        final(g).wf(),
        r is Ok <==> prod(old(g).tensors_spec()[a.id as int].sizes_spec()) * 8 <= usize::MAX,
        r is Err ==> r == Err::<Tensor, AutogradError>(AutogradError::ShapeMismatch),
        r is Ok ==> op_result(*old(g), *final(g), seq![a], NodeKind::NegBackward, old(g).tensors_spec()[a.id as int].sizes_spec(),
            neg_values(old(g).values_spec()[a.id as int], prod(old(g).tensors_spec()[a.id as int].sizes_spec()) as nat), r->Ok_0),
{
    let sizes = copy_sizes(g, a);
    let n = g.tensor_impl(a).numel();
    let va = elements(g, a, n);
    let mut out: Vec<i64> = Vec::with_capacity(n);
    let mut i: usize = 0;
    while i < n
        invariant
            i <= n,
            va@.len() == n,
            out@ =~= Seq::new(i as nat, |k: int| 0i64.wrapping_sub(va@[k])),
        decreases n - i,
    {
        out.push(0i64.wrapping_sub(va[i]));
        i = i + 1;
    }
    proof {
        assert(out@ =~= neg_values(g.values_spec()[a.id as int], n as nat));
        assert(g.tensors_spec()[a.id as int].wf());
    }
    let inputs: [Tensor; 1] = [a];
    proof {
        assert(inputs@ =~= seq![a]);
    }
    record(g, inputs.as_slice(), NodeKind::NegBackward, sizes.as_slice(), out)
}

/// The sum of all elements of `a`, as a tensor of no dimensions.
pub fn sum(g: &mut Graph, a: Tensor) -> (r: Result<Tensor, AutogradError>)
    requires
        old(g).wf(),
        old(g).valid_tensor(a),
    ensures
        final(g).wf(),
        r is Ok,
        r is Ok ==> op_result(*old(g), *final(g), seq![a], NodeKind::SumBackward { numel: old(g).tensors_spec()[a.id as int].numel_spec() },
            Seq::<usize>::empty(), seq![sum_values(old(g).values_spec()[a.id as int], prod(old(g).tensors_spec()[a.id as int].sizes_spec()) as nat)],
            r->Ok_0),
{
    let n = g.tensor_impl(a).numel();
    let v = g.values(a);
    let mut acc: i64 = 0;
    let mut i: usize = 0;
    while i < n
        invariant
            i <= n,
            v@ == g.values_spec()[a.id as int],
            acc == sum_values(v@, i as nat),
        decreases n - i,
    {
        let x: i64 = if i < v.len() { v[i] } else { 0 };
        acc = acc.wrapping_add(x);
        i = i + 1;
    }
    let mut out: Vec<i64> = Vec::new();
    out.push(acc);
    let empty: [usize; 0] = [];
    let inputs: [Tensor; 1] = [a];
    proof {
        assert(inputs@ =~= seq![a]);
        assert(empty@ =~= Seq::<usize>::empty());
        assert(prod(Seq::<usize>::empty()) == 1);
        assert(out@ =~= seq![sum_values(g.values_spec()[a.id as int], n as nat)]);
    }
    record(g, inputs.as_slice(), NodeKind::SumBackward { numel: n }, empty.as_slice(), out)
}

/// The matrix product of the `n × m` tensor `mat1` and the `m × p` tensor
/// `mat2`; both are captured for the backward pass.
pub fn mm(g: &mut Graph, mat1: Tensor, mat2: Tensor) -> (r: Result<Tensor, AutogradError>)
    requires
        old(g).wf(),
        old(g).valid_tensor(mat1),
        old(g).valid_tensor(mat2),
    ensures
        final(g).wf(),
        ({
            let sa = old(g).tensors_spec()[mat1.id as int].sizes_spec();
            let sb = old(g).tensors_spec()[mat2.id as int].sizes_spec();
            &&& r is Ok <==> (sa.len() == 2 && sb.len() == 2 && sa[1] == sb[0] && sa[0] * sb[1] * 8 <= usize::MAX)
            &&& r is Err ==> r == Err::<Tensor, AutogradError>(AutogradError::ShapeMismatch)
            &&& r is Ok ==> ({
                let va = old(g).values_spec()[mat1.id as int];
                let vb = old(g).values_spec()[mat2.id as int];
                &&& exists|k: NodeKind| op_result(*old(g), *final(g), seq![mat1, mat2], k, seq![sa[0], sb[1]],
                    matmul(va, vb, sa[0] as nat, sa[1] as nat, sb[1] as nat), r->Ok_0)
                &&& final(g).grad_fn_spec(r->Ok_0) is Some ==> (final(g).nodes_spec()[final(g).grad_fn_spec(r->Ok_0)->0 as int].kind
                    matches NodeKind::MmBackward { mat1: ma, mat2: mb, n: kn, m: km, p: kp }
                    && ma@ == va && mb@ == vb && kn == sa[0] && km == sa[1] && kp == sb[1])
            })
        }),
{
    let sa = copy_sizes(g, mat1);
    let sb = copy_sizes(g, mat2);
    if sa.len() != 2 || sb.len() != 2 || sa[1] != sb[0] {
        return Err(AutogradError::ShapeMismatch);
    }
    let n = sa[0];
    let m = sa[1];
    let p = sb[1];
    let np = match n.checked_mul(p) {
        Some(v) => v,
        None => {
            return Err(AutogradError::ShapeMismatch);
        },
    };
    if np.checked_mul(8).is_none() {
        return Err(AutogradError::ShapeMismatch);
    }
    proof {
        assert(g.tensors_spec()[mat1.id as int].wf());
        assert(g.tensors_spec()[mat2.id as int].wf());
        crate::linear::lemma_two_dims_prod(n, m);
        crate::linear::lemma_two_dims_prod(m, p);
        crate::linear::lemma_two_dims_prod(n, p);
        assert(sa@ =~= seq![n, m]);
        assert(sb@ =~= seq![m, p]);
        crate::shape::lemma_prod_le_extent(sa@);
        crate::shape::lemma_prod_le_extent(sb@);
    }
    let va = crate::node::copy_grad(g.values(mat1));
    let vb = crate::node::copy_grad(g.values(mat2));
    let out = matmul_exec(&va, &vb, n, m, p);
    let sizes: [usize; 2] = [n, p];
    let inputs: [Tensor; 2] = [mat1, mat2];
    proof {
        assert(inputs@ =~= seq![mat1, mat2]);
        assert(sizes@ =~= seq![n, p]);
        crate::shape::lemma_two_fit(n, p);
    }
    let kind = NodeKind::MmBackward { mat1: va, mat2: vb, n, m, p };
    let ghost k = kind;
    let r = record(g, inputs.as_slice(), kind, sizes.as_slice(), out);
    proof {
        if r is Ok {
            assert(op_result(*old(g), *g, seq![mat1, mat2], k, seq![n, p],
                matmul(old(g).values_spec()[mat1.id as int], old(g).values_spec()[mat2.id as int], n as nat, m as nat, p as nat), r->Ok_0));
            if g.grad_fn_spec(r->Ok_0) is Some {
                assert(g.nodes_spec()[g.grad_fn_spec(r->Ok_0)->0 as int].kind == k);
            }
        }
    }
    r
}

/// `beta * bias + alpha * (mat1 × mat2)` for an `n × m` tensor `mat1`, an
/// `m × p` tensor `mat2` and a bias of `n × p` elements or of one row of
/// `p` repeated on every row; both factors are captured for the backward
/// pass.
pub fn addmm(g: &mut Graph, self_: Tensor, mat1: Tensor, mat2: Tensor, alpha: i64, beta: i64) -> (r: Result<Tensor, AutogradError>)
    requires
        old(g).wf(),
        old(g).valid_tensor(self_),
        old(g).valid_tensor(mat1),
        old(g).valid_tensor(mat2),
    ensures
        final(g).wf(),
        ({
            let ss = old(g).tensors_spec()[self_.id as int].sizes_spec();
            let sa = old(g).tensors_spec()[mat1.id as int].sizes_spec();
            let sb = old(g).tensors_spec()[mat2.id as int].sizes_spec();
            &&& r is Ok <==> (sa.len() == 2 && sb.len() == 2 && sa[1] == sb[0] && sa[0] * sb[1] * 8 <= usize::MAX
                && (ss == seq![sa[0], sb[1]] || ss == seq![sb[1]]))
            &&& r is Err ==> r == Err::<Tensor, AutogradError>(AutogradError::ShapeMismatch)
            &&& r is Ok ==> ({
                let vs = old(g).values_spec()[self_.id as int];
                let va = old(g).values_spec()[mat1.id as int];
                let vb = old(g).values_spec()[mat2.id as int];
                let full = ss.len() == 2;
                &&& exists|k: NodeKind| op_result(*old(g), *final(g), seq![self_, mat1, mat2], k, seq![sa[0], sb[1]],
                    addmm_values(vs, va, vb, sa[0] as nat, sa[1] as nat, sb[1] as nat, alpha, beta, full), r->Ok_0)
                &&& final(g).grad_fn_spec(r->Ok_0) is Some ==> (final(g).nodes_spec()[final(g).grad_fn_spec(r->Ok_0)->0 as int].kind
                    matches NodeKind::AddmmBackward { mat1: ma, mat2: mb, n: kn, m: km, p: kp, alpha: ka, beta: kb, full: kf }
                    && ma@ == va && mb@ == vb && kn == sa[0] && km == sa[1] && kp == sb[1] && ka == alpha && kb == beta && kf == full)
            })
        }),
{
    let ss = copy_sizes(g, self_);
    let sa = copy_sizes(g, mat1);
    let sb = copy_sizes(g, mat2);
    if sa.len() != 2 || sb.len() != 2 || sa[1] != sb[0] {
        return Err(AutogradError::ShapeMismatch);
    }
    let n = sa[0];
    let m = sa[1];
    let p = sb[1];
    let full: bool;
    if ss.len() == 2 && ss[0] == n && ss[1] == p {
        full = true;
        proof {
            assert(ss@ =~= seq![n, p]);
        }
    } else if ss.len() == 1 && ss[0] == p {
        full = false;
        proof {
            assert(ss@ =~= seq![p]);
        }
    } else {
        proof {
            assert(ss@ != seq![n, p]) by {
                if ss@ == seq![n, p] {
                    assert(ss@.len() == 2 && ss@[0] == n && ss@[1] == p);
                }
            }
            assert(ss@ != seq![p]) by {
                if ss@ == seq![p] {
                    assert(ss@.len() == 1 && ss@[0] == p);
                }
            }
        }
        return Err(AutogradError::ShapeMismatch);
    }
    let np = match n.checked_mul(p) {
        Some(v) => v,
        None => {
            return Err(AutogradError::ShapeMismatch);
        },
    };
    if np.checked_mul(8).is_none() {
        return Err(AutogradError::ShapeMismatch);
    }
    proof {
        assert(g.tensors_spec()[mat1.id as int].wf());
        assert(g.tensors_spec()[mat2.id as int].wf());
        crate::linear::lemma_two_dims_prod(n, m);
        crate::linear::lemma_two_dims_prod(m, p);
        crate::linear::lemma_two_dims_prod(n, p);
        assert(sa@ =~= seq![n, m]);
        assert(sb@ =~= seq![m, p]);
        crate::shape::lemma_prod_le_extent(sa@);
        crate::shape::lemma_prod_le_extent(sb@);
    }
    let vs = g.values(self_);
    let va = crate::node::copy_grad(g.values(mat1));
    let vb = crate::node::copy_grad(g.values(mat2));
    let out = addmm_exec(vs, &va, &vb, n, m, p, alpha, beta, full);
    let sizes: [usize; 2] = [n, p];
    let inputs: [Tensor; 3] = [self_, mat1, mat2];
    proof {
        assert(inputs@ =~= seq![self_, mat1, mat2]);
        assert(sizes@ =~= seq![n, p]);
        crate::shape::lemma_two_fit(n, p);
    }
    let kind = NodeKind::AddmmBackward { mat1: va, mat2: vb, n, m, p, alpha, beta, full };
    let ghost k = kind;
    let r = record(g, inputs.as_slice(), kind, sizes.as_slice(), out);
    proof {
        if r is Ok {
            assert(op_result(*old(g), *g, seq![self_, mat1, mat2], k, seq![n, p],
                addmm_values(old(g).values_spec()[self_.id as int], old(g).values_spec()[mat1.id as int],
                    old(g).values_spec()[mat2.id as int], n as nat, m as nat, p as nat, alpha, beta, full), r->Ok_0));
            if g.grad_fn_spec(r->Ok_0) is Some {
                assert(g.nodes_spec()[g.grad_fn_spec(r->Ok_0)->0 as int].kind == k);
            }
        }
    }
    r
}

/// The transpose of the `rows × cols` tensor `a`.
pub fn t(g: &mut Graph, a: Tensor) -> (r: Result<Tensor, AutogradError>)
    requires
        old(g).wf(),
        old(g).valid_tensor(a),
    ensures
        final(g).wf(),
        ({
            let sa = old(g).tensors_spec()[a.id as int].sizes_spec();
            &&& r is Ok <==> (sa.len() == 2 && sa[0] * sa[1] * 8 <= usize::MAX)
            &&& r is Err ==> r == Err::<Tensor, AutogradError>(AutogradError::ShapeMismatch)
            &&& r is Ok ==> op_result(*old(g), *final(g), seq![a], NodeKind::TBackward { rows: sa[0], cols: sa[1] }, seq![sa[1], sa[0]],
                transposed(old(g).values_spec()[a.id as int], sa[0] as nat, sa[1] as nat), r->Ok_0)
        }),
{
    let sa = copy_sizes(g, a);
    if sa.len() != 2 {
        return Err(AutogradError::ShapeMismatch);
    }
    let rows = sa[0];
    let cols = sa[1];
    let n = match rows.checked_mul(cols) {
        Some(v) => v,
        None => {
            return Err(AutogradError::ShapeMismatch);
        },
    };
    if n.checked_mul(8).is_none() {
        return Err(AutogradError::ShapeMismatch);
    }
    let out = transpose_exec(g.values(a), rows, cols);
    let sizes: [usize; 2] = [cols, rows];
    let inputs: [Tensor; 1] = [a];
    proof {
        assert(inputs@ =~= seq![a]);
        assert(sizes@ =~= seq![cols, rows]);
        crate::shape::lemma_two_fit(cols, rows);
        crate::linear::lemma_two_dims_prod(cols, rows);
        assert(cols * rows == rows * cols) by (nonlinear_arith);
    }
    record(g, inputs.as_slice(), NodeKind::TBackward { rows, cols }, sizes.as_slice(), out)
}

/// A copy of the sizes of `t`.
fn copy_sizes(g: &Graph, t: Tensor) -> (r: Vec<usize>)
    requires
        g.wf(),
        g.valid_tensor(t),
    ensures
        r@ == g.tensors_spec()[t.id as int].sizes_spec(),
{
    let s = g.tensor_impl(t).sizes();
    let mut r: Vec<usize> = Vec::with_capacity(s.len());
    let mut i: usize = 0;
    while i < s.len()
        invariant
            i <= s@.len(),
            r@ =~= s@.subrange(0, i as int),
        decreases s@.len() - i,
    {
        r.push(s[i]);
        i = i + 1;
    }
    proof {
        assert(r@ =~= s@);
    }
    r
}

/// The common sizes of `a` and `b` and their element count, when the two
/// have one shape and its bytes fit the machine.
fn same_shape(g: &Graph, a: Tensor, b: Tensor) -> (r: Option<(Vec<usize>, usize)>)
    requires
        g.wf(),
        g.valid_tensor(a),
        g.valid_tensor(b),
    ensures
        r is Some <==> (g.tensors_spec()[a.id as int].sizes_spec() == g.tensors_spec()[b.id as int].sizes_spec()
            && prod(g.tensors_spec()[a.id as int].sizes_spec()) * 8 <= usize::MAX),
        r is Some ==> (r->0).0@ == g.tensors_spec()[a.id as int].sizes_spec() && (r->0).1 as int == prod(g.tensors_spec()[a.id as int].sizes_spec()),
{
    let sa = copy_sizes(g, a);
    let sb = g.tensor_impl(b).sizes();
    if sa.len() != sb.len() {
        return None;
    }
    let mut i: usize = 0;
    while i < sa.len()
        invariant
            i <= sa@.len(),
            sa@.len() == sb@.len(),
            sa@ == g.tensors_spec()[a.id as int].sizes_spec(),
            sb@ == g.tensors_spec()[b.id as int].sizes_spec(),
            forall|k: int| 0 <= k < i ==> sa@[k] == sb@[k],
        decreases sa@.len() - i,
    {
        if sa[i] != sb[i] {
            assert(sa@[i as int] != sb@[i as int]);
            return None;
        }
        i = i + 1;
    }
    proof {
        assert(sa@ =~= sb@);
        assert(g.tensors_spec()[a.id as int].wf());
    }
    let n = g.tensor_impl(a).numel();
    if n.checked_mul(8).is_none() {
        return None;
    }
    Some((sa, n))
}

} // verus!
