//! Backward nodes of the computation graph, the edges between them, and the
//! local derivative of each kind of node.
use crate::matrix::{column_sums, column_sums_exec, matmul, matmul_exec, scaled, scaled_exec, transpose_exec, transposed};
use vstd::prelude::*;

verus! {

/// A handle on a tensor held in a graph.
#[derive(Clone, Copy, Debug, PartialEq, Eq, Structural)]
pub struct Tensor {
    pub id: usize,
}

/// The `input_nr`-th input slot of the node `function`; an edge with no
/// function leads to no gradient consumer.
#[derive(Clone, Copy, Debug, PartialEq, Eq, Structural)]
pub struct Edge {
    pub function: Option<usize>,
    pub input_nr: usize,
}

impl Edge {
    pub fn new(function: Option<usize>, input_nr: usize) -> (r: Edge)
        ensures
            r == (Edge { function, input_nr }),
    {
        Edge { function, input_nr }
    }

    pub fn is_valid(&self) -> (r: bool)
        ensures
            r == self.function is Some,
    {
        self.function.is_some()
    }
}

/// The closed set of differentiable operations, each with the values its
/// local derivative needs.
#[derive(Clone, Debug)]
pub enum NodeKind {
    /// The synthetic root of a backward call: it hands out the seed
    /// gradients, one per root edge.
    GraphRoot { seeds: Vec<Vec<i64>> },
    /// The gradient sink of a leaf tensor: it adds what it receives into the
    /// leaf's gradient.
    AccumulateGrad { variable: Tensor },
    /// `a + b`.
    AddBackward,
    /// `a - b`.
    SubBackward,
    /// `-a`.
    NegBackward,
    /// `a * b` elementwise, with both operands captured.
    MulBackward { self_: Vec<i64>, other: Vec<i64> },
    /// The sum of all `numel` elements of the input.
    SumBackward { numel: usize },
    /// The product of an `n × m` and an `m × p` matrix, both captured.
    MmBackward { mat1: Vec<i64>, mat2: Vec<i64>, n: usize, m: usize, p: usize },
    /// The transpose of a `rows × cols` matrix.
    TBackward { rows: usize, cols: usize },
    /// `beta * bias + alpha * (mat1 × mat2)`, with the bias either a full
    /// `n × p` matrix or one row of `p` repeated; both factors captured.
    AddmmBackward { mat1: Vec<i64>, mat2: Vec<i64>, n: usize, m: usize, p: usize, alpha: i64, beta: i64, full: bool },
}

/// The sizes a node works with fit the machine.
pub open spec fn kind_ok(kind: NodeKind) -> bool {
    match kind {
        NodeKind::MmBackward { n, m, p, .. } => n * m <= usize::MAX && m * p <= usize::MAX && n * p <= usize::MAX,
        NodeKind::TBackward { rows, cols } => rows * cols <= usize::MAX,
        NodeKind::AddmmBackward { n, m, p, .. } => n * m <= usize::MAX && m * p <= usize::MAX && n * p <= usize::MAX,
        _ => true,
    }
}

/// How many gradients a node of this kind hands on: one per forward input.
pub open spec fn num_outputs(kind: NodeKind) -> nat {
    match kind {
        NodeKind::GraphRoot { seeds } => seeds@.len(),
        NodeKind::AccumulateGrad { .. } => 0,
        NodeKind::AddBackward => 2,
        NodeKind::SubBackward => 2,
        NodeKind::NegBackward => 1,
        NodeKind::MulBackward { .. } => 2,
        NodeKind::SumBackward { .. } => 1,
        NodeKind::MmBackward { .. } => 2,
        NodeKind::TBackward { .. } => 1,
        NodeKind::AddmmBackward { .. } => 3,
    }
}

/// A backward node: its kind, the edges to the consumers of the gradients
/// it produces (one per forward input), and the element count of each of
/// its input slots (one per forward output registered with it).
#[derive(Clone, Debug)]
pub struct Node {
    pub kind: NodeKind,
    pub next_edges: Vec<Edge>,
    pub input_metadata: Vec<usize>,
}

/// Element `i` of a gradient, zero past its end.
pub open spec fn at(a: Seq<i64>, i: int) -> i64 {
    if 0 <= i < a.len() {
        a[i]
    } else {
        0i64
    }
}

/// Elementwise sum, the shorter operand padded with zeros; arithmetic wraps.
pub open spec fn grad_sum(a: Seq<i64>, b: Seq<i64>) -> Seq<i64> {
    let n = if a.len() >= b.len() { a.len() } else { b.len() };
    Seq::new(n, |i: int| at(a, i).wrapping_add(at(b, i)))
}

/// Elementwise negation; arithmetic wraps.
pub open spec fn grad_neg(a: Seq<i64>) -> Seq<i64> {
    Seq::new(a.len(), |i: int| 0i64.wrapping_sub(a[i]))
}

/// Elementwise product of `g` with `b` (zero past the end of `b`);
/// arithmetic wraps.
pub open spec fn grad_mul(g: Seq<i64>, b: Seq<i64>) -> Seq<i64> {
    Seq::new(g.len(), |i: int| g[i].wrapping_mul(at(b, i)))
}

/// The first element of a gradient, zero if it is empty.
pub open spec fn first(g: Seq<i64>) -> i64 {
    at(g, 0)
}

/// The local derivative of a node: from the gradient `g` of its (first)
/// output, the gradients of its forward inputs, in edge order.
pub open spec fn apply_spec(kind: NodeKind, g: Seq<i64>) -> Seq<Seq<i64>> {
    match kind {
        NodeKind::GraphRoot { seeds } => Seq::new(seeds@.len(), |i: int| seeds@[i]@),
        NodeKind::AccumulateGrad { .. } => Seq::empty(),
        NodeKind::AddBackward => seq![g, g],
        NodeKind::SubBackward => seq![g, grad_neg(g)],
        NodeKind::NegBackward => seq![grad_neg(g)],
        NodeKind::MulBackward { self_, other } => seq![grad_mul(g, other@), grad_mul(g, self_@)],
        NodeKind::SumBackward { numel } => seq![Seq::new(numel as nat, |i: int| first(g))],
        NodeKind::MmBackward { mat1, mat2, n, m, p } => seq![
            matmul(g, transposed(mat2@, m as nat, p as nat), n as nat, p as nat, m as nat),
            matmul(transposed(mat1@, n as nat, m as nat), g, m as nat, n as nat, p as nat),
        ],
        NodeKind::TBackward { rows, cols } => seq![transposed(g, cols as nat, rows as nat)],
        NodeKind::AddmmBackward { mat1, mat2, n, m, p, alpha, beta, full } => seq![
            if full { scaled(g, beta) } else { scaled(column_sums(g, n as nat, p as nat), beta) },
            scaled(matmul(g, transposed(mat2@, m as nat, p as nat), n as nat, p as nat, m as nat), alpha),
            scaled(matmul(transposed(mat1@, n as nat, m as nat), g, m as nat, n as nat, p as nat), alpha),
        ],
    }
}

pub fn grad_sum_exec(a: &Vec<i64>, b: &Vec<i64>) -> (r: Vec<i64>)
    ensures
        r@ == grad_sum(a@, b@),
{
    let n = if a.len() >= b.len() { a.len() } else { b.len() };
    let mut r: Vec<i64> = Vec::with_capacity(n);
    let mut i: usize = 0;
    while i < n
        invariant
            i <= n,
            n == if a@.len() >= b@.len() { a@.len() } else { b@.len() },
            r@ =~= grad_sum(a@, b@).subrange(0, i as int),
        decreases n - i,
    {
        let x: i64 = if i < a.len() { a[i] } else { 0 };
        let y: i64 = if i < b.len() { b[i] } else { 0 };
        r.push(x.wrapping_add(y));
        i = i + 1;
    }
    proof {
        assert(r@ =~= grad_sum(a@, b@));
    }
    r
}

fn grad_neg_exec(a: &Vec<i64>) -> (r: Vec<i64>)
    ensures
        r@ == grad_neg(a@),
{
    let n = a.len();
    let mut r: Vec<i64> = Vec::with_capacity(n);
    let mut i: usize = 0;
    while i < n
        invariant
            i <= n,
            n == a@.len(),
            r@ =~= grad_neg(a@).subrange(0, i as int),
        decreases n - i,
    {
        r.push(0i64.wrapping_sub(a[i]));
        i = i + 1;
    }
    proof {
        assert(r@ =~= grad_neg(a@));
    }
    r
}

fn grad_mul_exec(g: &Vec<i64>, b: &Vec<i64>) -> (r: Vec<i64>)
    ensures
        r@ == grad_mul(g@, b@),
{
    let n = g.len();
    let mut r: Vec<i64> = Vec::with_capacity(n);
    let mut i: usize = 0;
    while i < n
        invariant
            i <= n,
            n == g@.len(),
            r@ =~= grad_mul(g@, b@).subrange(0, i as int),
        decreases n - i,
    {
        let y: i64 = if i < b.len() { b[i] } else { 0 };
        r.push(g[i].wrapping_mul(y));
        i = i + 1;
    }
    proof {
        assert(r@ =~= grad_mul(g@, b@));
    }
    r
}

pub fn copy_grad(a: &Vec<i64>) -> (r: Vec<i64>)
    ensures
        r@ == a@,
{
    let mut r: Vec<i64> = Vec::with_capacity(a.len());
    let mut i: usize = 0;
    while i < a.len()
        invariant
            i <= a@.len(),
            r@ =~= a@.subrange(0, i as int),
        decreases a@.len() - i,
    {
        r.push(a[i]);
        i = i + 1;
    }
    proof {
        assert(r@ =~= a@);
    }
    r
}

impl Node {
    /// A node of the given kind with its edges and no input slot yet.
    pub fn new(kind: NodeKind, next_edges: Vec<Edge>) -> (r: Node)
        ensures
            r.kind == kind,
            r.next_edges == next_edges,
            r.input_metadata@.len() == 0,
    {
        Node { kind, next_edges, input_metadata: Vec::new() }
    }

    /// The number of input slots, one per forward output registered.
    pub fn num_inputs(&self) -> (r: usize)
        ensures
            r == self.input_metadata@.len(),
    {
        self.input_metadata.len()
    }

    /// The number of outgoing edges.
    pub fn num_outputs(&self) -> (r: usize)
        ensures
            r == self.next_edges@.len(),
    {
        self.next_edges.len()
    }

    /// Registers a forward output of `numel` elements and returns its slot.
    pub fn add_input_metadata(&mut self, numel: usize) -> (r: usize)
        requires
            old(self).input_metadata@.len() < usize::MAX,
        ensures
            r == old(self).input_metadata@.len(),
            final(self).input_metadata@ == old(self).input_metadata@.push(numel),
            final(self).kind == old(self).kind,
            final(self).next_edges == old(self).next_edges,
    {
        let slot = self.input_metadata.len();
        self.input_metadata.push(numel);
        slot
    }

    /// The `i`-th outgoing edge, if there is one.
    pub fn next_edge(&self, i: usize) -> (r: Option<Edge>)
        ensures
            i < self.next_edges@.len() ==> r == Some(self.next_edges@[i as int]),
            i >= self.next_edges@.len() ==> r is None,
    {
        if i < self.next_edges.len() {
            Some(self.next_edges[i])
        } else {
            None
        }
    }

    /// The outgoing edges.
    pub fn next_edges(&self) -> (r: &Vec<Edge>)
        ensures
            r@ == self.next_edges@,
    {
        &self.next_edges
    }

    /// The local derivative: from the gradient of the node's output, one
    /// gradient per forward input. An accumulator hands on nothing; its
    /// effect on the leaf is the graph's business.
    pub fn apply(&self, g: &Vec<i64>) -> (r: Vec<Vec<i64>>)
        requires
            kind_ok(self.kind),
        ensures
            r@.len() == apply_spec(self.kind, g@).len(),
            forall|i: int| 0 <= i < r@.len() ==> #[trigger] r@[i]@ == apply_spec(self.kind, g@)[i],
    {
        match &self.kind {
            NodeKind::GraphRoot { seeds } => {
                let mut out: Vec<Vec<i64>> = Vec::with_capacity(seeds.len());
                let mut i: usize = 0;
                while i < seeds.len()
                    invariant
                        i <= seeds@.len(),
                        out@.len() == i,
                        forall|k: int| 0 <= k < i ==> #[trigger] out@[k]@ == seeds@[k]@,
                    decreases seeds@.len() - i,
                {
                    out.push(copy_grad(&seeds[i]));
                    i = i + 1;
                }
                out
            },
            NodeKind::AccumulateGrad { .. } => Vec::new(),
            NodeKind::AddBackward => {
                let mut out: Vec<Vec<i64>> = Vec::new();
                out.push(copy_grad(g));
                out.push(copy_grad(g));
                out
            },
            NodeKind::SubBackward => {
                let mut out: Vec<Vec<i64>> = Vec::new();
                out.push(copy_grad(g));
                out.push(grad_neg_exec(g));
                out
            },
            NodeKind::NegBackward => {
                let mut out: Vec<Vec<i64>> = Vec::new();
                out.push(grad_neg_exec(g));
                out
            },
            NodeKind::MulBackward { self_, other } => {
                let mut out: Vec<Vec<i64>> = Vec::new();
                out.push(grad_mul_exec(g, other));
                out.push(grad_mul_exec(g, self_));
                out
            },
            NodeKind::SumBackward { numel } => {
                let v: i64 = if g.len() > 0 { g[0] } else { 0 };
                let expanded: Vec<i64> = vec![v; *numel];
                proof {
                    assert(expanded@ =~= Seq::new(*numel as nat, |i: int| first(g@)));
                }
                let mut out: Vec<Vec<i64>> = Vec::new();
                out.push(expanded);
                out
            },
            NodeKind::MmBackward { mat1, mat2, n, m, p } => {
                proof {
                    assert(*p * *m == *m * *p) by (nonlinear_arith);
                    assert(*m * *n == *n * *m) by (nonlinear_arith);
                }
                let mat2_t = transpose_exec(mat2, *m, *p);
                let mat1_t = transpose_exec(mat1, *n, *m);
                let mut out: Vec<Vec<i64>> = Vec::new();
                out.push(matmul_exec(g, &mat2_t, *n, *p, *m));
                out.push(matmul_exec(&mat1_t, g, *m, *n, *p));
                out
            },
            NodeKind::AddmmBackward { mat1, mat2, n, m, p, alpha, beta, full } => {
                proof {
                    assert(*p * *m == *m * *p) by (nonlinear_arith);
                    assert(*m * *n == *n * *m) by (nonlinear_arith);
                }
                let bias_grad = if *full {
                    scaled_exec(g, *beta)
                } else {
                    scaled_exec(&column_sums_exec(g, *n, *p), *beta)
                };
                let mat2_t = transpose_exec(mat2, *m, *p);
                let mat1_t = transpose_exec(mat1, *n, *m);
                let mut out: Vec<Vec<i64>> = Vec::new();
                out.push(bias_grad);
                out.push(scaled_exec(&matmul_exec(g, &mat2_t, *n, *p, *m), *alpha));
                out.push(scaled_exec(&matmul_exec(&mat1_t, g, *m, *n, *p), *alpha));
                out
            },
            NodeKind::TBackward { rows, cols } => {
                proof {
                    assert(*cols * *rows == *rows * *cols) by (nonlinear_arith);
                }
                let mut out: Vec<Vec<i64>> = Vec::new();
                out.push(transpose_exec(g, *cols, *rows));
                out
            },
        }
    }
}

/// For `y = a + b`, the gradient `g` of `y` reaches both `a` and `b`
/// unchanged.
pub proof fn add_backward_law(g: Seq<i64>)
    ensures
        apply_spec(NodeKind::AddBackward, g).len() == 2,
        apply_spec(NodeKind::AddBackward, g)[0] == g,
        apply_spec(NodeKind::AddBackward, g)[1] == g,
{
}

/// For `y = a * b` (elementwise, operands of one length), the gradient of
/// `a` is `g * b` and that of `b` is `g * a`.
pub proof fn mul_backward_law(g: Seq<i64>, a: Vec<i64>, b: Vec<i64>)
    requires
        a@.len() == g.len(),
        b@.len() == g.len(),
    ensures
        apply_spec(NodeKind::MulBackward { self_: a, other: b }, g).len() == 2,
        forall|i: int| 0 <= i < g.len() ==> #[trigger] apply_spec(NodeKind::MulBackward { self_: a, other: b }, g)[0][i] == g[i].wrapping_mul(b@[i]),
        forall|i: int| 0 <= i < g.len() ==> #[trigger] apply_spec(NodeKind::MulBackward { self_: a, other: b }, g)[1][i] == g[i].wrapping_mul(a@[i]),
        apply_spec(NodeKind::MulBackward { self_: a, other: b }, g)[0].len() == g.len(),
        apply_spec(NodeKind::MulBackward { self_: a, other: b }, g)[1].len() == g.len(),
{
}

} // verus!
