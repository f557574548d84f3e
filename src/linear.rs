//! A fully connected layer's parameters: a weight of `out × in` elements
//! and an optional bias of `out`, both leaves that require gradients.
use crate::error::AutogradError;
use crate::graph::Graph;
use crate::node::Tensor;
use vstd::prelude::*;

verus! {

/// The shape of a linear layer and whether it has a bias.
#[derive(Clone, Copy, Debug, PartialEq, Eq, Structural)]
pub struct LinearConfig {
    pub bias: bool,
    pub in_features: usize,
    pub out_features: usize,
}

impl Default for LinearConfig {
    fn default() -> (r: LinearConfig)
        ensures
            r == (LinearConfig { bias: true, in_features: 0, out_features: 0 }),
    {
        LinearConfig { bias: true, in_features: 0, out_features: 0 }
    }
}

/// The parameters of a linear layer, once created.
pub struct Linear {
    pub ws: Option<Tensor>,
    pub bs: Option<Tensor>,
    pub options: LinearConfig,
}

/// A parameter tensor of the given sizes: a leaf that requires gradients.
pub open spec fn is_parameter(g: Graph, t: Tensor, sizes: Seq<usize>) -> bool {
    &&& g.valid_tensor(t)
    &&& g.tensors_spec()[t.id as int].sizes_spec() == sizes
    &&& g.requires_grad_spec(t)
    &&& g.grad_fn_spec(t) is None
    &&& g.meta_of(t)->0.grad is None
}

impl Linear {
    /// A layer with a bias, its parameters created with zero elements.
    /// Fails when `out × in` elements do not fit the machine.
    pub fn new(g: &mut Graph, in_dim: usize, out_dim: usize) -> (r: Result<Linear, AutogradError>)
        requires
            old(g).wf(),
        ensures
            final(g).wf(),
            r is Ok ==> r->Ok_0.options == (LinearConfig { bias: true, in_features: in_dim, out_features: out_dim })
                && r->Ok_0.ws is Some
                && is_parameter(*final(g), r->Ok_0.ws->0, seq![out_dim, in_dim])
                && r->Ok_0.bs is Some
                && is_parameter(*final(g), r->Ok_0.bs->0, seq![out_dim]),
            r is Ok <==> (out_dim * in_dim * 8 <= usize::MAX && out_dim * 8 <= usize::MAX),
            r is Err ==> r == Err::<Linear, AutogradError>(AutogradError::ShapeMismatch),
    {
        let options = LinearConfig { in_features: in_dim, out_features: out_dim, ..LinearConfig::default() };
        let mut self_ = Linear { ws: None, bs: None, options };
        self_.reset(g)?;
        Ok(self_)
    }

    /// Creates the weight and, if the configuration asks for one, the bias,
    /// as parameters with zero elements.
    pub fn reset(&mut self, g: &mut Graph) -> (r: Result<(), AutogradError>)
        requires
            old(g).wf(),
        ensures
            final(g).wf(),
            final(self).options == old(self).options,
            r is Ok ==> final(self).ws is Some
                && is_parameter(*final(g), final(self).ws->0, seq![old(self).options.out_features, old(self).options.in_features])
                && (old(self).options.bias ==> final(self).bs is Some
                    && is_parameter(*final(g), final(self).bs->0, seq![old(self).options.out_features]))
                && (!old(self).options.bias ==> final(self).bs == old(self).bs),
            r is Ok <==> (old(self).options.out_features * old(self).options.in_features * 8 <= usize::MAX
                && (old(self).options.bias ==> old(self).options.out_features * 8 <= usize::MAX)),
            r is Err ==> r == Err::<(), AutogradError>(AutogradError::ShapeMismatch) && *final(g) == *old(g),
    {
        let out_f = self.options.out_features;
        let in_f = self.options.in_features;
        let n = match out_f.checked_mul(in_f) {
            Some(n) => n,
            None => {
                proof {
                    assert(out_f * in_f * 8 >= out_f * in_f) by (nonlinear_arith)
                        requires
                            out_f * in_f >= 0,
                    ;
                }
                return Err(AutogradError::ShapeMismatch);
            },
        };
        if n.checked_mul(8).is_none() {
            return Err(AutogradError::ShapeMismatch);
        }
        if self.options.bias && out_f.checked_mul(8).is_none() {
            return Err(AutogradError::ShapeMismatch);
        }
        let sizes: [usize; 2] = [out_f, in_f];
        proof {
            assert(sizes@ =~= seq![out_f, in_f]);
            lemma_two_dims(out_f, in_f);
            crate::shape::lemma_two_fit(out_f, in_f);
        }
        let ws = g.new_tensor(sizes.as_slice(), vec![0i64; n], true)?;
        let ghost g1 = *g;
        self.ws = Some(ws);
        if self.options.bias {
            let bsizes: [usize; 1] = [out_f];
            proof {
                assert(bsizes@ =~= seq![out_f]);
                lemma_one_dim(out_f);
                crate::shape::lemma_one_fit(out_f);
            }
            let bs = g.new_tensor(bsizes.as_slice(), vec![0i64; out_f], true)?;
            self.bs = Some(bs);
            proof {
                assert(g.tensors_spec()[ws.id as int] == g1.tensors_spec()[ws.id as int]);
            }
        }
        Ok(())
    }

    /// The parameters: the weight, then the bias if there is one.
    pub fn parameters(&self) -> (r: Vec<Tensor>)
        requires
            self.ws is Some,
        ensures
            self.bs is Some ==> r@ == seq![self.ws->0, self.bs->0],
            self.bs is None ==> r@ == seq![self.ws->0],
    {
        let mut r: Vec<Tensor> = Vec::new();
        r.push(self.ws.unwrap());
        if let Some(b) = self.bs {
            r.push(b);
        }
        proof {
            if self.bs is Some {
                assert(r@ =~= seq![self.ws->0, self.bs->0]);
            } else {
                assert(r@ =~= seq![self.ws->0]);
            }
        }
        r
    }

    /// Sets the elements of the weight and bias to the given initial
    /// values (drawn by the caller). Fails, changing nothing, when a
    /// parameter is missing or a list's length is not its element count.
    pub fn reset_parameters(&mut self, g: &mut Graph, weights: Vec<i64>, bias: Vec<i64>) -> (r: Result<(), AutogradError>)
        requires
            old(g).wf(),
            old(self).ws is Some ==> old(g).valid_tensor(old(self).ws->0),
            old(self).bs is Some ==> old(g).valid_tensor(old(self).bs->0),
        ensures
            final(g).wf(),
            final(g).tensors_spec() == old(g).tensors_spec(),
            r is Ok <==> (old(self).ws is Some
                && weights@.len() == old(g).tensors_spec()[old(self).ws->0.id as int].numel_spec()
                && (old(self).bs is Some ==> bias@.len() == old(g).tensors_spec()[old(self).bs->0.id as int].numel_spec()
                    && old(self).bs->0 != old(self).ws->0)),
            r is Err ==> *final(g) == *old(g),
            r is Ok ==> old(self).ws is Some && final(g).values_spec()[old(self).ws->0.id as int] == weights@,
            r is Ok && old(self).bs is Some ==> final(g).values_spec()[old(self).bs->0.id as int] == bias@,
    {
        let ws = match self.ws {
            Some(w) => w,
            None => {
                return Err(AutogradError::ShapeMismatch);
            },
        };
        if weights.len() != g.tensor_impl(ws).numel_of_impl() {
            return Err(AutogradError::ShapeMismatch);
        }
        if let Some(bs) = self.bs {
            if bias.len() != g.tensor_impl(bs).numel_of_impl() {
                return Err(AutogradError::ShapeMismatch);
            }
            if bs.id == ws.id {
                return Err(AutogradError::ShapeMismatch);
            }
        }
        g.set_values(ws, weights);
        if let Some(bs) = self.bs {
            g.set_values(bs, bias);
        }
        Ok(())
    }
}

pub proof fn lemma_two_dims(a: usize, b: usize)
    requires
        a * b <= usize::MAX,
    ensures
        crate::shape::prod(seq![a, b]) == a * b,
{
    lemma_one_dim(b);
    assert(seq![a, b].drop_first() =~= seq![b]);
    assert(crate::shape::prod(seq![a, b]) == a * crate::shape::prod(seq![a, b].drop_first()));
}

/// The element count of a two-dimensional shape.
pub proof fn lemma_two_dims_prod(a: usize, b: usize)
    ensures
        crate::shape::prod(seq![a, b]) == a * b,
{
    lemma_one_dim(b);
    assert(seq![a, b].drop_first() =~= seq![b]);
    assert(crate::shape::prod(seq![a, b]) == a * crate::shape::prod(seq![a, b].drop_first()));
}

proof fn lemma_one_dim(a: usize)
    ensures
        crate::shape::prod(seq![a]) == a,
{
    assert(seq![a].drop_first() =~= Seq::<usize>::empty());
    assert(crate::shape::prod(Seq::<usize>::empty()) == 1);
    assert(crate::shape::prod(seq![a]) == a * crate::shape::prod(seq![a].drop_first()));
}

} // verus!
