//! Parameter groups of an optimizer, and clearing their gradients.
use crate::graph::Graph;
use crate::node::Tensor;
use vstd::prelude::*;

verus! {

/// A group of parameters that an optimizer updates together.
pub struct OptimizerParamGroup {
    params: Vec<Tensor>,
}

impl OptimizerParamGroup {
    pub fn new(params: Vec<Tensor>) -> (r: OptimizerParamGroup)
        ensures
            r.params_spec() == params@,
    {
        OptimizerParamGroup { params }
    }

    pub closed spec fn params_spec(&self) -> Seq<Tensor> {
        self.params@
    }

    pub fn params(&self) -> (r: &Vec<Tensor>)
        ensures
            r@ == self.params_spec(),
    {
        &self.params
    }
}

/// Tensor `k` is a parameter of some group.
pub open spec fn is_param(groups: Seq<OptimizerParamGroup>, k: int) -> bool {
    exists|a: int, b: int| 0 <= a < groups.len() && 0 <= b < groups[a].params_spec().len() && #[trigger] groups[a].params_spec()[b].id == k
}

/// Tensor `k` is among the parameters of the groups before `i`, or the
/// first `j` of group `i`.
pub open spec fn touched(groups: Seq<OptimizerParamGroup>, i: int, j: int, k: int) -> bool {
    exists|a: int, b: int| ((0 <= a < i && 0 <= b < groups[a].params_spec().len()) || (a == i && 0 <= b < j))
        && #[trigger] groups[a].params_spec()[b].id == k
}

/// Sets every element of the gradient of every parameter of every group to
/// zero, keeping its length; parameters without a gradient keep none, and
/// tensors that are no parameter are left as they are.
pub fn zero_grad(g: &mut Graph, groups: &Vec<OptimizerParamGroup>)
    requires
        old(g).wf(),
        forall|i: int, j: int| 0 <= i < groups@.len() && 0 <= j < groups@[i].params_spec().len()
            ==> old(g).valid_tensor(#[trigger] groups@[i].params_spec()[j]),
    ensures
        final(g).wf(),
        final(g).tensors_spec().len() == old(g).tensors_spec().len(),
        final(g).nodes_spec() == old(g).nodes_spec(),
        forall|i: int, j: int| 0 <= i < groups@.len() && 0 <= j < groups@[i].params_spec().len()
            && final(g).meta_of(#[trigger] groups@[i].params_spec()[j]) is Some
            && final(g).meta_of(groups@[i].params_spec()[j])->0.grad is Some
            ==> (forall|k: int| 0 <= k < final(g).meta_of(groups@[i].params_spec()[j])->0.grad->0@.len()
                ==> #[trigger] final(g).meta_of(groups@[i].params_spec()[j])->0.grad->0@[k] == 0),
        forall|k: int| 0 <= k < old(g).tensors_spec().len() && !is_param(groups@, k) ==> #[trigger] final(g).tensors_spec()[k] == old(g).tensors_spec()[k],
        forall|k: int| 0 <= k < old(g).tensors_spec().len() ==> {
            let t = crate::node::Tensor { id: k as usize };
            &&& (#[trigger] final(g).tensors_spec()[k]).same_layout(&old(g).tensors_spec()[k])
            &&& (old(g).meta_of(t) is Some && old(g).meta_of(t)->0.grad is Some) ==> (final(g).meta_of(t) is Some
                && final(g).meta_of(t)->0.grad is Some
                && final(g).meta_of(t)->0.grad->0@.len() == old(g).meta_of(t)->0.grad->0@.len()
                && final(g).meta_of(t)->0.grad_fn == old(g).meta_of(t)->0.grad_fn
                && final(g).meta_of(t)->0.requires_grad == old(g).meta_of(t)->0.requires_grad)
            &&& !(old(g).meta_of(t) is Some && old(g).meta_of(t)->0.grad is Some) ==> final(g).tensors_spec()[k] == old(g).tensors_spec()[k]
        },
        final(g).values_spec() == old(g).values_spec(),
{
    let mut i: usize = 0;
    while i < groups.len()
        invariant
            i <= groups@.len(),
            g.wf(),
            g.tensors_spec().len() == old(g).tensors_spec().len(),
            g.nodes_spec() == old(g).nodes_spec(),
            forall|a: int, b: int| 0 <= a < groups@.len() && 0 <= b < groups@[a].params_spec().len()
                ==> g.valid_tensor(#[trigger] groups@[a].params_spec()[b]),
            forall|a: int, b: int| 0 <= a < i && 0 <= b < groups@[a].params_spec().len()
                && g.meta_of(#[trigger] groups@[a].params_spec()[b]) is Some
                && g.meta_of(groups@[a].params_spec()[b])->0.grad is Some
                ==> (forall|k: int| 0 <= k < g.meta_of(groups@[a].params_spec()[b])->0.grad->0@.len()
                    ==> #[trigger] g.meta_of(groups@[a].params_spec()[b])->0.grad->0@[k] == 0),
                forall|k: int| 0 <= k < old(g).tensors_spec().len() && !touched(groups@, i as int, 0, k) ==> #[trigger] g.tensors_spec()[k] == old(g).tensors_spec()[k],
                forall|k: int| 0 <= k < old(g).tensors_spec().len() ==> {
                    let t = crate::node::Tensor { id: k as usize };
                    &&& (#[trigger] g.tensors_spec()[k]).same_layout(&old(g).tensors_spec()[k])
                    &&& (old(g).meta_of(t) is Some && old(g).meta_of(t)->0.grad is Some) ==> (g.meta_of(t) is Some
                        && g.meta_of(t)->0.grad is Some
                        && g.meta_of(t)->0.grad->0@.len() == old(g).meta_of(t)->0.grad->0@.len()
                        && g.meta_of(t)->0.grad_fn == old(g).meta_of(t)->0.grad_fn
                        && g.meta_of(t)->0.requires_grad == old(g).meta_of(t)->0.requires_grad)
                    &&& !(old(g).meta_of(t) is Some && old(g).meta_of(t)->0.grad is Some) ==> g.tensors_spec()[k] == old(g).tensors_spec()[k]
                },
                g.values_spec() == old(g).values_spec(),
        decreases groups@.len() - i,
    {
        let params = groups[i].params();
        let mut j: usize = 0;
        while j < params.len()
            invariant
                i < groups@.len(),
                j <= params@.len(),
                params@ == groups@[i as int].params_spec(),
                g.wf(),
                g.tensors_spec().len() == old(g).tensors_spec().len(),
                g.nodes_spec() == old(g).nodes_spec(),
                forall|a: int, b: int| 0 <= a < groups@.len() && 0 <= b < groups@[a].params_spec().len()
                    ==> g.valid_tensor(#[trigger] groups@[a].params_spec()[b]),
                forall|a: int, b: int| ((0 <= a < i && 0 <= b < groups@[a].params_spec().len()) || (a == i && 0 <= b < j))
                    && g.meta_of(#[trigger] groups@[a].params_spec()[b]) is Some
                    && g.meta_of(groups@[a].params_spec()[b])->0.grad is Some
                    ==> (forall|k: int| 0 <= k < g.meta_of(groups@[a].params_spec()[b])->0.grad->0@.len()
                        ==> #[trigger] g.meta_of(groups@[a].params_spec()[b])->0.grad->0@[k] == 0),
                forall|k: int| 0 <= k < old(g).tensors_spec().len() && !touched(groups@, i as int, j as int, k) ==> #[trigger] g.tensors_spec()[k] == old(g).tensors_spec()[k],
                forall|k: int| 0 <= k < old(g).tensors_spec().len() ==> {
                    let t = crate::node::Tensor { id: k as usize };
                    &&& (#[trigger] g.tensors_spec()[k]).same_layout(&old(g).tensors_spec()[k])
                    &&& (old(g).meta_of(t) is Some && old(g).meta_of(t)->0.grad is Some) ==> (g.meta_of(t) is Some
                        && g.meta_of(t)->0.grad is Some
                        && g.meta_of(t)->0.grad->0@.len() == old(g).meta_of(t)->0.grad->0@.len()
                        && g.meta_of(t)->0.grad_fn == old(g).meta_of(t)->0.grad_fn
                        && g.meta_of(t)->0.requires_grad == old(g).meta_of(t)->0.requires_grad)
                    &&& !(old(g).meta_of(t) is Some && old(g).meta_of(t)->0.grad is Some) ==> g.tensors_spec()[k] == old(g).tensors_spec()[k]
                },
                g.values_spec() == old(g).values_spec(),
            decreases params@.len() - j,
        {
            let t = params[j];
            let ghost g0 = *g;
            g.zero_grad_of(t);
            proof {
                assert forall|a: int, b: int| ((0 <= a < i && 0 <= b < groups@[a].params_spec().len()) || (a == i && 0 <= b < j + 1))
                    && g.meta_of(#[trigger] groups@[a].params_spec()[b]) is Some
                    && g.meta_of(groups@[a].params_spec()[b])->0.grad is Some
                    implies (forall|k: int| 0 <= k < g.meta_of(groups@[a].params_spec()[b])->0.grad->0@.len()
                        ==> #[trigger] g.meta_of(groups@[a].params_spec()[b])->0.grad->0@[k] == 0) by {
                    let u = groups@[a].params_spec()[b];
                    if u.id != t.id {
                        assert(g.tensors_spec()[u.id as int] == g0.tensors_spec()[u.id as int]);
                    }
                }
                assert forall|k: int| 0 <= k < old(g).tensors_spec().len() && !touched(groups@, i as int, j + 1, k)
                    implies #[trigger] g.tensors_spec()[k] == old(g).tensors_spec()[k] by {
                    if k == t.id {
                        assert(groups@[i as int].params_spec()[j as int].id == k);
                        assert(touched(groups@, i as int, j + 1, k));
                    }
                    if touched(groups@, i as int, j as int, k) {
                        let (a, b) = choose|a: int, b: int| ((0 <= a < i && 0 <= b < groups@[a].params_spec().len()) || (a == i && 0 <= b < j))
                            && #[trigger] groups@[a].params_spec()[b].id == k;
                        assert(touched(groups@, i as int, j + 1, k));
                    }
                }
                assert forall|k: int| 0 <= k < old(g).tensors_spec().len() implies {
                    let tt = crate::node::Tensor { id: k as usize };
                    &&& (#[trigger] g.tensors_spec()[k]).same_layout(&old(g).tensors_spec()[k])
                    &&& (old(g).meta_of(tt) is Some && old(g).meta_of(tt)->0.grad is Some) ==> (g.meta_of(tt) is Some
                        && g.meta_of(tt)->0.grad is Some
                        && g.meta_of(tt)->0.grad->0@.len() == old(g).meta_of(tt)->0.grad->0@.len()
                        && g.meta_of(tt)->0.grad_fn == old(g).meta_of(tt)->0.grad_fn
                        && g.meta_of(tt)->0.requires_grad == old(g).meta_of(tt)->0.requires_grad)
                    &&& !(old(g).meta_of(tt) is Some && old(g).meta_of(tt)->0.grad is Some) ==> g.tensors_spec()[k] == old(g).tensors_spec()[k]
                } by {
                    let tt = crate::node::Tensor { id: k as usize };
                    old(g).lemma_tensors_len();
                    assert(tt.id as int == k);
                    if k != t.id {
                        assert(g.tensors_spec()[k] == g0.tensors_spec()[k]);
                    }
                }
            }
            j = j + 1;
        }
        i = i + 1;
    }
}

} // verus!
