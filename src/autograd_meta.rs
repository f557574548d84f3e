//! Per-tensor autograd record.
use vstd::prelude::*;

verus! {

/// What autograd knows of one tensor: whether it requires gradients, the
/// gradient accumulated so far (leaves only), the node that produced it and
/// at which output slot, and the memoized gradient accumulator of a leaf.
/// Nodes are named by their handle in the graph.
#[derive(Debug)]
pub struct AutogradMeta {
    pub requires_grad: bool,
    pub grad: Option<Vec<i64>>,
    pub grad_fn: Option<usize>,
    pub output_nr: usize,
    pub grad_accumulator: Option<usize>,
}

impl AutogradMeta {
    /// A record for a leaf that does not require gradients.
    pub fn new() -> (r: AutogradMeta)
        ensures
            !r.requires_grad,
            r.grad is None,
            r.grad_fn is None,
            r.output_nr == 0,
            r.grad_accumulator is None,
    {
        AutogradMeta {
            requires_grad: false,
            grad: None,
            grad_fn: None,
            output_nr: 0,
            grad_accumulator: None,
        }
    }

    /// A copy of the record.
    pub fn clone_meta(&self) -> (r: AutogradMeta)
        ensures
            r.requires_grad == self.requires_grad,
            r.grad_fn == self.grad_fn,
            r.output_nr == self.output_nr,
            r.grad_accumulator == self.grad_accumulator,
            r.grad is Some <==> self.grad is Some,
            r.grad is Some ==> r.grad->0@ == self.grad->0@,
    {
        let grad = match &self.grad {
            Some(g) => Some(crate::node::copy_grad(g)),
            None => None,
        };
        AutogradMeta {
            requires_grad: self.requires_grad,
            grad,
            grad_fn: self.grad_fn,
            output_nr: self.output_nr,
            grad_accumulator: self.grad_accumulator,
        }
    }

    pub fn requires_grad(&self) -> (r: bool)
        ensures
            r == self.requires_grad,
    {
        self.requires_grad
    }

    pub fn set_requires_grad(&mut self, requires_grad: bool)
        ensures
            *final(self) == (AutogradMeta { requires_grad, ..*old(self) }),
    {
        self.requires_grad = requires_grad;
    }

    pub fn grad(&self) -> (r: Option<&Vec<i64>>)
        ensures
            r is None <==> self.grad is None,
            r is Some ==> r->0@ == self.grad->0@,
    {
        match &self.grad {
            Some(g) => Some(g),
            None => None,
        }
    }

    pub fn set_grad(&mut self, grad: Vec<i64>)
        ensures
            *final(self) == (AutogradMeta { grad: Some(grad), ..*old(self) }),
    {
        self.grad = Some(grad);
    }

    pub fn set_grad_fn(&mut self, grad_fn: Option<usize>)
        ensures
            *final(self) == (AutogradMeta { grad_fn, ..*old(self) }),
    {
        self.grad_fn = grad_fn;
    }

    pub fn set_output_nr(&mut self, output_nr: usize)
        ensures
            *final(self) == (AutogradMeta { output_nr, ..*old(self) }),
    {
        self.output_nr = output_nr;
    }
}

} // verus!
