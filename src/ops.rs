//! A scalar reverse-mode tape: variables that record the operation that
//! made them, and a backward walk that hands each operand its share of the
//! gradient.
use vstd::prelude::*;

verus! {

/// The backward record of `x + y` on the tape: the positions of the two
/// operands. Its backward pass hands each operand the incoming gradient.
#[derive(Clone, Copy, Debug, PartialEq, Eq, Structural)]
pub struct AddBackWard {
    pub x: usize,
    pub y: usize,
}

/// A scalar on the tape: its value, the gradient accumulated into it, and
/// the operation that made it, if any.
#[derive(Clone, Copy, Debug, PartialEq, Eq, Structural)]
pub struct Variable {
    pub data: i64,
    pub grad: Option<i64>,
    pub grad_fn: Option<AddBackWard>,
}

impl Variable {
    /// A variable made by no operation.
    pub fn leaf(data: i64) -> (r: Variable)
        ensures
            r == (Variable { data, grad: None, grad_fn: None }),
    {
        Variable { data, grad: None, grad_fn: None }
    }
}

/// The variables, in the order they were made; an operation refers only to
/// variables made before its result.
pub struct Tape {
    pub vars: Vec<Variable>,
}

/// A gradient added into what a variable holds.
pub open spec fn accumulate(old: Option<i64>, g: i64) -> i64 {
    match old {
        Some(o) => o.wrapping_add(g),
        None => g,
    }
}

/// Operands come before the variables they make.
pub open spec fn tape_wf(vars: Seq<Variable>) -> bool {
    forall|i: int| 0 <= i < vars.len() && (#[trigger] vars[i]).grad_fn is Some ==> vars[i].grad_fn->0.x < i && vars[i].grad_fn->0.y < i
}

/// The gradients after a backward walk from `v` with gradient `g`: `v`
/// accumulates `g`, then both operands of the addition that made it are
/// walked with `g`.
pub open spec fn backward_spec(vars: Seq<Variable>, grads: Seq<Option<i64>>, v: int, g: i64) -> Seq<Option<i64>>
    decreases v,
{
    if !(0 <= v < vars.len() && v < grads.len()) {
        grads
    } else {
        let grads1 = grads.update(v, Some(accumulate(grads[v], g)));
        match vars[v].grad_fn {
            Some(f) => if f.x < v && f.y < v {
                let grads2 = backward_spec(vars, grads1, f.x as int, g);
                backward_spec(vars, grads2, f.y as int, g)
            } else {
                grads1
            },
            None => grads1,
        }
    }
}

/// Only values and records matter to a backward walk, not the gradients
/// the variables hold.
pub proof fn lemma_backward_spec_frame(a: Seq<Variable>, b: Seq<Variable>, grads: Seq<Option<i64>>, v: int, g: i64)
    requires
        a.len() == b.len(),
        forall|i: int| 0 <= i < a.len() ==> (#[trigger] a[i]).data == b[i].data && a[i].grad_fn == b[i].grad_fn,
    ensures
        backward_spec(a, grads, v, g) == backward_spec(b, grads, v, g),
    decreases v,
{
    if 0 <= v < a.len() && v < grads.len() {
        let grads1 = grads.update(v, Some(accumulate(grads[v], g)));
        if let Some(f) = a[v].grad_fn {
            if f.x < v && f.y < v {
                lemma_backward_spec_frame(a, b, grads1, f.x as int, g);
                let grads2 = backward_spec(a, grads1, f.x as int, g);
                lemma_backward_spec_frame(a, b, grads2, f.y as int, g);
            }
        }
    }
}

/// The gradient held by each variable.
pub open spec fn grads_of(vars: Seq<Variable>) -> Seq<Option<i64>> {
    Seq::new(vars.len(), |i: int| vars[i].grad)
}

impl Tape {
    pub fn new() -> (r: Tape)
        ensures
            r.vars@.len() == 0,
    {
        Tape { vars: Vec::new() }
    }

    /// Appends a variable made by no operation and returns its position.
    pub fn push(&mut self, v: Variable) -> (r: usize)
        requires
            tape_wf(old(self).vars@),
            v.grad_fn is None,
        ensures
            tape_wf(final(self).vars@),
            r == old(self).vars@.len(),
            final(self).vars@ == old(self).vars@.push(v),
    {
        let r = self.vars.len();
        self.vars.push(v);
        proof {
            assert forall|i: int| 0 <= i < self.vars@.len() && (#[trigger] self.vars@[i]).grad_fn is Some implies
                self.vars@[i].grad_fn->0.x < i && self.vars@[i].grad_fn->0.y < i by {
                assert(old(self).vars@[i] == self.vars@[i]);
            }
        }
        r
    }

    pub fn get(&self, i: usize) -> (r: Variable)
        requires
            i < self.vars@.len(),
        ensures
            r == self.vars@[i as int],
    {
        self.vars[i]
    }

    /// Walks backward from `v`, seeded with `grad` (1 when none is given).
    pub fn backward(&mut self, v: usize, grad: Option<i64>)
        requires
            tape_wf(old(self).vars@),
            v < old(self).vars@.len(),
        ensures
            tape_wf(final(self).vars@),
            final(self).vars@.len() == old(self).vars@.len(),
            grads_of(final(self).vars@) == backward_spec(old(self).vars@, grads_of(old(self).vars@), v as int,
                match grad { Some(g) => g, None => 1i64 }),
            forall|i: int| 0 <= i < old(self).vars@.len() ==> (#[trigger] final(self).vars@[i]).data == old(self).vars@[i].data
                && final(self).vars@[i].grad_fn == old(self).vars@[i].grad_fn,
    {
        let g: i64 = match grad {
            Some(g) => g,
            None => 1,
        };
        self.backward_from(v, g);
    }

    fn backward_from(&mut self, v: usize, g: i64)
        requires
            tape_wf(old(self).vars@),
            v < old(self).vars@.len(),
        ensures
            tape_wf(final(self).vars@),
            final(self).vars@.len() == old(self).vars@.len(),
            grads_of(final(self).vars@) == backward_spec(old(self).vars@, grads_of(old(self).vars@), v as int, g),
            forall|i: int| 0 <= i < old(self).vars@.len() ==> (#[trigger] final(self).vars@[i]).data == old(self).vars@[i].data
                && final(self).vars@[i].grad_fn == old(self).vars@[i].grad_fn,
        decreases v,
    {
        let ghost vars0 = self.vars@;
        let cur = self.vars[v];
        let next = Variable { grad: Some(match cur.grad { Some(o) => o.wrapping_add(g), None => g }), ..cur };
        self.vars.set(v, next);
        proof {
            assert(grads_of(self.vars@) =~= grads_of(vars0).update(v as int, Some(accumulate(grads_of(vars0)[v as int], g))));
            assert forall|i: int| 0 <= i < self.vars@.len() && (#[trigger] self.vars@[i]).grad_fn is Some implies
                self.vars@[i].grad_fn->0.x < i && self.vars@[i].grad_fn->0.y < i by {
                assert(vars0[i].grad_fn == self.vars@[i].grad_fn);
            }
        }
        if let Some(f) = cur.grad_fn {
            let ghost vars1 = self.vars@;
            proof {
                lemma_backward_spec_frame(vars1, vars0, grads_of(vars1), f.x as int, g);
            }
            self.backward_from(f.x, g);
            let ghost vars2 = self.vars@;
            proof {
                lemma_backward_spec_frame(vars2, vars0, grads_of(vars2), f.y as int, g);
            }
            self.backward_from(f.y, g);
        }
    }
}

/// The backward step of a recorded operation: hands the gradient of its
/// result on to its operands.
pub trait GradFunction {
    /// The operands lie before position `n` of a tape.
    spec fn operands_before(&self, n: int) -> bool;

    /// The gradients a tape holds after this step hands `grad` on.
    spec fn after(&self, vars: Seq<Variable>, grad: i64) -> Seq<Option<i64>>;

    fn apply(&self, tape: &mut Tape, grad: i64)
        requires
            tape_wf(old(tape).vars@),
            self.operands_before(old(tape).vars@.len() as int),
        ensures
            tape_wf(final(tape).vars@),
            final(tape).vars@.len() == old(tape).vars@.len(),
            grads_of(final(tape).vars@) == self.after(old(tape).vars@, grad),
    ;
}

impl GradFunction for AddBackWard {
    open spec fn operands_before(&self, n: int) -> bool {
        self.x < n && self.y < n
    }

    /// Both operands receive `grad`, and the walk goes on from each.
    open spec fn after(&self, vars: Seq<Variable>, grad: i64) -> Seq<Option<i64>> {
        backward_spec(vars, backward_spec(vars, grads_of(vars), self.x as int, grad), self.y as int, grad)
    }

    fn apply(&self, tape: &mut Tape, grad: i64) {
        let ghost vars0 = tape.vars@;
        tape.backward_from(self.x, grad);
        let ghost vars1 = tape.vars@;
        proof {
            lemma_backward_spec_frame(vars1, vars0, grads_of(vars1), self.y as int, grad);
        }
        tape.backward_from(self.y, grad);
    }
}

/// For `y = a + b` on a tape where `a` and `b` are distinct leaves with no
/// gradient yet, a backward walk from `y` with gradient `g` gives `a` and
/// `b` the gradient `g` each.
pub proof fn tape_additive_law(vars: Seq<Variable>, a: usize, b: usize, y: usize, g: i64)
    requires
        tape_wf(vars),
        y < vars.len(),
        a != b,
        vars[a as int].grad_fn is None && vars[a as int].grad is None,
        vars[b as int].grad_fn is None && vars[b as int].grad is None,
        vars[y as int].grad_fn == Some(AddBackWard { x: a, y: b }),
    ensures
        backward_spec(vars, grads_of(vars), y as int, g)[a as int] == Some(g),
        backward_spec(vars, grads_of(vars), y as int, g)[b as int] == Some(g),
{
    assert(a < y && b < y);
    let gr0 = grads_of(vars);
    let gr1 = gr0.update(y as int, Some(accumulate(gr0[y as int], g)));
    assert(gr1[a as int] == None::<i64>);
    assert(gr1[b as int] == None::<i64>);
    let gr2 = backward_spec(vars, gr1, a as int, g);
    assert(gr2 == gr1.update(a as int, Some(accumulate(gr1[a as int], g))));
    let gr3 = backward_spec(vars, gr2, b as int, g);
    assert(gr3 == gr2.update(b as int, Some(accumulate(gr2[b as int], g))));
    assert(backward_spec(vars, gr0, y as int, g) == gr3);
}

/// Scalar addition on the tape.
pub struct Add {}

impl Add {
    /// Appends `a + b` (wrapping) with a backward record of its operands,
    /// and returns its position.
    pub fn apply(&self, tape: &mut Tape, a: usize, b: usize) -> (r: usize)
        requires
            tape_wf(old(tape).vars@),
            a < old(tape).vars@.len(),
            b < old(tape).vars@.len(),
        ensures
            tape_wf(final(tape).vars@),
            r == old(tape).vars@.len(),
            final(tape).vars@ == old(tape).vars@.push(Variable {
                data: old(tape).vars@[a as int].data.wrapping_add(old(tape).vars@[b as int].data),
                grad: None,
                grad_fn: Some(AddBackWard { x: a, y: b }),
            }),
    {
        let data = tape.vars[a].data.wrapping_add(tape.vars[b].data);
        let r = tape.vars.len();
        tape.vars.push(Variable { data, grad: None, grad_fn: Some(AddBackWard { x: a, y: b }) });
        proof {
            assert forall|i: int| 0 <= i < tape.vars@.len() && (#[trigger] tape.vars@[i]).grad_fn is Some implies
                tape.vars@[i].grad_fn->0.x < i && tape.vars@[i].grad_fn->0.y < i by {
                if i < r {
                    assert(old(tape).vars@[i] == tape.vars@[i]);
                }
            }
        }
        r
    }
}

} // verus!
