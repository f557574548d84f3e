use rovo::ops::{Add, GradFunction, Tape, Variable};

#[test]
fn test_add_op() {
    let mut tape = Tape::new();
    let a = tape.push(Variable { data: 2, grad: None, grad_fn: None });
    let b = tape.push(Variable { data: 3, grad: None, grad_fn: None });
    let op = Add {};
    let out = op.apply(&mut tape, a, b);
    assert_eq!(5.0, tape.get(out).data as f64);
}

#[test]
fn test_add_backward() {
    let mut tape = Tape::new();
    let a = tape.push(Variable { data: 2, grad: None, grad_fn: None });
    let b = tape.push(Variable { data: 3, grad: None, grad_fn: None });
    let op = Add {};
    let out = op.apply(&mut tape, a, b);
    tape.backward(out, None);
    assert_eq!(1.0, tape.get(a).grad.unwrap() as f64);
    assert_eq!(1.0, tape.get(b).grad.unwrap() as f64);
}

#[test]
fn tape_backward_with_seed_scales_gradients() {
    let mut tape = Tape::new();
    let a = tape.push(Variable::leaf(2));
    let b = tape.push(Variable::leaf(3));
    let out = Add {}.apply(&mut tape, a, b);
    tape.backward(out, Some(10));
    assert_eq!(tape.get(out).grad, Some(10));
    assert_eq!(tape.get(a).grad, Some(10));
    assert_eq!(tape.get(b).grad, Some(10));
}

#[test]
fn tape_gradients_accumulate_over_two_walks() {
    let mut tape = Tape::new();
    let a = tape.push(Variable::leaf(4));
    let b = tape.push(Variable::leaf(5));
    let out = Add {}.apply(&mut tape, a, b);
    tape.backward(out, None);
    tape.backward(out, None);
    assert_eq!(tape.get(a).grad, Some(2));
    assert_eq!(tape.get(b).grad, Some(2));
}

#[test]
fn tape_add_wraps_on_overflow() {
    let mut tape = Tape::new();
    let a = tape.push(Variable::leaf(i64::MAX));
    let b = tape.push(Variable::leaf(1));
    let out = Add {}.apply(&mut tape, a, b);
    assert_eq!(tape.get(out).data, i64::MIN);
}

#[test]
fn grad_function_hands_gradient_to_operands() {
    let mut tape = Tape::new();
    let a = tape.push(Variable::leaf(2));
    let b = tape.push(Variable::leaf(3));
    let out = Add {}.apply(&mut tape, a, b);
    let f = tape.get(out).grad_fn.unwrap();
    f.apply(&mut tape, 7);
    assert_eq!(tape.get(a).grad, Some(7));
    assert_eq!(tape.get(b).grad, Some(7));
    assert_eq!(tape.get(out).grad, None);
}
