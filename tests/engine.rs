use rovo::autograd::{collect_next_edges, gradient_edge, grad_accumulator, TensorHook};
use rovo::engine::{Engine, GraphTask};
use rovo::error::AutogradError;
use rovo::graph::Graph;
use rovo::node::{Edge, NodeKind, Tensor};
use rovo::tensor_ops::{add, mul, neg, sub, sum};

fn leaf(g: &mut Graph, sizes: &[usize], values: Vec<i64>) -> Tensor {
    g.new_tensor(sizes, values, true).unwrap()
}

fn backward(g: &mut Graph, y: Tensor, seed: Vec<i64>) -> GraphTask {
    let root = gradient_edge(g, y);
    let mut engine = Engine::get_default_engine();
    engine.execute(g, vec![root], vec![seed], false).unwrap()
}

fn grad(g: &Graph, t: Tensor) -> Vec<i64> {
    g.tensor_impl(t).grad().unwrap().clone()
}

#[test]
fn additive_backward_gives_seed_to_both_operands() {
    let mut g = Graph::new(true);
    let a = leaf(&mut g, &[1], vec![2]);
    let b = leaf(&mut g, &[1], vec![3]);
    let y = add(&mut g, a, b).unwrap();
    assert_eq!(g.values(y), &vec![5]);
    backward(&mut g, y, vec![1]);
    assert_eq!(grad(&g, a), vec![1]);
    assert_eq!(grad(&g, b), vec![1]);
}

#[test]
fn additive_backward_with_seed_seven() {
    let mut g = Graph::new(true);
    let a = leaf(&mut g, &[2], vec![2, 4]);
    let b = leaf(&mut g, &[2], vec![3, 5]);
    let y = add(&mut g, a, b).unwrap();
    backward(&mut g, y, vec![7, 8]);
    assert_eq!(grad(&g, a), vec![7, 8]);
    assert_eq!(grad(&g, b), vec![7, 8]);
}

#[test]
fn multiplicative_backward_swaps_operands() {
    let mut g = Graph::new(true);
    let a = leaf(&mut g, &[1], vec![2]);
    let b = leaf(&mut g, &[1], vec![3]);
    let y = mul(&mut g, a, b).unwrap();
    assert_eq!(g.values(y), &vec![6]);
    backward(&mut g, y, vec![1]);
    assert_eq!(grad(&g, a), vec![3]);
    assert_eq!(grad(&g, b), vec![2]);
}

#[test]
fn multiplicative_backward_scales_by_seed() {
    let mut g = Graph::new(true);
    let a = leaf(&mut g, &[2], vec![2, -1]);
    let b = leaf(&mut g, &[2], vec![3, 4]);
    let y = mul(&mut g, a, b).unwrap();
    backward(&mut g, y, vec![5, 10]);
    assert_eq!(grad(&g, a), vec![15, 40]);
    assert_eq!(grad(&g, b), vec![10, -10]);
}

#[test]
fn subtraction_and_negation_backward() {
    let mut g = Graph::new(true);
    let a = leaf(&mut g, &[1], vec![9]);
    let b = leaf(&mut g, &[1], vec![4]);
    let d = sub(&mut g, a, b).unwrap();
    assert_eq!(g.values(d), &vec![5]);
    let y = neg(&mut g, d).unwrap();
    assert_eq!(g.values(y), &vec![-5]);
    backward(&mut g, y, vec![1]);
    assert_eq!(grad(&g, a), vec![-1]);
    assert_eq!(grad(&g, b), vec![1]);
}

#[test]
fn leaf_used_twice_accumulates() {
    let mut g = Graph::new(true);
    let a = leaf(&mut g, &[1], vec![5]);
    let y = add(&mut g, a, a).unwrap();
    let task = backward(&mut g, y, vec![1]);
    assert_eq!(grad(&g, a), vec![2]);
    assert!(task.dependencies_empty());
    assert_eq!(task.outstanding_tasks, 0);
}

#[test]
fn repeated_backward_adds_into_leaf_grad() {
    let mut g = Graph::new(true);
    let a = leaf(&mut g, &[1], vec![5]);
    let b = leaf(&mut g, &[1], vec![6]);
    let y = add(&mut g, a, b).unwrap();
    backward(&mut g, y, vec![1]);
    backward(&mut g, y, vec![1]);
    assert_eq!(grad(&g, a), vec![2]);
}

#[test]
fn end_to_end_sum_of_product_fills_input_grad() {
    let mut g = Graph::new(true);
    let x = leaf(&mut g, &[2, 4], vec![3; 8]);
    let w = leaf(&mut g, &[2, 4], vec![1, 2, 3, 4, 5, 6, 7, 8]);
    let h = mul(&mut g, x, w).unwrap();
    let y = sum(&mut g, h).unwrap();
    assert_eq!(g.values(y), &vec![108]);
    assert_eq!(g.tensor_impl(y).sizes().len(), 0);
    let task = backward(&mut g, y, vec![1]);
    assert_eq!(task.outstanding_tasks, 0);
    assert!(task.completed());
    assert!(task.dependencies_empty());
    assert_eq!(task.ready_queue.len(), 0);
    let gx = grad(&g, x);
    assert_eq!(gx.len(), 8);
    assert_eq!(g.tensor_impl(x).sizes(), &[2, 4]);
    assert_eq!(gx, vec![1, 2, 3, 4, 5, 6, 7, 8]);
    assert_eq!(grad(&g, w), vec![3; 8]);
}

#[test]
fn every_reachable_node_runs_once() {
    let mut g = Graph::new(true);
    let a = leaf(&mut g, &[1], vec![1]);
    let b = leaf(&mut g, &[1], vec![2]);
    let c = add(&mut g, a, b).unwrap();
    let d = mul(&mut g, c, a).unwrap();
    let task = backward(&mut g, d, vec![1]);
    let reachable: usize = task.reachable.iter().filter(|r| **r).count();
    assert_eq!(task.exec_order.len(), reachable);
    let mut seen = task.exec_order.clone();
    seen.sort();
    seen.dedup();
    assert_eq!(seen.len(), task.exec_order.len());
    // root, mul, add, and the two accumulators
    assert_eq!(reachable, 5);
    assert_eq!(grad(&g, a), vec![1 * 3 + 1 * 1]);
    assert_eq!(grad(&g, b), vec![1]);
}

#[test]
fn dependency_counts_match_edges() {
    let mut g = Graph::new(true);
    let a = leaf(&mut g, &[1], vec![1]);
    let b = leaf(&mut g, &[1], vec![2]);
    let c = add(&mut g, a, b).unwrap();
    let d = mul(&mut g, c, a).unwrap();
    let root_edge = gradient_edge(&mut g, d);
    let n0 = g.num_nodes();
    let mut task = GraphTask::new(false, false);
    let root = {
        let mut engine = Engine::get_default_engine();
        let t = engine.execute(&mut g, vec![root_edge], vec![vec![1]], false).unwrap();
        t.root
    };
    assert_eq!(root, n0);
    Engine::compute_dependencies(&g, root, &mut task);
    let total: usize = task.dependencies.iter().sum();
    // root -> mul; mul -> add, mul -> acc(a); add -> acc(a), add -> acc(b)
    assert_eq!(total, 5);
    let acc_a = g.tensor_impl(a).get_autogradmeta().unwrap().grad_accumulator.unwrap();
    assert_eq!(task.dependencies[acc_a], 2);
    assert_eq!(task.dependencies[root], 0);
}

#[test]
fn no_grad_mode_records_nothing() {
    let mut g = Graph::new(false);
    let a = leaf(&mut g, &[1], vec![2]);
    let b = leaf(&mut g, &[1], vec![3]);
    let y = add(&mut g, a, b).unwrap();
    assert_eq!(TensorHook::grad_fn(&g, y), None);
    assert_eq!(g.num_nodes(), 0);
    let prev = g.set_grad_enabled(true);
    assert!(!prev);
    let z = add(&mut g, a, b).unwrap();
    assert!(TensorHook::grad_fn(&g, z).is_some());
}

#[test]
fn inputs_without_grad_get_no_edge() {
    let mut g = Graph::new(true);
    let a = leaf(&mut g, &[1], vec![2]);
    let c = g.new_tensor(&[1], vec![3], false).unwrap();
    let edges = collect_next_edges(&mut g, &[a, c]);
    assert!(edges[0].is_valid());
    assert!(!edges[1].is_valid());
    let y = mul(&mut g, a, c).unwrap();
    backward(&mut g, y, vec![1]);
    assert_eq!(grad(&g, a), vec![3]);
    assert!(g.tensor_impl(c).grad().is_none());
}

#[test]
fn accumulator_is_the_same_node_twice() {
    let mut g = Graph::new(true);
    let a = leaf(&mut g, &[1], vec![2]);
    let first = grad_accumulator(&mut g, a).unwrap();
    let n = g.num_nodes();
    let second = grad_accumulator(&mut g, a).unwrap();
    assert_eq!(first, second);
    assert_eq!(g.num_nodes(), n);
    match g.node(first).kind {
        NodeKind::AccumulateGrad { variable } => assert_eq!(variable, a),
        _ => panic!("not an accumulator"),
    }
}

#[test]
fn accumulator_absent_without_requires_grad() {
    let mut g = Graph::new(true);
    let c = g.new_tensor(&[1], vec![3], false).unwrap();
    assert_eq!(grad_accumulator(&mut g, c), None);
}

#[test]
fn execute_rejects_mismatched_seeds() {
    let mut g = Graph::new(true);
    let a = leaf(&mut g, &[1], vec![2]);
    let e = gradient_edge(&mut g, a);
    let mut engine = Engine::get_default_engine();
    let r = engine.execute(&mut g, vec![e], vec![], false);
    assert_eq!(r.err(), Some(AutogradError::GraphConsistency));
}

#[test]
fn execute_rejects_unknown_node() {
    let mut g = Graph::new(true);
    let mut engine = Engine::get_default_engine();
    let r = engine.execute(&mut g, vec![Edge::new(Some(7), 0)], vec![vec![1]], false);
    assert_eq!(r.err(), Some(AutogradError::GraphConsistency));
    assert_eq!(g.num_nodes(), 0);
}

#[test]
fn shape_mismatch_is_reported() {
    let mut g = Graph::new(true);
    let a = leaf(&mut g, &[2], vec![1, 2]);
    let b = leaf(&mut g, &[1], vec![1]);
    assert_eq!(add(&mut g, a, b).err(), Some(AutogradError::ShapeMismatch));
    assert_eq!(g.new_tensor(&[2, 2], vec![1, 2, 3], false).err(), Some(AutogradError::ShapeMismatch));
}

#[test]
fn sum_backward_expands_to_every_element() {
    let mut g = Graph::new(true);
    let a = leaf(&mut g, &[3], vec![1, 2, 3]);
    let y = sum(&mut g, a).unwrap();
    assert_eq!(g.values(y), &vec![6]);
    backward(&mut g, y, vec![4]);
    assert_eq!(grad(&g, a), vec![4, 4, 4]);
}

#[test]
fn matrix_product_and_transpose_forward() {
    let mut g = Graph::new(false);
    let a = g.new_tensor(&[2, 3], vec![1, 2, 3, 4, 5, 6], false).unwrap();
    let b = g.new_tensor(&[3, 2], vec![7, 8, 9, 10, 11, 12], false).unwrap();
    let c = rovo::tensor_ops::mm(&mut g, a, b).unwrap();
    assert_eq!(g.tensor_impl(c).sizes(), &[2, 2]);
    assert_eq!(g.values(c), &vec![58, 64, 139, 154]);
    let at = rovo::tensor_ops::t(&mut g, a).unwrap();
    assert_eq!(g.tensor_impl(at).sizes(), &[3, 2]);
    assert_eq!(g.values(at), &vec![1, 4, 2, 5, 3, 6]);
    assert_eq!(rovo::tensor_ops::mm(&mut g, a, a).err(), Some(AutogradError::ShapeMismatch));
}

#[test]
fn linear_layer_backward_fills_input_grad() {
    let mut g = Graph::new(true);
    let mut linear = rovo::linear::Linear::new(&mut g, 4, 3).unwrap();
    linear
        .reset_parameters(&mut g, vec![1, 2, 3, 4, 5, 6, 7, 8, 9, 10, 11, 12], vec![0, 0, 0])
        .unwrap();
    let w = linear.ws.unwrap();
    let x = leaf(&mut g, &[2, 4], vec![3; 8]);
    let wt = rovo::tensor_ops::t(&mut g, w).unwrap();
    let h = rovo::tensor_ops::mm(&mut g, x, wt).unwrap();
    assert_eq!(g.values(h), &vec![30, 78, 126, 30, 78, 126]);
    let y = sum(&mut g, h).unwrap();
    assert_eq!(g.values(y), &vec![468]);
    let task = backward(&mut g, y, vec![1]);
    assert_eq!(task.outstanding_tasks, 0);
    assert!(task.dependencies_empty());
    let gx = grad(&g, x);
    assert_eq!(g.tensor_impl(x).sizes(), &[2, 4]);
    assert_eq!(gx.len(), 8);
    assert_eq!(gx, vec![15, 18, 21, 24, 15, 18, 21, 24]);
    assert_eq!(grad(&g, w), vec![6; 12]);
}

#[test]
fn linear_with_bias_through_addmm() {
    let mut g = Graph::new(true);
    let mut linear = rovo::linear::Linear::new(&mut g, 4, 3).unwrap();
    linear
        .reset_parameters(&mut g, vec![1, 2, 3, 4, 5, 6, 7, 8, 9, 10, 11, 12], vec![1, 2, 3])
        .unwrap();
    let w = linear.ws.unwrap();
    let b = linear.bs.unwrap();
    let x = leaf(&mut g, &[2, 4], vec![3; 8]);
    let wt = rovo::tensor_ops::t(&mut g, w).unwrap();
    let h = rovo::tensor_ops::addmm(&mut g, b, x, wt, 1, 1).unwrap();
    assert_eq!(g.tensor_impl(h).sizes(), &[2, 3]);
    assert_eq!(g.values(h), &vec![31, 80, 129, 31, 80, 129]);
    let y = sum(&mut g, h).unwrap();
    let task = backward(&mut g, y, vec![1]);
    assert_eq!(task.outstanding_tasks, 0);
    assert_eq!(grad(&g, x), vec![15, 18, 21, 24, 15, 18, 21, 24]);
    assert_eq!(grad(&g, b), vec![2, 2, 2]);
    assert_eq!(grad(&g, w), vec![6; 12]);
}

#[test]
fn addmm_scales_and_full_bias() {
    let mut g = Graph::new(true);
    let s = leaf(&mut g, &[2, 2], vec![1, 1, 1, 1]);
    let a = leaf(&mut g, &[2, 3], vec![1, 2, 3, 4, 5, 6]);
    let m = leaf(&mut g, &[3, 2], vec![7, 8, 9, 10, 11, 12]);
    let h = rovo::tensor_ops::addmm(&mut g, s, a, m, 2, 3).unwrap();
    assert_eq!(g.values(h), &vec![119, 131, 281, 311]);
    backward(&mut g, h, vec![1, 0, 0, 1]);
    assert_eq!(grad(&g, s), vec![3, 0, 0, 3]);
    // alpha * g * m^T
    assert_eq!(grad(&g, a), vec![14, 18, 22, 16, 20, 24]);
    // alpha * a^T * g
    assert_eq!(grad(&g, m), vec![2, 8, 4, 10, 6, 12]);
    let bad = leaf(&mut g, &[3], vec![0, 0, 0]);
    assert_eq!(rovo::tensor_ops::addmm(&mut g, bad, a, m, 1, 1).err(), Some(AutogradError::ShapeMismatch));
}

#[test]
fn two_uses_of_a_leaf_share_its_accumulator() {
    let mut g = Graph::new(true);
    let a = leaf(&mut g, &[1], vec![4]);
    let edges = collect_next_edges(&mut g, &[a, a]);
    assert_eq!(edges[0], edges[1]);
    assert_eq!(edges[0].input_nr, 0);
    let acc = g.tensor_impl(a).get_autogradmeta().unwrap().grad_accumulator;
    assert_eq!(edges[0].function, acc);
    let y = mul(&mut g, a, a).unwrap();
    let node = TensorHook::grad_fn(&g, y).unwrap();
    assert_eq!(g.node(node).next_edges()[0], edges[0]);
    assert_eq!(g.node(node).next_edges()[1], edges[0]);
    backward(&mut g, y, vec![1]);
    assert_eq!(grad(&g, a), vec![8]);
}

#[test]
fn execution_order_follows_edges() {
    let mut g = Graph::new(true);
    let a = leaf(&mut g, &[1], vec![1]);
    let b = leaf(&mut g, &[1], vec![2]);
    let c = add(&mut g, a, b).unwrap();
    let d = mul(&mut g, c, a).unwrap();
    let task = backward(&mut g, d, vec![1]);
    let pos = |n: usize| task.exec_order.iter().position(|x| *x == n).unwrap();
    let mul_node = TensorHook::grad_fn(&g, d).unwrap();
    let add_node = TensorHook::grad_fn(&g, c).unwrap();
    let acc_a = g.tensor_impl(a).get_autogradmeta().unwrap().grad_accumulator.unwrap();
    assert!(pos(task.root) < pos(mul_node));
    assert!(pos(mul_node) < pos(add_node));
    assert!(pos(add_node) < pos(acc_a));
    assert!(g.is_grad_enabled());
}
