use rovo::linear::{Linear, LinearConfig};
use rovo::graph::Graph;
use rovo::optim::{zero_grad, OptimizerParamGroup};
use rovo::reduce::argmax_kernel_impl;

#[test]
fn argmax_picks_first_largest() {
    assert_eq!(argmax_kernel_impl(&[3, 9, 1, 9]), Some(1));
    assert_eq!(argmax_kernel_impl(&[-5]), Some(0));
    assert_eq!(argmax_kernel_impl(&[]), None);
}

#[test]
fn linear_layer_parameters() {
    let mut g = Graph::new(true);
    let mut l = Linear::new(&mut g, 4, 3).unwrap();
    assert_eq!(l.options, LinearConfig { bias: true, in_features: 4, out_features: 3 });
    let ws = l.ws.unwrap();
    let bs = l.bs.unwrap();
    assert_eq!(g.tensor_impl(ws).sizes(), &[3, 4]);
    assert_eq!(g.tensor_impl(bs).sizes(), &[3]);
    assert!(g.tensor_impl(ws).requires_grad());
    assert!(l.reset_parameters(&mut g, vec![1; 12], vec![2; 3]).is_ok());
    assert_eq!(g.values(bs), &vec![2, 2, 2]);
    assert!(l.reset_parameters(&mut g, vec![1; 11], vec![2; 3]).is_err());
    assert_eq!(LinearConfig::default().bias, true);
    assert_eq!(l.parameters(), vec![ws, bs]);
}

#[test]
fn zero_grad_clears_parameter_grads() {
    let mut g = Graph::new(true);
    let a = g.new_tensor(&[2], vec![1, 2], true).unwrap();
    g.accumulate_grad(a, &vec![5, 6]);
    let groups = vec![OptimizerParamGroup::new(vec![a])];
    assert_eq!(groups[0].params().len(), 1);
    zero_grad(&mut g, &groups);
    assert_eq!(g.tensor_impl(a).grad().unwrap(), &vec![0, 0]);
}
