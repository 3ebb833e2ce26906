//! End-to-end reverse-mode differentiation scenarios with exact fractions.

use dfdx::ops;
use dfdx::ops::{ReshapeTo, ScalarAddKernelOp, TryCheckedAdd, try_unary_op};
use dfdx::tensor::{Cpu, Tensor};
use dfdx::tape::NoneTape;
use dfdx::Ratio;

fn r(n: i64) -> Ratio {
    Ratio::from_int(n)
}

fn q(n: i64, d: i64) -> Ratio {
    Ratio::new(n, d)
}

fn tensor1(dev: &mut Cpu, vals: &[i64]) -> Tensor<NoneTape> {
    let data: Vec<Ratio> = vals.iter().map(|v| r(*v)).collect();
    let n = data.len();
    dev.tensor_from(data, vec![n]).unwrap()
}

fn grad_of(g: &dfdx::gradients::Gradients, id: u64) -> Vec<Ratio> {
    let arr = g.get(id);
    let mut out = Vec::new();
    for k in 0..arr.num_elements() {
        out.push(arr.get(k));
    }
    out
}

#[test]
fn test_add_then_mean_backward() {
    // y = a + b, loss = mean(y): every element of both inputs receives
    // gradient one third.
    let mut dev = Cpu::new();
    let a = tensor1(&mut dev, &[1, 2, 3]);
    let b = tensor1(&mut dev, &[1, -1, 0]);
    let y = ops::add(&mut dev, a.trace(), b.duplicate()).unwrap();
    assert_eq!(y.array(), vec![r(2), r(1), r(3)]);
    let loss = ops::mean(&mut dev, y).unwrap();
    assert_eq!(loss.array(), vec![q(2, 1)]);
    let g = ops::backward(loss).unwrap();
    assert_eq!(grad_of(&g, a.id_value()), vec![q(1, 3), q(1, 3), q(1, 3)]);
    assert_eq!(grad_of(&g, b.id_value()), vec![q(1, 3), q(1, 3), q(1, 3)]);
}

#[test]
fn test_mul_trace_backward_end_to_end() {
    // r = a * b with a traced; r's values are the products, and the mean's
    // backward pass hands each operand the other operand's values over
    // the element count.
    let mut dev = Cpu::new();
    let a = tensor1(&mut dev, &[1, 2, 3]);
    let b = tensor1(&mut dev, &[1, -1, 0]);
    let prod = ops::mul(&mut dev, a.trace(), b.duplicate()).unwrap();
    assert_eq!(prod.array(), vec![r(1), r(-2), r(0)]);
    let loss = ops::mean(&mut dev, prod).unwrap();
    let g = ops::backward(loss).unwrap();
    assert_eq!(grad_of(&g, a.id_value()), vec![q(1, 3), q(-1, 3), q(0, 1)]);
    assert_eq!(grad_of(&g, b.id_value()), vec![q(1, 3), q(2, 3), q(1, 1)]);
}

#[test]
fn test_both_operands_traced() {
    // Two independently tracked operands: their tapes merge, and both
    // gradients come out of one backward pass.
    let mut dev = Cpu::new();
    let a = tensor1(&mut dev, &[2, 4]);
    let b = tensor1(&mut dev, &[10, 20]);
    let y = ops::add(&mut dev, a.trace(), b.trace()).unwrap();
    let loss = ops::mean(&mut dev, y).unwrap();
    let g = ops::backward(loss).unwrap();
    assert_eq!(grad_of(&g, a.id_value()), vec![q(1, 2), q(1, 2)]);
    assert_eq!(grad_of(&g, b.id_value()), vec![q(1, 2), q(1, 2)]);
}

#[test]
fn test_clamp_blocks_gradient_outside_band() {
    let mut dev = Cpu::new();
    let t = tensor1(&mut dev, &[-2, 0, 2]);
    let clamped = ops::clamp(&mut dev, t.trace(), r(-1), r(1)).unwrap();
    assert_eq!(clamped.array(), vec![r(-1), r(0), r(1)]);
    let loss = ops::mean(&mut dev, clamped).unwrap();
    let g = ops::backward(loss).unwrap();
    assert_eq!(grad_of(&g, t.id_value()), vec![q(0, 1), q(1, 3), q(0, 1)]);
}

#[test]
fn test_leakyrelu_scales_negative_side() {
    let mut dev = Cpu::new();
    let t = tensor1(&mut dev, &[-4, 2]);
    let out = ops::leakyrelu(&mut dev, t.trace(), q(1, 2)).unwrap();
    assert_eq!(out.array(), vec![r(-2), r(2)]);
    let loss = ops::mean(&mut dev, out).unwrap();
    let g = ops::backward(loss).unwrap();
    assert_eq!(grad_of(&g, t.id_value()), vec![q(1, 4), q(1, 2)]);
}

#[test]
fn test_prelu_learns_the_slope() {
    let mut dev = Cpu::new();
    let t = tensor1(&mut dev, &[-2, 3]);
    let slope = dev
        .tensor_from(vec![q(1, 2), q(1, 4)], vec![2])
        .unwrap();
    let out = ops::prelu(&mut dev, t.trace(), slope.duplicate()).unwrap();
    assert_eq!(out.array(), vec![r(-1), r(3)]);
    let loss = ops::mean(&mut dev, out).unwrap();
    let g = ops::backward(loss).unwrap();
    assert_eq!(grad_of(&g, t.id_value()), vec![q(1, 4), q(1, 2)]);
    assert_eq!(grad_of(&g, slope.id_value()), vec![q(-1, 1), q(0, 1)]);
}

#[test]
fn test_sum_axes_forward_and_backward() {
    let mut dev = Cpu::new();
    let data: Vec<Ratio> = [1, 2, 3, 4, 5, 6].iter().map(|v| r(*v)).collect();
    let t = dev.tensor_from(data, vec![2, 3]).unwrap();
    let s0 = ops::sum_axes(&mut dev, t.trace(), vec![0]).unwrap();
    assert_eq!(s0.shape().clone(), vec![3]);
    assert_eq!(s0.array(), vec![r(5), r(7), r(9)]);
    let loss = ops::mean(&mut dev, s0).unwrap();
    let g = ops::backward(loss).unwrap();
    assert_eq!(grad_of(&g, t.id_value()), vec![q(1, 3); 6]);

    let s1 = ops::sum_axes(&mut dev, t.trace(), vec![1]).unwrap();
    assert_eq!(s1.array(), vec![r(6), r(15)]);
}

#[test]
fn test_tensor_identity_flows_through_tracing() {
    let mut dev = Cpu::new();
    let a = tensor1(&mut dev, &[5]);
    let traced = a.trace();
    assert_eq!(traced.id_value(), a.id_value());
    let (plain, tape) = traced.split_tape();
    assert_eq!(plain.id_value(), a.id_value());
    let back = plain.put_tape(tape);
    assert_eq!(back.id_value(), a.id_value());
    let fresh = a.with_empty_tape();
    assert_eq!(fresh.id_value(), a.id_value());
}

#[test]
fn test_checked_add_refuses_mismatched_shapes() {
    let mut dev = Cpu::new();
    let a = tensor1(&mut dev, &[1, 2]);
    let b = tensor1(&mut dev, &[1, 2, 3]);
    let r = a.try_checked_add(&mut dev, b);
    assert!(r.is_none());
}

#[test]
fn test_reshape_keeps_elements_in_order() {
    let mut dev = Cpu::new();
    let data: Vec<Ratio> = [1, 2, 3, 4, 5, 6].iter().map(|v| r(*v)).collect();
    let t = dev.tensor_from(data, vec![2, 3]).unwrap();
    let reshaped = t.try_reshape(&mut dev, vec![3, 2]).unwrap();
    assert_eq!(reshaped.shape().clone(), vec![3, 2]);
    assert_eq!(
        reshaped.array(),
        vec![r(1), r(2), r(3), r(4), r(5), r(6)]
    );
}

#[test]
fn test_reshape_backpropagates_through_the_new_shape() {
    // Reshaping keeps a tensor on the tape: gradients flow back to the
    // tensor that was reshaped, position for position.
    let mut dev = Cpu::new();
    let data: Vec<Ratio> = [1, 2, 3, 4, 5, 6].iter().map(|v| r(*v)).collect();
    let t = dev.tensor_from(data, vec![2, 3]).unwrap();
    let reshaped = t.trace().try_reshape(&mut dev, vec![3, 2]).unwrap();
    let loss = ops::mean(&mut dev, reshaped).unwrap();
    let g = ops::backward(loss).unwrap();
    assert_eq!(grad_of(&g, t.id_value()), vec![q(1, 6); 6]);
}

#[test]
fn test_tensor_from_rejects_wrong_length() {
    let mut dev = Cpu::new();
    let bad = dev.tensor_from(vec![r(1), r(2)], vec![3]);
    assert!(matches!(bad, Err(dfdx::storage::CpuError::ShapeMismatch)));
}

#[test]
fn test_normalize_to_unit_sum_scales_by_the_total() {
    // [1, 1, 2] sums to 4; normalized it is [1/4, 1/4, 1/2], and the mean's
    // backward pass scales the constant factor by one third.
    let mut dev = Cpu::new();
    let t = tensor1(&mut dev, &[1, 1, 2]);
    let normed = ops::normalize_to_unit_sum(&mut dev, t.trace()).unwrap();
    assert_eq!(normed.array(), vec![q(1, 4), q(1, 4), q(1, 2)]);
    let loss = ops::mean(&mut dev, normed).unwrap();
    let g = ops::backward(loss).unwrap();
    assert_eq!(grad_of(&g, t.id_value()), vec![q(1, 12); 3]);
}

#[test]
fn test_normalize_to_unit_sum_keeps_nonpositive_totals() {
    // A total that is not positive has no usable reciprocal; the scale
    // falls back to one and the values pass through.
    let mut dev = Cpu::new();
    let t = tensor1(&mut dev, &[-1, 1]);
    let normed = ops::normalize_to_unit_sum(&mut dev, t.duplicate()).unwrap();
    assert_eq!(normed.array(), vec![r(-1), r(1)]);
}

#[test]
fn test_mean_of_a_scalar_is_the_scalar() {
    let mut dev = Cpu::new();
    let t = dev.tensor_from(vec![q(5, 2)], vec![]).unwrap();
    let m = ops::mean(&mut dev, t.trace()).unwrap();
    assert_eq!(m.array(), vec![q(5, 2)]);
    let g = ops::backward(m).unwrap();
    assert_eq!(grad_of(&g, t.id_value()), vec![q(1, 1)]);
}

#[test]
fn test_scalar_add_kernel_through_unary_machinery() {
    let mut dev = Cpu::new();
    let t = tensor1(&mut dev, &[1, 2, 3]);
    let shifted = try_unary_op(&mut dev, ScalarAddKernelOp { scalar: q(1, 2) }, t.trace())
        .unwrap();
    assert_eq!(shifted.array(), vec![q(3, 2), q(5, 2), q(7, 2)]);
    let loss = ops::mean(&mut dev, shifted).unwrap();
    let g = ops::backward(loss).unwrap();
    assert_eq!(grad_of(&g, t.id_value()), vec![q(1, 3); 3]);
}
