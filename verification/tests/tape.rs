//! The tape's execution order and the merge protocol.

use dfdx::gradients::Gradients;
use dfdx::storage::CpuError;
use dfdx::tape::{BackwardOp, GradientTape, Merge, NoneTape, OwnedTape, Tape};
use dfdx::Ratio;

fn fill(id: u64, v: i64) -> BackwardOp {
    BackwardOp::Fill { id, shape: vec![], value: Ratio::from_int(v) }
}

fn scalar_grad(g: &Gradients, id: u64) -> Ratio {
    g.get(id).get(0)
}

#[test]
fn test_execute_runs_in_reverse_registration_order() {
    // Operations registered first, run last: with three overwrites of one
    // entry, the first-registered one decides the final value.
    let mut tape = GradientTape::new();
    tape.add_backward_op(fill(7, 1));
    tape.add_backward_op(fill(7, 2));
    tape.add_backward_op(fill(7, 3));
    let g = tape.execute().unwrap();
    assert_eq!(scalar_grad(&g, 7), Ratio::from_int(1));

    // Registering in the opposite order flips the outcome, so the order
    // really is observed, not accidental.
    let mut tape2 = GradientTape::new();
    tape2.add_backward_op(fill(7, 3));
    tape2.add_backward_op(fill(7, 2));
    tape2.add_backward_op(fill(7, 1));
    let g2 = tape2.execute().unwrap();
    assert_eq!(scalar_grad(&g2, 7), Ratio::from_int(3));
}

#[test]
fn test_execute_chain_rule_record() {
    // grad[out] is seeded by a fill; the chain-rule record then multiplies
    // it into grad[inp]. Records run in reverse, so the fill (registered
    // later) happens before the chain rule step.
    let mut tape = GradientTape::new();
    tape.add_backward_op(BackwardOp::ChainRule {
        inp_id: 1,
        out_id: 2,
        shape: vec![],
        der: vec![Ratio::from_int(5)],
    });
    tape.add_backward_op(BackwardOp::Fill { id: 2, shape: vec![], value: Ratio::from_int(3) });
    let g = tape.execute().unwrap();
    assert_eq!(scalar_grad(&g, 1), Ratio::from_int(15));
    assert_eq!(scalar_grad(&g, 2), Ratio::from_int(3));
}

#[test]
fn test_execute_rejects_mismatched_record_shapes() {
    // A chain-rule record whose derivative list does not match its shape
    // is a typed error, not a wrong answer.
    let mut tape = GradientTape::new();
    tape.add_backward_op(BackwardOp::ChainRule {
        inp_id: 1,
        out_id: 2,
        shape: vec![3],
        der: vec![Ratio::from_int(1)],
    });
    assert_eq!(tape.execute().unwrap_err(), CpuError::ShapeMismatch);
}

#[test]
fn test_append_keeps_relative_order() {
    // Appending moves the other tape's records after this tape's records,
    // so they run first during the reversed execution.
    let mut first = GradientTape::new();
    first.add_backward_op(fill(9, 1));
    let mut second = GradientTape::new();
    second.add_backward_op(fill(9, 2));
    first.append(&mut second);
    let g = first.execute().unwrap();
    assert_eq!(scalar_grad(&g, 9), Ratio::from_int(1));
    let g2 = second.execute().unwrap();
    assert!(!g2.contains(9));
}

#[test]
fn test_merge_table() {
    // none + none stays none; owning + none keeps the log; owning +
    // owning concatenates the logs.
    let n = NoneTape;
    let _still_none: NoneTape = n.merge(NoneTape);

    let mut left = OwnedTape::empty();
    left.add_backward_op(fill(4, 1));
    let kept = left.merge(NoneTape);

    let mut right = OwnedTape::empty();
    right.add_backward_op(fill(4, 2));
    let both = kept.merge(right);
    let g = both.0.execute().unwrap();
    // The left log's record still runs last.
    assert_eq!(scalar_grad(&g, 4), Ratio::from_int(1));
}

#[test]
fn test_none_tape_records_nothing() {
    let mut n = NoneTape;
    n.add_backward_op(fill(1, 1));
    n.try_alloc_grad(1, &vec![2]).unwrap();
    // Nothing to execute: the carrier holds no tape at all; this is the
    // zero-cost way to run forward passes untracked.
}
