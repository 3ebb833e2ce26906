//! The broadcast/reduce engine: accumulator results and the adjoint
//! round trip.

use dfdx::reduce::{broadcast_into, reduce_into, Accumulator};
use dfdx::shapes::normalize_axes;
use dfdx::storage::{CpuError, StridedArray};
use dfdx::Ratio;

fn r(n: i64) -> Ratio {
    Ratio::from_int(n)
}

fn array1(vals: &[i64]) -> StridedArray<Ratio> {
    let data: Vec<Ratio> = vals.iter().map(|v| r(*v)).collect();
    let n = data.len();
    StridedArray::from_parts(data, vec![n], vec![1]).unwrap()
}

fn read(arr: &StridedArray<Ratio>) -> Vec<Ratio> {
    let mut out = Vec::new();
    for k in 0..arr.num_elements() {
        out.push(arr.get(k));
    }
    out
}

#[test]
fn test_full_reduction_of_each_accumulator() {
    // Over [1, 2, 3, 4] along the only axis: the sum is 10, the product
    // 24, the maximum 4, the minimum 1.
    let t = array1(&[1, 2, 3, 4]);
    let sum = reduce_into(Accumulator::Add, &t, &vec![0]).unwrap();
    assert_eq!(read(&sum), vec![r(10)]);
    let product = reduce_into(Accumulator::Mul, &t, &vec![0]).unwrap();
    assert_eq!(read(&product), vec![r(24)]);
    let largest = reduce_into(Accumulator::Max, &t, &vec![0]).unwrap();
    assert_eq!(read(&largest), vec![r(4)]);
    let smallest = reduce_into(Accumulator::Min, &t, &vec![0]).unwrap();
    assert_eq!(read(&smallest), vec![r(1)]);
}

#[test]
fn test_reduce_one_axis_of_two() {
    let data: Vec<Ratio> = [1, 2, 3, 4, 5, 6].iter().map(|v| r(*v)).collect();
    let t = StridedArray::from_parts(data, vec![2, 3], vec![3, 1]).unwrap();
    let rows_summed = reduce_into(Accumulator::Add, &t, &vec![0]).unwrap();
    assert_eq!(rows_summed.shape().clone(), vec![3]);
    assert_eq!(read(&rows_summed), vec![r(5), r(7), r(9)]);
    let cols_summed = reduce_into(Accumulator::Add, &t, &vec![1]).unwrap();
    assert_eq!(read(&cols_summed), vec![r(6), r(15)]);
}

#[test]
fn test_broadcast_adjoint_round_trip() {
    // Broadcasting [1, 2, 3] into a 2-by-3 target copies the row twice;
    // reducing that with addition along the same axis gives back the
    // doubled values: the pair is adjoint, not inverse.
    let src = array1(&[1, 2, 3]);
    let mut target =
        StridedArray::filled(vec![2, 3], Ratio::zero()).unwrap();
    broadcast_into(Accumulator::Copy, &mut target, &src, &vec![0]).unwrap();
    assert_eq!(read(&target), vec![r(1), r(2), r(3), r(1), r(2), r(3)]);
    let back = reduce_into(Accumulator::Add, &target, &vec![0]).unwrap();
    assert_eq!(read(&back), vec![r(2), r(4), r(6)]);
}

#[test]
fn test_broadcast_with_empty_axes_is_a_copy() {
    let src = array1(&[7, 8]);
    let mut target = StridedArray::filled(vec![2], Ratio::zero()).unwrap();
    broadcast_into(Accumulator::Copy, &mut target, &src, &vec![]).unwrap();
    assert_eq!(read(&target), vec![r(7), r(8)]);
}

#[test]
fn test_broadcast_accumulates_with_add() {
    let src = array1(&[1, 2]);
    let mut target =
        StridedArray::filled(vec![3, 2], Ratio::from_int(10)).unwrap();
    broadcast_into(Accumulator::Add, &mut target, &src, &vec![0]).unwrap();
    assert_eq!(
        read(&target),
        vec![r(11), r(12), r(11), r(12), r(11), r(12)]
    );
}

#[test]
fn test_reduce_rejects_empty_axes() {
    let t = array1(&[1, 2]);
    assert_eq!(
        reduce_into(Accumulator::Add, &t, &vec![]).unwrap_err(),
        CpuError::ShapeMismatch
    );
}

#[test]
fn test_reduce_rejects_bad_axes() {
    let t = array1(&[1, 2]);
    assert_eq!(
        reduce_into(Accumulator::Add, &t, &vec![3]).unwrap_err(),
        CpuError::ShapeMismatch
    );
    assert_eq!(
        reduce_into(Accumulator::Add, &t, &vec![0, 0]).unwrap_err(),
        CpuError::ShapeMismatch
    );
}

#[test]
fn test_broadcast_rejects_mismatched_source() {
    let src = array1(&[1, 2]);
    let mut target = StridedArray::filled(vec![2, 3], Ratio::zero()).unwrap();
    assert_eq!(
        broadcast_into(Accumulator::Copy, &mut target, &src, &vec![0]).unwrap_err(),
        CpuError::ShapeMismatch
    );
}

#[test]
fn test_reduce_accepts_axes_counted_from_the_end() {
    let data: Vec<Ratio> = [1, 2, 3, 4, 5, 6].iter().map(|v| r(*v)).collect();
    let t = StridedArray::from_parts(data, vec![2, 3], vec![3, 1]).unwrap();
    // Axis -1 names the last axis.
    let axes = normalize_axes(&vec![-1], 2).unwrap();
    let summed = reduce_into(Accumulator::Add, &t, &axes).unwrap();
    assert_eq!(read(&summed), vec![r(6), r(15)]);
}

#[test]
fn test_accumulator_identities() {
    assert_eq!(Accumulator::Add.identity(), Ratio::zero());
    assert_eq!(Accumulator::Mul.identity(), Ratio::one());
    assert_eq!(Accumulator::Max.identity(), Ratio::new(i64::MIN, 1));
    assert_eq!(Accumulator::Min.identity(), Ratio::new(i64::MAX, 1));
    assert_eq!(Accumulator::Max.combine(r(3), r(5)), r(5));
    assert_eq!(Accumulator::Min.combine(r(3), r(5)), r(3));
    assert_eq!(Accumulator::Copy.combine(r(3), r(5)), r(5));
}
