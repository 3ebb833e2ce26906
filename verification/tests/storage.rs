//! Storage behavior: copy-on-write isolation, zero-copy views, and the
//! validation of buffer/shape/stride triples.

use dfdx::storage::{CpuError, StridedArray};
use dfdx::Ratio;

#[test]
fn test_clone_shares_then_write_isolates() {
    // Storage X cloned to Y shares the buffer; mutating Y must leave the
    // values previously observed through X unchanged.
    let x: StridedArray<Ratio> = StridedArray::from_parts(
        vec![Ratio::from_int(1), Ratio::from_int(2), Ratio::from_int(3)],
        vec![3],
        vec![1],
    )
    .unwrap();
    let mut y = x.try_clone().unwrap();
    assert_eq!(y.get(0), Ratio::from_int(1));
    y.set(0, Ratio::from_int(9));
    assert_eq!(y.get(0), Ratio::from_int(9));
    assert_eq!(x.get(0), Ratio::from_int(1));
    assert_eq!(x.get(1), Ratio::from_int(2));
    assert_eq!(x.get(2), Ratio::from_int(3));
}

#[test]
fn test_view_with_strides_broadcasts() {
    let x: StridedArray<f32> =
        StridedArray::from_parts(vec![5.0, 6.0], vec![2], vec![1]).unwrap();
    let v = x.view_with_strides(vec![3, 2], vec![0, 1]).unwrap();
    let mut i = v.iter();
    for _ in 0..3 {
        assert_eq!(i.next(), Some(5.0));
        assert_eq!(i.next(), Some(6.0));
    }
    assert!(i.next().is_none());
}

#[test]
fn test_from_parts_rejects_out_of_range_offsets() {
    // A stride pair that can reach past the buffer is refused.
    let r: Option<StridedArray<f32>> =
        StridedArray::from_parts(vec![1.0, 2.0, 3.0], vec![2, 3], vec![3, 1]);
    assert!(r.is_none());
    // Mismatched ranks are refused.
    let r2: Option<StridedArray<f32>> =
        StridedArray::from_parts(vec![1.0, 2.0], vec![2], vec![1, 1]);
    assert!(r2.is_none());
}

#[test]
fn test_filled_allocates_contiguous_zeros() {
    let z: StridedArray<Ratio> = StridedArray::filled(vec![2, 2], Ratio::zero()).unwrap();
    assert_eq!(z.num_elements(), 4);
    for k in 0..4 {
        assert_eq!(z.get(k), Ratio::zero());
    }
}

#[test]
fn test_filled_reports_impossible_shapes() {
    let r: Result<StridedArray<Ratio>, CpuError> =
        StridedArray::filled(vec![usize::MAX, usize::MAX], Ratio::zero());
    assert_eq!(r.unwrap_err(), CpuError::OutOfMemory);
}
