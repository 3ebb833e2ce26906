//! Iteration order of strided storage: contiguous, broadcast and permuted
//! stride layouts, walked in row-major order.

use dfdx::shapes::{make_at_least_4d, normalize_axes, normalize_axis, try_canonical_strides};
use dfdx::storage::StridedArray;

fn canonical(shape: &Vec<usize>) -> Vec<usize> {
    try_canonical_strides(shape).unwrap()
}

#[test]
fn test_0d_contiguous_iter() {
    let shape: Vec<usize> = vec![];
    let strides = canonical(&shape);
    let s: StridedArray<f32> = StridedArray::from_parts(vec![0.0], shape, strides).unwrap();
    let mut i = s.iter();
    assert_eq!(i.next(), Some(0.0));
    assert!(i.next().is_none());
}

#[test]
fn test_1d_contiguous_iter() {
    let shape: Vec<usize> = vec![3];
    let strides = canonical(&shape);
    let s: StridedArray<f32> =
        StridedArray::from_parts(vec![0.0, 1.0, 2.0], shape, strides).unwrap();
    let mut i = s.iter();
    assert_eq!(i.next(), Some(0.0));
    assert_eq!(i.next(), Some(1.0));
    assert_eq!(i.next(), Some(2.0));
    assert!(i.next().is_none());
}

#[test]
fn test_2d_contiguous_iter() {
    let shape: Vec<usize> = vec![2, 3];
    let strides = canonical(&shape);
    let s: StridedArray<f32> =
        StridedArray::from_parts(vec![1.0, 2.0, 3.0, 4.0, 5.0, 6.0], shape, strides).unwrap();
    let mut i = s.iter();
    assert_eq!(i.next(), Some(1.0));
    assert_eq!(i.next(), Some(2.0));
    assert_eq!(i.next(), Some(3.0));
    assert_eq!(i.next(), Some(4.0));
    assert_eq!(i.next(), Some(5.0));
    assert_eq!(i.next(), Some(6.0));
    assert!(i.next().is_none());
}

#[test]
fn test_2d_broadcasted_0_iter() {
    let s: StridedArray<f32> =
        StridedArray::from_parts(vec![1.0, 0.0, -1.0], vec![2, 3], vec![0, 1]).unwrap();
    let mut i = s.iter();
    assert_eq!(i.next(), Some(1.0));
    assert_eq!(i.next(), Some(0.0));
    assert_eq!(i.next(), Some(-1.0));
    assert_eq!(i.next(), Some(1.0));
    assert_eq!(i.next(), Some(0.0));
    assert_eq!(i.next(), Some(-1.0));
    assert!(i.next().is_none());
}

#[test]
fn test_2d_broadcasted_1_iter() {
    let s: StridedArray<f32> =
        StridedArray::from_parts(vec![1.0, -1.0], vec![2, 3], vec![1, 0]).unwrap();
    let mut i = s.iter();
    assert_eq!(i.next(), Some(1.0));
    assert_eq!(i.next(), Some(1.0));
    assert_eq!(i.next(), Some(1.0));
    assert_eq!(i.next(), Some(-1.0));
    assert_eq!(i.next(), Some(-1.0));
    assert_eq!(i.next(), Some(-1.0));
    assert!(i.next().is_none());
}

#[test]
fn test_2d_permuted_iter() {
    let s: StridedArray<f32> =
        StridedArray::from_parts(vec![1.0, 2.0, 3.0, 4.0, 5.0, 6.0], vec![3, 2], vec![1, 3])
            .unwrap();
    let mut i = s.iter();
    assert_eq!(i.next(), Some(1.0));
    assert_eq!(i.next(), Some(4.0));
    assert_eq!(i.next(), Some(2.0));
    assert_eq!(i.next(), Some(5.0));
    assert_eq!(i.next(), Some(3.0));
    assert_eq!(i.next(), Some(6.0));
    assert!(i.next().is_none());
}

#[test]
fn test_3d_broadcasted_iter() {
    let s: StridedArray<f32> =
        StridedArray::from_parts(vec![1.0, 2.0, 3.0, 4.0, 5.0, 6.0], vec![3, 1, 2], vec![2, 0, 1])
            .unwrap();
    let mut i = s.iter();
    assert_eq!(i.next(), Some(1.0));
    assert_eq!(i.next(), Some(2.0));
    assert_eq!(i.next(), Some(3.0));
    assert_eq!(i.next(), Some(4.0));
    assert_eq!(i.next(), Some(5.0));
    assert_eq!(i.next(), Some(6.0));
    assert!(i.next().is_none());
}

#[test]
fn test_iter_with_index_reports_multi_indices() {
    let s: StridedArray<f32> =
        StridedArray::from_parts(vec![1.0, 2.0, 3.0, 4.0], vec![2, 2], vec![2, 1]).unwrap();
    let mut i = s.iter_with_index();
    assert_eq!(i.next(), Some((1.0, vec![0, 0])));
    assert_eq!(i.next(), Some((2.0, vec![0, 1])));
    assert_eq!(i.next(), Some((3.0, vec![1, 0])));
    assert_eq!(i.next(), Some((4.0, vec![1, 1])));
    assert!(i.next().is_none());
}

#[test]
fn test_fast_path_matches_general_path() {
    // The same shape walked once with canonical strides (the fast path)
    // and once with hand-written strides equal to them (the general path
    // decides contiguity itself): the offset order must agree, which shows
    // through equal element orders.
    let data = vec![10.0f32, 11.0, 12.0, 13.0, 14.0, 15.0];
    let shape: Vec<usize> = vec![2, 3];
    let fast: StridedArray<f32> =
        StridedArray::from_parts(data.clone(), shape.clone(), canonical(&shape)).unwrap();
    let general: StridedArray<f32> =
        StridedArray::from_parts(data, vec![2, 3], vec![3, 1]).unwrap();
    let mut a = fast.iter();
    let mut b = general.iter();
    for _ in 0..6 {
        let x = a.next();
        assert_eq!(x, b.next());
        assert!(x.is_some());
    }
    assert!(a.next().is_none());
    assert!(b.next().is_none());
}

#[test]
fn test_normalize_axis_counts_back_from_the_end() {
    assert_eq!(normalize_axis(0, 3), Some(0));
    assert_eq!(normalize_axis(2, 3), Some(2));
    assert_eq!(normalize_axis(-1, 3), Some(2));
    assert_eq!(normalize_axis(-3, 3), Some(0));
    assert_eq!(normalize_axis(3, 3), None);
    assert_eq!(normalize_axis(-4, 3), None);
}

#[test]
fn test_make_at_least_4d_pads_leading_axes() {
    let (sh, st) = make_at_least_4d(&vec![2, 3], &vec![3, 1]);
    assert_eq!(sh, vec![1, 1, 2, 3]);
    assert_eq!(st, vec![0, 0, 3, 1]);
    let (sh4, st4) = make_at_least_4d(&vec![5, 4, 3, 2], &vec![24, 6, 2, 1]);
    assert_eq!(sh4, vec![5, 4, 3, 2]);
    assert_eq!(st4, vec![24, 6, 2, 1]);
}

#[test]
fn test_normalize_axes_maps_a_whole_list() {
    assert_eq!(normalize_axes(&vec![0, -1], 3), Some(vec![0, 2]));
    assert_eq!(normalize_axes(&vec![-3, 1], 3), Some(vec![0, 1]));
    assert_eq!(normalize_axes(&vec![0, 3], 3), None);
}
