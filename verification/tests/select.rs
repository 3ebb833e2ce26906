//! Row selection on the leading axis and its accumulation adjoint.

use dfdx::select::DeviceSelect;
use dfdx::storage::StridedArray;
use dfdx::Ratio;

fn r(n: i64) -> Ratio {
    Ratio::from_int(n)
}

fn matrix2x2(vals: &[i64]) -> StridedArray<Ratio> {
    let data: Vec<Ratio> = vals.iter().map(|v| r(*v)).collect();
    StridedArray::from_parts(data, vec![2, 2], vec![2, 1]).unwrap()
}

#[test]
fn test_select_axis_copies_one_row() {
    let m = matrix2x2(&[1, 2, 3, 4]);
    let row = m.select_axis(1).unwrap();
    assert_eq!(row.shape().clone(), vec![2]);
    assert_eq!(row.get(0), r(3));
    assert_eq!(row.get(1), r(4));
    let first = m.select_axis(0).unwrap();
    assert_eq!(first.get(0), r(1));
    assert_eq!(first.get(1), r(2));
}

#[test]
fn test_select_axis_rejects_out_of_range_rows() {
    let m = matrix2x2(&[1, 2, 3, 4]);
    assert!(m.select_axis(2).is_err());
}

#[test]
fn test_select_add_accumulates_into_the_row() {
    let mut m = matrix2x2(&[1, 2, 3, 4]);
    let row = StridedArray::from_parts(vec![r(10), r(20)], vec![2], vec![1]).unwrap();
    m.select_add(0, &row).unwrap();
    assert_eq!(m.get(0), r(11));
    assert_eq!(m.get(1), r(22));
    assert_eq!(m.get(2), r(3));
    assert_eq!(m.get(3), r(4));
}
