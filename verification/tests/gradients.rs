//! The gradient map: lazy allocation, removal, and the isolation of
//! entries under mutation.

use dfdx::gradients::Gradients;
use dfdx::Ratio;

#[test]
fn test_lazy_allocation_installs_zeros() {
    let mut g = Gradients::new();
    assert!(!g.contains(1));
    g.try_alloc_for(1, &vec![3]).unwrap();
    assert!(g.contains(1));
    let arr = g.get(1);
    for k in 0..arr.num_elements() {
        assert_eq!(arr.get(k), Ratio::zero());
    }
    // A second allocation under the same identity changes nothing.
    g.try_alloc_for(1, &vec![3]).unwrap();
    assert_eq!(g.get(1).num_elements(), 3);
}

#[test]
fn test_remove_takes_the_entry_out() {
    let mut g = Gradients::new();
    g.try_alloc_for(5, &vec![2]).unwrap();
    let taken = g.remove(5).unwrap();
    assert_eq!(taken.num_elements(), 2);
    assert!(!g.contains(5));
    assert!(g.remove(5).is_none());
}

#[test]
fn test_mutating_one_entry_leaves_the_others_alone() {
    // The mutable accessor touches exactly the entry it names: writing
    // through it must not disturb any other identity's gradient.
    let mut g = Gradients::new();
    g.try_alloc_for(1, &vec![2]).unwrap();
    g.try_alloc_for(2, &vec![2]).unwrap();
    {
        let first = g.get_mut(1);
        first.set(0, Ratio::from_int(5));
    }
    assert_eq!(g.get(1).get(0), Ratio::from_int(5));
    assert_eq!(g.get(2).get(0), Ratio::zero());
    assert_eq!(g.get(2).get(1), Ratio::zero());
}

#[test]
fn test_get_or_alloc_mut_creates_then_reuses() {
    let mut g = Gradients::new();
    {
        let fresh = g.get_or_alloc_mut(4, &vec![2]).unwrap();
        assert_eq!(fresh.get(0), Ratio::zero());
        fresh.set(1, Ratio::from_int(7));
    }
    {
        let again = g.get_or_alloc_mut(4, &vec![2]).unwrap();
        assert_eq!(again.get(1), Ratio::from_int(7));
    }
}

#[test]
fn test_insert_overrides() {
    let mut g = Gradients::new();
    g.try_alloc_for(3, &vec![1]).unwrap();
    let replacement =
        dfdx::storage::StridedArray::filled(vec![1], Ratio::from_int(9)).unwrap();
    g.insert(3, replacement);
    assert_eq!(g.get(3).get(0), Ratio::from_int(9));
}
