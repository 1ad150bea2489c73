use gauss_seidel::dense::DenseMatrix;
use gauss_seidel::fixed::Fixed;
use gauss_seidel::sparse::{SparseMatrix, MAX_NON_ZEROS};
use gauss_seidel::store::{StoreError, MAX_N};

fn n(v: i64) -> Fixed {
    Fixed::from_int(v).unwrap()
}

#[test]
fn the_capacities_are_four() {
    assert_eq!(MAX_N, 4);
    assert_eq!(MAX_NON_ZEROS, 4);
}

#[test]
fn a_new_dense_store_holds_zeros() {
    let m = DenseMatrix::new();
    for i in 0..MAX_N {
        for j in 0..MAX_N {
            assert_eq!(m.get_element(i, j), Some(Fixed::zero()));
        }
    }
}

#[test]
fn set_element_overwrites_one_coefficient() {
    let mut m = DenseMatrix::new();
    assert_eq!(m.set_element(1, 2, n(7)), Ok(()));
    assert_eq!(m.set_element(3, 3, n(-2)), Ok(()));
    assert_eq!(m.set_element(1, 2, n(9)), Ok(()));
    for i in 0..MAX_N {
        for j in 0..MAX_N {
            let expected = match (i, j) {
                (1, 2) => n(9),
                (3, 3) => n(-2),
                _ => Fixed::zero(),
            };
            assert_eq!(m.get_element(i, j), Some(expected));
        }
    }
}

#[test]
fn the_dense_store_refuses_positions_outside_the_grid() {
    let mut m = DenseMatrix::new();
    m.set_element(0, 0, n(1)).unwrap();
    assert_eq!(m.set_element(4, 0, n(5)), Err(StoreError::OutOfBounds));
    assert_eq!(m.set_element(0, 4, n(5)), Err(StoreError::OutOfBounds));
    assert_eq!(m.set_element(usize::MAX, usize::MAX, n(5)), Err(StoreError::OutOfBounds));
    assert_eq!(m.get_element(4, 0), None);
    assert_eq!(m.get_element(0, 4), None);
    assert_eq!(m.get_element(0, 0), Some(n(1)));
    assert_eq!(m.get_element(3, 3), Some(Fixed::zero()));
}

#[test]
fn add_element_appends_in_order() {
    let mut s = SparseMatrix::new();
    assert_eq!(s.len(), 0);
    assert_eq!(s.get(0), None);
    assert_eq!(s.add_element(1, 1, n(5)), Ok(()));
    assert_eq!(s.add_element(0, 1, n(-3)), Ok(()));
    assert_eq!(s.len(), 2);
    assert_eq!(s.get(0), Some((1, 1, n(5))));
    assert_eq!(s.get(1), Some((0, 1, n(-3))));
    assert_eq!(s.get(2), None);
    assert!(s.contains(1, 1));
    assert!(s.contains(0, 1));
    assert!(!s.contains(1, 0));
}

#[test]
fn the_coordinate_store_refuses_a_second_entry_at_a_position() {
    let mut s = SparseMatrix::new();
    s.add_element(2, 3, n(1)).unwrap();
    assert_eq!(s.add_element(2, 3, n(8)), Err(StoreError::Duplicate));
    assert_eq!(s.len(), 1);
    assert_eq!(s.get(0), Some((2, 3, n(1))));
    assert_eq!(s.add_element(3, 2, n(8)), Ok(()));
}

#[test]
fn the_coordinate_store_refuses_a_fifth_entry() {
    let mut s = SparseMatrix::new();
    for i in 0..4 {
        assert_eq!(s.add_element(i, i, n(1 + i as i64)), Ok(()));
    }
    assert_eq!(s.add_element(0, 1, n(9)), Err(StoreError::CapacityExceeded));
    assert_eq!(s.len(), 4);
    for i in 0..4 {
        assert_eq!(s.get(i), Some((i, i, n(1 + i as i64))));
    }
}

#[test]
fn refusals_come_in_a_fixed_order() {
    let mut s = SparseMatrix::new();
    for i in 0..4 {
        s.add_element(i, i, n(1)).unwrap();
    }
    // outside the grid, though the store is full as well
    assert_eq!(s.add_element(4, 0, n(1)), Err(StoreError::OutOfBounds));
    assert_eq!(s.add_element(0, 4, n(1)), Err(StoreError::OutOfBounds));
    // taken, though the store is full as well
    assert_eq!(s.add_element(2, 2, n(1)), Err(StoreError::Duplicate));
    assert_eq!(s.add_element(2, 1, n(1)), Err(StoreError::CapacityExceeded));
}
