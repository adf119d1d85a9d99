use trilattice::solver::{is_square, is_square_system, replace_column};

#[test]
fn square_matrices_are_recognised() {
    assert!(is_square(&Vec::<Vec<i32>>::new()));
    assert!(is_square(&vec![vec![7]]));
    assert!(is_square(&vec![vec![1, 2], vec![3, 4]]));
    assert!(!is_square(&vec![vec![1, 2, 3], vec![4, 5, 6]]));
    assert!(!is_square(&vec![vec![1, 2], vec![3]]));
    assert!(!is_square(&vec![vec![1, 2], vec![3, 4, 5]]));
    assert!(!is_square(&vec![Vec::<i32>::new()]));
}

#[test]
fn a_system_needs_one_right_hand_entry_per_row() {
    let a = vec![vec![4.0, -1.0], vec![-1.0, 4.0]];
    assert!(is_square_system(&a, &vec![1.0, 2.0]));
    assert!(!is_square_system(&a, &vec![1.0]));
    assert!(!is_square_system(&a, &vec![1.0, 2.0, 3.0]));
    assert!(!is_square_system(&vec![vec![1.0, 2.0], vec![3.0]], &vec![1.0, 2.0]));
    assert!(is_square_system(&Vec::<Vec<f64>>::new(), &Vec::new()));
}

#[test]
fn a_column_is_replaced_in_place() {
    let mut a = vec![vec![1, 2, 3], vec![4, 5, 6], vec![7, 8, 9]];
    assert_eq!(replace_column(&mut a, &vec![10, 20, 30], 1), Some(()));
    assert_eq!(a, vec![vec![1, 10, 3], vec![4, 20, 6], vec![7, 30, 9]]);
    assert_eq!(replace_column(&mut a, &vec![-1, -2, -3], 0), Some(()));
    assert_eq!(a, vec![vec![-1, 10, 3], vec![-2, 20, 6], vec![-3, 30, 9]]);
    assert_eq!(replace_column(&mut a, &vec![0, 0, 0], 2), Some(()));
    assert_eq!(a, vec![vec![-1, 10, 0], vec![-2, 20, 0], vec![-3, 30, 0]]);
}

#[test]
fn a_short_vector_leaves_the_lower_rows() {
    let mut a = vec![vec![1.5, 2.5], vec![3.5, 4.5]];
    assert_eq!(replace_column(&mut a, &vec![9.0], 1), Some(()));
    assert_eq!(a, vec![vec![1.5, 9.0], vec![3.5, 4.5]]);
    assert_eq!(replace_column(&mut a, &Vec::new(), 0), Some(()));
    assert_eq!(a, vec![vec![1.5, 9.0], vec![3.5, 4.5]]);
}

#[test]
fn a_missing_column_is_refused() {
    let mut empty: Vec<Vec<i32>> = Vec::new();
    assert_eq!(replace_column(&mut empty, &vec![1, 2], 0), None);
    assert!(empty.is_empty());

    let mut a = vec![vec![1, 2], vec![3, 4]];
    assert_eq!(replace_column(&mut a, &vec![5, 6], 2), None);
    assert_eq!(replace_column(&mut a, &vec![5, 6, 7, 8], 7), None);
    assert_eq!(a, vec![vec![1, 2], vec![3, 4]]);
}
