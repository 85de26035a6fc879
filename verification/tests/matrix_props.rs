use fixed_matrix::mat::{Matrix, ShapeMismatch};

fn build(rows: usize, cols: usize, vals: Vec<i64>) -> Matrix<i64> {
    Matrix::construct(rows, cols, vals).unwrap()
}

#[test]
fn transpose_round_trip() {
    let a = build(2, 3, vec![1, 2, 3, 4, 5, 6]);
    assert_eq!(a.clone().transpose().transpose(), a);
}

#[test]
fn transpose_concrete() {
    let a = build(2, 3, vec![1, 2, 3, 4, 5, 6]);
    let t = a.transpose();
    assert_eq!(t, build(3, 2, vec![1, 4, 2, 5, 3, 6]));
}

#[test]
fn transposed_matches_transpose() {
    let a = build(2, 2, vec![9, 8, 7, 6]);
    assert_eq!(a.clone().transposed(), a.transpose());
}

#[test]
fn flip_x_twice() {
    let a = build(3, 2, vec![1, 2, 3, 4, 5, 6]);
    assert_eq!(a.clone().flip_x().flip_x(), a);
}

#[test]
fn flip_x_concrete() {
    let a = build(2, 2, vec![1, 2, 3, 4]);
    assert_eq!(a.flip_x(), build(2, 2, vec![3, 4, 1, 2]));
}

#[test]
fn add_commutes() {
    let a = build(2, 2, vec![1, -2, 3, 40]);
    let b = build(2, 2, vec![10, 20, -30, 4]);
    assert_eq!(a.clone().add(b.clone()), b.add(a));
}

#[test]
fn multiply_associative() {
    let a = build(2, 3, vec![1, 2, 3, 4, 5, 6]);
    let b = build(3, 2, vec![7, 8, 9, 10, 11, 12]);
    let c = build(2, 2, vec![-1, 2, 3, -4]);
    let left = a.clone().multiply(b.clone()).multiply(c.clone());
    let right = a.multiply(b.multiply(c));
    assert_eq!(left, right);
}

#[test]
fn multiply_identity_both_sides() {
    let a = build(2, 3, vec![1, 2, 3, 4, 5, 6]);
    let id2 = Matrix::identity(2);
    let id3 = Matrix::identity(3);
    assert_eq!(a.clone().multiply(id3), a);
    assert_eq!(id2.multiply(a.clone()), a);
}

#[test]
fn identity_entries() {
    let id = Matrix::identity(3);
    for i in 0..3usize {
        for j in 0..3usize {
            let expected: i64 = if i == j { 1 } else { 0 };
            assert_eq!(id.get(i, j), expected);
        }
    }
}

#[test]
fn two_by_two_scenario() {
    let a = build(2, 2, vec![1, 2, 3, 4]);
    assert_eq!(a.clone().transpose(), build(2, 2, vec![1, 3, 2, 4]));
    assert_eq!(a.clone().add(a.clone()), build(2, 2, vec![2, 4, 6, 8]));
    assert_eq!(a.clone().multiply(a), build(2, 2, vec![7, 10, 15, 22]));
}

#[test]
fn construct_wrong_count_fails() {
    assert_eq!(Matrix::construct(2, 2, vec![1i64, 2, 3]), Err(ShapeMismatch));
    assert_eq!(Matrix::construct(2, 2, vec![1i64, 2, 3, 4, 5]), Err(ShapeMismatch));
}

#[test]
fn construct_zero_dimension_fails() {
    let empty: Vec<i64> = Vec::new();
    assert_eq!(Matrix::construct(0, 3, empty), Err(ShapeMismatch));
    assert_eq!(Matrix::construct(3, 0, vec![1i64, 2, 3]), Err(ShapeMismatch));
}

#[test]
fn shape_and_elements() {
    let a = build(2, 3, vec![1, 2, 3, 4, 5, 6]);
    assert_eq!(a.len_x(), 2);
    assert_eq!(a.len_y(), 3);
    assert_eq!(a.get(0, 0), 1);
    assert_eq!(a.get(0, 2), 3);
    assert_eq!(a.get(1, 1), 5);
}

#[test]
fn add_concrete_values() {
    let a = build(1, 3, vec![5, -5, 0]);
    let b = build(1, 3, vec![2, 2, 2]);
    assert_eq!(a.add(b), build(1, 3, vec![7, -3, 2]));
}

#[test]
fn multiply_rectangular_concrete() {
    // (1x3) * (3x1) = (1x1) dot product, accumulated in ascending order.
    let a = build(1, 3, vec![1, 2, 3]);
    let b = build(3, 1, vec![4, 5, 6]);
    assert_eq!(a.multiply(b), build(1, 1, vec![32]));
}
