use matrix_library::{parse_int, Element, Matrix, MatrixError};
use std::collections::VecDeque;

fn m(rows: Vec<Vec<i32>>) -> Matrix<i32> {
    Matrix::from_vecs(rows).unwrap()
}

#[test]
fn transpose_twice_gives_back_the_matrix() {
    let a = m(vec![vec![1, 2, 3], vec![4, 5, 6]]);
    assert_eq!(a.clone().transpose().transpose(), a);
}

#[test]
fn transpose_swaps_the_shape() {
    let a = m(vec![vec![1, 2, 3], vec![4, 5, 6]]);
    assert_eq!(a.transpose().shape(), (3, 2));
    let row = m(vec![vec![7, 8, 9, 10]]);
    assert_eq!(row.transpose(), m(vec![vec![7], vec![8], vec![9], vec![10]]));
}

#[test]
fn matmul_fails_exactly_on_inner_mismatch() {
    let a = m(vec![vec![1, 2], vec![3, 4], vec![5, 6]]);
    let b = m(vec![vec![1, 2, 3, 4]]);
    assert_eq!(a.matmul(&b), Err(MatrixError::DimMismatch((3, 2), (1, 4))));
    let c = m(vec![vec![1], vec![1]]);
    assert_eq!(a.matmul(&c), Ok(m(vec![vec![3], vec![7], vec![11]])));
}

#[test]
fn matmul_with_identity_keeps_the_matrix() {
    let a = m(vec![vec![2, -1], vec![0, 3]]);
    let id = m(vec![vec![1, 0], vec![0, 1]]);
    assert_eq!(a.matmul(&id), Ok(a.clone()));
}

#[test]
fn add_is_cellwise() {
    let a = m(vec![vec![1, -2], vec![3, 4]]);
    let b = m(vec![vec![10, 20], vec![30, -40]]);
    assert_eq!(a.add(b), Ok(m(vec![vec![11, 18], vec![33, -36]])));
}

#[test]
fn add_refuses_other_shapes() {
    let a = m(vec![vec![1, 2, 3], vec![4, 5, 6]]);
    let row = m(vec![vec![1, 2, 3]]);
    assert_eq!(a.clone().add(row), Err(MatrixError::DimMismatch((2, 3), (1, 3))));
    let col3 = m(vec![vec![1], vec![2], vec![3]]);
    assert_eq!(a.add(col3), Err(MatrixError::DimMismatch((2, 3), (3, 1))));
}

#[test]
fn multiply_refuses_other_shapes() {
    let a = m(vec![vec![1, 2, 3], vec![4, 5, 6]]);
    let col = m(vec![vec![1], vec![2]]);
    assert_eq!(a.multiply(col), Err(MatrixError::DimMismatch((2, 3), (2, 1))));
}

#[test]
fn scalar_forms() {
    let a = m(vec![vec![1, 2], vec![3, 4]]);
    assert_eq!(a.clone().add_scalar(10), m(vec![vec![11, 12], vec![13, 14]]));
    assert_eq!(a.multiply_scalar(-3), m(vec![vec![-3, -6], vec![-9, -12]]));
}

#[test]
fn rowwise_sum() {
    let a = m(vec![vec![1, 2, 3], vec![4, 5, 6]]);
    assert_eq!(a.dim_sum(1), m(vec![vec![6], vec![15]]));
    let single = m(vec![vec![7]]);
    assert_eq!(single.dim_sum(0), m(vec![vec![7]]));
}

#[test]
fn fill_repeats_the_value() {
    let f = Matrix::fill((2, 3), 9u8);
    assert_eq!(f, Matrix::from_vecs(vec![vec![9u8, 9, 9], vec![9, 9, 9]]).unwrap());
    let s = Matrix::fill((1, 2), String::from("x"));
    assert_eq!(s.at((0, 1)), Some(&String::from("x")));
}

#[test]
fn construction_rejects_empty_and_ragged_input() {
    let none: Vec<Vec<i32>> = vec![];
    assert_eq!(Matrix::from_vecs(none), Err(MatrixError::Empty));
    assert_eq!(Matrix::<i32>::from_vecs(vec![vec![], vec![]]), Err(MatrixError::Empty));
    assert_eq!(Matrix::from_vecs(vec![vec![1, 2], vec![3, 4], vec![5]]), Err(MatrixError::Ragged(2)));
    let q: VecDeque<VecDeque<i32>> = VecDeque::from([VecDeque::from([1]), VecDeque::from([2, 3])]);
    assert_eq!(Matrix::new(q), Err(MatrixError::Ragged(1)));
    assert_eq!(Matrix::<i32>::new(VecDeque::new()), Err(MatrixError::Empty));
}

#[test]
fn row_major_construction() {
    assert_eq!(Matrix::from_row_major(vec![1, 2, 3, 4, 5, 6], 3), Ok(m(vec![vec![1, 2, 3], vec![4, 5, 6]])));
    assert_eq!(Matrix::from_row_major(vec![1, 2, 3, 4, 5], 2), Err(MatrixError::Ragged(2)));
    assert_eq!(Matrix::from_row_major(vec![1, 2], 0), Err(MatrixError::Empty));
    assert_eq!(Matrix::<i32>::from_row_major(vec![], 2), Err(MatrixError::Empty));
}

#[test]
fn cell_access() {
    let mut a = m(vec![vec![1, 2], vec![3, 4]]);
    assert_eq!(a.at((1, 0)), Some(&3));
    assert_eq!(a.at((2, 0)), None);
    assert_eq!(a.at((0, 2)), None);
    *a.at_mut((0, 1)).unwrap() = 20;
    assert!(a.at_mut((5, 5)).is_none());
    assert_eq!(a, m(vec![vec![1, 20], vec![3, 4]]));
}

#[test]
fn display_of_a_single_cell_and_of_negatives() {
    assert_eq!(m(vec![vec![-7]]).to_display_string(), "[[-7]]");
    assert_eq!(m(vec![vec![1], vec![22]]).to_display_string(), "[[1]\n [22]]");
}

#[test]
fn error_messages() {
    assert_eq!(
        MatrixError::DimMismatch((2, 3), (12, 305)).message(),
        "Error: Matrix dimension (2,3) is mismatched with (12,305)"
    );
    assert_eq!(MatrixError::Ragged(40).message(), "Error: Matrix row 40 is not as long as the first row");
    assert_eq!(MatrixError::Empty.message(), "Error: Matrix needs at least one row and one column");
}

#[test]
fn leading_numbers() {
    assert_eq!(parse_int("a12.npy"), Some(12));
    assert_eq!(parse_int("c0"), Some(0));
    assert_eq!(parse_int("x007y3"), Some(7));
    assert_eq!(parse_int("no digits"), None);
    assert_eq!(parse_int(""), None);
    assert_eq!(parse_int("4294967295"), Some(u32::MAX));
    assert_eq!(parse_int("b4294967296.npy"), None);
}

#[test]
fn zero_values() {
    assert_eq!(<i32 as Element>::zero(), 0);
    assert_eq!(<u8 as Element>::zero(), 0);
    assert_eq!(<usize as Element>::zero(), 0);
    assert_eq!(<u32 as Element>::zero(), 0);
}

#[test]
fn draining_a_column_vector() {
    let v: Vec<i32> = m(vec![vec![3], vec![1], vec![2]]).into_iter().collect();
    assert_eq!(v, vec![3, 1, 2]);
}
