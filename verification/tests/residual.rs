use least_squares::{
    column_sum_of_squares, compute_residual_array1, compute_residual_scalar, extract_matrix,
    extract_vector, sum_of_squares, Array, Array1, Array2, Ix1, Ix2, LeastSquaresOutput,
    LinalgError, Scalar,
};

/// Integers, for sums that come out exactly.
#[derive(Clone, Copy, Debug, PartialEq)]
struct Z(i64);

impl Scalar for Z {
    type Real = u32;

    fn zero() -> Self {
        Z(0)
    }

    fn plus(self, rhs: Self) -> Self {
        Z(self.0 + rhs.0)
    }

    fn square(self) -> Self {
        Z(self.0 * self.0)
    }
}

fn vector(values: &[i64]) -> Array1<Z> {
    Array1::from_vec(values.iter().map(|x| Z(*x)).collect())
}

fn matrix(shape: (usize, usize), values: &[i64]) -> Array2<Z> {
    Array2::from_shape_vec(shape, values.iter().map(|x| Z(*x)).collect()).unwrap()
}

fn matrix_column_major(shape: (usize, usize), values: &[i64]) -> Array2<Z> {
    Array2::from_shape_vec_column_major(shape, values.iter().map(|x| Z(*x)).collect()).unwrap()
}

fn output(singular_values: &[u32], rank: i32) -> Result<LeastSquaresOutput<Z>, i32> {
    Ok(LeastSquaresOutput { singular_values: singular_values.to_vec(), rank })
}

#[test]
fn sum_of_squares_covers_the_given_range() {
    let b = vector(&[1, 2, 3, 4]);
    assert_eq!(sum_of_squares(&b, 0, 4), Z(30));
    assert_eq!(sum_of_squares(&b, 2, 4), Z(25));
    assert_eq!(sum_of_squares(&b, 1, 2), Z(4));
    assert_eq!(sum_of_squares(&b, 3, 3), Z(0));
}

#[test]
fn column_sum_of_squares_stays_in_its_column() {
    // 1 2
    // 3 4
    // 5 6
    let rows = matrix((3, 2), &[1, 2, 3, 4, 5, 6]);
    let columns = matrix_column_major((3, 2), &[1, 3, 5, 2, 4, 6]);
    for b in [rows, columns] {
        assert_eq!(column_sum_of_squares(&b, 0, 0, 3), Z(35));
        assert_eq!(column_sum_of_squares(&b, 1, 0, 3), Z(56));
        assert_eq!(column_sum_of_squares(&b, 0, 1, 3), Z(34));
        assert_eq!(column_sum_of_squares(&b, 1, 2, 3), Z(36));
        assert_eq!(column_sum_of_squares(&b, 1, 2, 2), Z(0));
    }
}

#[test]
fn scalar_residual_sums_squares_of_trailing_rows() {
    let b = vector(&[10, 20, 3, 4]);
    assert_eq!(compute_residual_scalar(4, 2, 2, &b), Some(Z(25)));
    assert_eq!(compute_residual_scalar(4, 3, 3, &b), Some(Z(16)));
}

#[test]
fn scalar_residual_of_a_square_system_is_zero() {
    let b = vector(&[10, 20]);
    assert_eq!(compute_residual_scalar(2, 2, 2, &b), Some(Z(0)));
}

#[test]
fn scalar_residual_is_absent_without_full_column_rank() {
    let b = vector(&[10, 20, 3, 4]);
    assert_eq!(compute_residual_scalar(4, 2, 1, &b), None);
    assert_eq!(compute_residual_scalar(4, 2, 0, &b), None);
    assert_eq!(compute_residual_scalar(4, 2, 3, &b), None);
    assert_eq!(compute_residual_scalar(4, 2, -2, &b), None);
}

#[test]
fn scalar_residual_is_absent_with_fewer_rows_than_columns() {
    let b = vector(&[10, 20, 3, 4]);
    assert_eq!(compute_residual_scalar(2, 4, 4, &b), None);
    assert_eq!(compute_residual_scalar(2, 4, 2, &b), None);
}

#[test]
fn array_residual_has_one_sum_for_each_column() {
    // 1 2 3
    // 4 5 6
    // 7 8 9
    // 1 1 2
    let rows = matrix((4, 3), &[1, 2, 3, 4, 5, 6, 7, 8, 9, 1, 1, 2]);
    let columns = matrix_column_major((4, 3), &[1, 4, 7, 1, 2, 5, 8, 1, 3, 6, 9, 2]);
    for b in [rows, columns] {
        assert_eq!(compute_residual_array1(4, 2, 2, &b), Some(vector(&[50, 65, 85])));
        assert_eq!(compute_residual_array1(4, 3, 3, &b), Some(vector(&[1, 1, 4])));
        assert_eq!(compute_residual_array1(4, 4, 4, &b), Some(vector(&[0, 0, 0])));
    }
}

#[test]
fn array_residual_of_a_column_is_its_scalar_residual() {
    let b = matrix((4, 2), &[1, 5, 2, 6, 3, 7, 4, 8]);
    let together = compute_residual_array1(4, 1, 1, &b).unwrap();
    let first = compute_residual_scalar(4, 1, 1, &vector(&[1, 2, 3, 4])).unwrap();
    let second = compute_residual_scalar(4, 1, 1, &vector(&[5, 6, 7, 8])).unwrap();
    assert_eq!(together, Array1::from_vec(vec![first, second]));
    assert_eq!(together, vector(&[29, 149]));
}

#[test]
fn array_residual_is_absent_where_the_scalar_one_is() {
    let b = matrix((4, 2), &[1, 5, 2, 6, 3, 7, 4, 8]);
    assert_eq!(compute_residual_array1(4, 2, 1, &b), None);
    assert_eq!(compute_residual_array1(4, 2, -1, &b), None);
    assert_eq!(compute_residual_array1(2, 4, 4, &b), None);
    assert_eq!(compute_residual_array1(2, 4, 2, &b), None);
}

#[test]
fn array_residual_without_columns_is_empty() {
    let b = matrix((3, 0), &[]);
    assert_eq!(compute_residual_array1(3, 1, 1, &b), Some(vector(&[])));
}

#[test]
fn extract_vector_reads_solution_and_residual_from_the_buffer() {
    let b = vector(&[7, 8, 3, 4, 12]);
    let r = extract_vector(5, 2, output(&[9, 1], 2), &b).unwrap();
    assert_eq!(r.solution, vector(&[7, 8]));
    assert_eq!(r.singular_values, Array1::from_vec(vec![9, 1]));
    assert_eq!(r.rank, 2);
    assert_eq!(r.residual_sum_of_squares, Some(Z(169)));
}

#[test]
fn extract_vector_for_fewer_rows_than_columns() {
    let b = vector(&[7, 8, 9]);
    let r = extract_vector(2, 3, output(&[9, 1], 2), &b).unwrap();
    assert_eq!(r.solution, vector(&[7, 8, 9]));
    assert_eq!(r.singular_values.len(), 2);
    assert_eq!(r.residual_sum_of_squares, None);
}

#[test]
fn extract_vector_without_full_rank_has_no_residual() {
    let b = vector(&[7, 8, 3]);
    let r = extract_vector(3, 2, output(&[9, 0], 1), &b).unwrap();
    assert_eq!(r.solution, vector(&[7, 8]));
    assert_eq!(r.rank, 1);
    assert_eq!(r.residual_sum_of_squares, None);
}

#[test]
fn extract_vector_passes_on_the_code_of_the_solver() {
    let b = vector(&[7, 8, 3]);
    assert!(matches!(
        extract_vector(3, 2, Err(5), &b),
        Err(LinalgError::Lapack { return_code: 5 })
    ));
    assert!(matches!(
        extract_vector::<Z>(3, 2, Err(-1), &vector(&[])),
        Err(LinalgError::Lapack { return_code: -1 })
    ));
}

#[test]
fn extract_vector_refuses_sizes_that_do_not_fit() {
    let b = vector(&[7, 8, 3]);
    assert!(matches!(extract_vector(3, 2, output(&[9], 2), &b), Err(LinalgError::Shape)));
    assert!(matches!(extract_vector(3, 2, output(&[9, 1, 0], 2), &b), Err(LinalgError::Shape)));
    assert!(matches!(extract_vector(4, 2, output(&[9, 1], 2), &b), Err(LinalgError::Shape)));
    assert!(matches!(extract_vector(2, 2, output(&[9, 1], 2), &b), Err(LinalgError::Shape)));
    let strided = Array { data: vec![Z(1); 5], dim: Ix1(3), strides: Ix1(2) };
    assert!(matches!(extract_vector(3, 2, output(&[9, 1], 2), &strided), Err(LinalgError::Shape)));
    let short = Array { data: vec![Z(1); 2], dim: Ix1(3), strides: Ix1(1) };
    assert!(matches!(extract_vector(3, 2, output(&[9, 1], 2), &short), Err(LinalgError::Shape)));
}

#[test]
fn extract_matrix_reads_solution_and_residuals_from_the_buffer() {
    // 1 2
    // 3 4
    // 5 6
    let rows = matrix((3, 2), &[1, 2, 3, 4, 5, 6]);
    let columns = matrix_column_major((3, 2), &[1, 3, 5, 2, 4, 6]);
    for b in [rows, columns] {
        let r = extract_matrix(3, 2, output(&[4, 2], 2), &b).unwrap();
        assert_eq!(r.solution, matrix((2, 2), &[1, 2, 3, 4]));
        assert_eq!(r.singular_values, Array1::from_vec(vec![4, 2]));
        assert_eq!(r.rank, 2);
        assert_eq!(r.residual_sum_of_squares, Some(vector(&[25, 36])));

        let r = extract_matrix(2, 3, output(&[4, 2], 2), &b).unwrap();
        assert_eq!(r.solution, matrix((3, 2), &[1, 2, 3, 4, 5, 6]));
        assert_eq!(r.residual_sum_of_squares, None);
    }
}

#[test]
fn extract_matrix_passes_on_the_code_of_the_solver() {
    let b = matrix((3, 2), &[1, 2, 3, 4, 5, 6]);
    assert!(matches!(
        extract_matrix(3, 2, Err(12), &b),
        Err(LinalgError::Lapack { return_code: 12 })
    ));
}

#[test]
fn extract_matrix_refuses_sizes_that_do_not_fit() {
    let b = matrix((3, 2), &[1, 2, 3, 4, 5, 6]);
    assert!(matches!(extract_matrix(3, 2, output(&[4], 2), &b), Err(LinalgError::Shape)));
    assert!(matches!(extract_matrix(4, 2, output(&[4, 2], 2), &b), Err(LinalgError::Shape)));
    let short = Array { data: vec![Z(1); 5], dim: Ix2(3, 2), strides: Ix2(2, 1) };
    assert!(matches!(extract_matrix(3, 2, output(&[4, 2], 2), &short), Err(LinalgError::Shape)));
    let neither = Array { data: vec![Z(1); 12], dim: Ix2(3, 2), strides: Ix2(4, 2) };
    assert!(matches!(extract_matrix(3, 2, output(&[4, 2], 2), &neither), Err(LinalgError::Shape)));
}
