use concurrency::{multiply, multiply_sequential, DimensionMismatch, Matrix};

#[test]
fn test_matrix_multiply() {
    let a = Matrix::new(vec![1, 2, 3, 4, 5, 6], 2, 3);
    let b = Matrix::new(vec![1, 2, 3, 4, 5, 6], 3, 2);
    let c = multiply(&a, &b).unwrap();
    assert_eq!(c.col, 2);
    assert_eq!(c.row, 2);
    assert_eq!(c.data, vec![22, 28, 49, 64]);
    assert_eq!(c.to_debug_string(), "Matrix(row=2, col=2, {22 28, 49 64})");
}

#[test]
fn test_matrix_display() {
    let a = Matrix::new(vec![1, 2, 3, 4], 2, 2);
    let b = Matrix::new(vec![1, 2, 3, 4], 2, 2);
    let c = multiply(&a, &b).unwrap();
    assert_eq!(c.data, vec![7, 10, 15, 22]);
    assert_eq!(c.to_string(), "{7 10, 15 22}");
}

#[test]
fn test_a_can_not_multiply_b() {
    let a = Matrix::new(vec![1, 2, 3, 4, 5, 6], 2, 3);
    let b = Matrix::new(vec![1, 2, 3, 4], 2, 2);
    let c = multiply(&a, &b);
    assert!(c.is_err());
}

#[test]
fn mismatch_reports_both_extents() {
    let a = Matrix::new(vec![1, 2, 3, 4, 5, 6], 2, 3);
    let b = Matrix::new(vec![1, 2, 3, 4], 2, 2);
    let expected = DimensionMismatch { left: 3, right: 2 };
    assert_eq!(multiply(&a, &b).err(), Some(expected));
    assert_eq!(multiply_sequential(&a, &b).err(), Some(expected));
}

#[test]
fn sequential_rectangular_product() {
    let a = Matrix::new(vec![1, 2, 3, 4, 5, 6], 2, 3);
    let b = Matrix::new(vec![1, 2, 3, 4, 5, 6], 3, 2);
    let c = multiply_sequential(&a, &b).unwrap();
    assert_eq!((c.row, c.col), (2, 2));
    assert_eq!(c.data, vec![22, 28, 49, 64]);
    assert_eq!(c.to_string(), "{22 28, 49 64}");
}

#[test]
fn sequential_square_product() {
    let a = Matrix::new(vec![1, 2, 3, 4], 2, 2);
    let c = multiply_sequential(&a, &a).unwrap();
    assert_eq!(c.data, vec![7, 10, 15, 22]);
    assert_eq!(c.to_string(), "{7 10, 15 22}");
}

#[test]
fn both_variants_agree_on_larger_input() {
    let a = Matrix::new((0..12).map(|x| x * 3 - 7).collect(), 3, 4);
    let b = Matrix::new((0..20).map(|x| 11 - x * x).collect(), 4, 5);
    let s = multiply_sequential(&a, &b).unwrap();
    let p = multiply(&a, &b).unwrap();
    assert_eq!((p.row, p.col), (3, 5));
    assert_eq!(s.data, p.data);
    assert_eq!(p.data[0], -360);
}

#[test]
fn product_with_empty_inner_dimension_is_zeros() {
    let a = Matrix::new(vec![], 2, 0);
    let b = Matrix::new(vec![], 0, 3);
    let c = multiply(&a, &b).unwrap();
    assert_eq!((c.row, c.col), (2, 3));
    assert_eq!(c.data, vec![0; 6]);
}

#[test]
fn product_wraps_on_overflow() {
    let a = Matrix::new(vec![i64::MAX, 1], 1, 2);
    let b = Matrix::new(vec![2, 3], 2, 1);
    let c = multiply_sequential(&a, &b).unwrap();
    assert_eq!(c.data, vec![i64::MAX.wrapping_mul(2).wrapping_add(3)]);
    assert_eq!(multiply(&a, &b).unwrap().data, c.data);
}

#[test]
fn rendering_of_negatives_and_shapes() {
    let m = Matrix::new(vec![-1, 0, 12, i64::MIN], 2, 2);
    assert_eq!(m.to_string(), "{-1 0, 12 -9223372036854775808}");
    assert_eq!(
        m.to_debug_string(),
        "Matrix(row=2, col=2, {-1 0, 12 -9223372036854775808})"
    );
    let row = Matrix::new(vec![5, 6, 7], 1, 3);
    assert_eq!(row.to_string(), "{5 6 7}");
    let empty = Matrix::new(vec![], 0, 4);
    assert_eq!(empty.to_string(), "{}");
    assert_eq!(empty.to_debug_string(), "Matrix(row=0, col=4, {})");
}

#[test]
fn rows_and_columns_are_extracted() {
    let m = Matrix::new(vec![1, 2, 3, 4, 5, 6], 2, 3);
    assert_eq!(m.row_vector(1).as_slice(), &[4, 5, 6]);
    assert_eq!(m.col_vector(2).as_slice(), &[3, 6]);
    assert_eq!(m.col_vector(0).len(), 2);
}

#[test]
fn repeated_runs_are_identical() {
    let a = Matrix::new((0..9).collect(), 3, 3);
    let first = multiply(&a, &a).unwrap();
    for _ in 0..5 {
        assert_eq!(multiply(&a, &a).unwrap().data, first.data);
    }
}
