use norms::error::NormError;
use norms::matrix::{Matrix, MatrixSlice};
use norms::norm::{
    Euclidean, Lp, LpParam, Magnitude, MatrixMetric, MatrixNorm, VectorMetric, VectorNorm,
};
use norms::utils::dot;
use norms::vector::Vector;

#[test]
fn euclidean_vector_norm_exact() {
    let v = Vector::new(vec![3, 4]);
    let m = VectorNorm::norm(&Euclidean, &v).unwrap();
    assert_eq!(m, Magnitude { radicand: 25, degree: 2 });
}

#[test]
fn euclidean_empty_vector_is_zero() {
    let v = Vector::new(vec![]);
    let m = VectorNorm::norm(&Euclidean, &v).unwrap();
    assert_eq!(m, Magnitude { radicand: 0, degree: 2 });
}

#[test]
fn euclidean_vector_norm_overflow() {
    let v = Vector::new(vec![i64::MAX, i64::MAX, i64::MAX]);
    let r = VectorNorm::norm(&Euclidean, &v);
    assert!(matches!(r, Err(NormError::Overflow)));
}

#[test]
fn lp_infinity_takes_absolute_values() {
    let v = Vector::new(vec![3, -7, 5]);
    let m = VectorNorm::norm(&Lp(LpParam::Infinity), &v).unwrap();
    assert_eq!(m, Magnitude { radicand: 7, degree: 1 });
}

#[test]
fn lp_below_one_is_invalid() {
    let v = Vector::new(vec![1, 2, 3]);
    let r = VectorNorm::norm(&Lp(LpParam::Finite(0)), &v);
    assert!(matches!(r, Err(NormError::InvalidParameter)));
}

#[test]
fn lp_one_sums_absolute_values() {
    let v = Vector::new(vec![3, -4]);
    let m = VectorNorm::norm(&Lp(LpParam::Finite(1)), &v).unwrap();
    assert_eq!(m, Magnitude { radicand: 7, degree: 1 });
}

#[test]
fn lp_two_agrees_with_euclidean() {
    let v = Vector::new(vec![3, 4]);
    let a = VectorNorm::norm(&Lp(LpParam::Finite(2)), &v).unwrap();
    let b = VectorNorm::norm(&Euclidean, &v).unwrap();
    assert_eq!(a, b);
}

#[test]
fn lp_three_exact() {
    let v = Vector::new(vec![1, 2]);
    let m = VectorNorm::norm(&Lp(LpParam::Finite(3)), &v).unwrap();
    assert_eq!(m, Magnitude { radicand: 9, degree: 3 });
}

#[test]
fn lp_norm_overflow() {
    let v = Vector::new(vec![1 << 62]);
    let r = VectorNorm::norm(&Lp(LpParam::Finite(3)), &v);
    assert!(matches!(r, Err(NormError::Overflow)));
}

#[test]
fn lp_matrix_infinity() {
    let m = Matrix::new(2, 2, vec![3, -9, 1, 3]).unwrap();
    let r = MatrixNorm::norm(&Lp(LpParam::Infinity), &m).unwrap();
    assert_eq!(r, Magnitude { radicand: 9, degree: 1 });
}

#[test]
fn lp_matrix_one() {
    let m = Matrix::new(2, 2, vec![3, 4, 1, 3]).unwrap();
    let r = MatrixNorm::norm(&Lp(LpParam::Finite(1)), &m).unwrap();
    assert_eq!(r, Magnitude { radicand: 11, degree: 1 });
}

#[test]
fn lp_matrix_below_one_is_invalid() {
    let m = Matrix::new(2, 2, vec![3, 4, 1, 3]).unwrap();
    let r = MatrixNorm::norm(&Lp(LpParam::Finite(0)), &m);
    assert!(matches!(r, Err(NormError::InvalidParameter)));
}

#[test]
fn metric_subtraction_overflow() {
    let a = Vector::new(vec![i64::MAX]);
    let b = Vector::new(vec![-2]);
    let r = VectorMetric::metric(&Euclidean, &a, &b);
    assert!(matches!(r, Err(NormError::Overflow)));
}

#[test]
fn metric_of_vector_with_itself_is_zero() {
    let v = Vector::new(vec![5, -6]);
    let e = VectorMetric::metric(&Euclidean, &v, &v).unwrap();
    assert_eq!(e, Magnitude { radicand: 0, degree: 2 });
    let s = VectorMetric::metric(&Lp(LpParam::Infinity), &v, &v).unwrap();
    assert_eq!(s, Magnitude { radicand: 0, degree: 1 });
}

#[test]
fn metric_is_symmetric() {
    let a = Vector::new(vec![3, 4]);
    let b = Vector::new(vec![-1, 7]);
    let e1 = VectorMetric::metric(&Euclidean, &a, &b).unwrap();
    let e2 = VectorMetric::metric(&Euclidean, &b, &a).unwrap();
    assert_eq!(e1, e2);
    let l1 = VectorMetric::metric(&Lp(LpParam::Finite(3)), &a, &b).unwrap();
    let l2 = VectorMetric::metric(&Lp(LpParam::Finite(3)), &b, &a).unwrap();
    assert_eq!(l1, l2);
}

#[test]
fn matrix_metric_with_slice() {
    let m = Matrix::new(1, 2, vec![3, 4]).unwrap();
    let full = Matrix::new(2, 2, vec![4, 3, 9, 9]).unwrap();
    let slice = MatrixSlice::from_matrix(&full, [0, 0], 1, 2);
    let r = MatrixMetric::metric(&Euclidean, &m, &slice).unwrap();
    assert_eq!(r, Magnitude { radicand: 2, degree: 2 });
}

#[test]
fn matrix_metric_interior_slice() {
    let full = Matrix::new(2, 2, vec![3, 4, 1, 3]).unwrap();
    let slice = MatrixSlice::from_matrix(&full, [1, 0], 1, 2);
    let r = MatrixNorm::norm(&Euclidean, &slice).unwrap();
    assert_eq!(r, Magnitude { radicand: 10, degree: 2 });
}

#[test]
fn matrix_metric_column_mismatch() {
    let a = Matrix::new(2, 2, vec![1, 2, 3, 4]).unwrap();
    let b = Matrix::zeros(2, 3);
    let r = MatrixMetric::metric(&Euclidean, &a, &b);
    assert!(matches!(r, Err(NormError::ShapeMismatch)));
}

#[test]
fn matrix_new_rejects_wrong_element_count() {
    let r = Matrix::new(2, 2, vec![1, 2, 3]);
    assert!(matches!(r, Err(NormError::ShapeMismatch)));
}

#[test]
fn zero_matrix_has_zero_norm() {
    let m = Matrix::zeros(3, 2);
    let r = MatrixNorm::norm(&Euclidean, &m).unwrap();
    assert_eq!(r, Magnitude { radicand: 0, degree: 2 });
}

#[test]
fn dot_product_exact() {
    let a = vec![1, 2, 3];
    let b = vec![4, 5, 6];
    assert_eq!(dot(&a, &b).unwrap(), 32);
}
