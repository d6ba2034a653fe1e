use norms::error::NormError;
use norms::matrix::{Matrix, MatrixSlice};
use norms::norm::{Euclidean, Magnitude, MatrixMetric, MatrixNorm, VectorMetric, VectorNorm};
use norms::vector::Vector;

fn as_f64(m: &Magnitude) -> f64 {
    let r = m.radicand as f64;
    if m.degree == 1 {
        r
    } else if m.degree == 2 {
        r.sqrt()
    } else {
        r.powf(1.0 / (m.degree as f64))
    }
}

#[test]
fn test_euclidean_vector_norm() {
    let v = Vector::new(vec![3, 4]);
    assert!((as_f64(&VectorNorm::norm(&Euclidean, &v).unwrap()) - 5.0) < 1e-30);
}

#[test]
fn test_euclidean_matrix_norm() {
    let m = Matrix::new(2, 2, vec![3, 4, 1, 3]).unwrap();
    assert!((as_f64(&MatrixNorm::norm(&Euclidean, &m).unwrap()) - 35.0_f64.sqrt()) < 1e-30);

    let slice = MatrixSlice::from_matrix(&m, [0, 0], 1, 2);
    assert!((as_f64(&MatrixNorm::norm(&Euclidean, &slice).unwrap()) - 5.0) < 1e-30);
}

#[test]
fn test_euclidean_vector_metric() {
    let v = Vector::new(vec![3, 4]);
    assert!(as_f64(&VectorMetric::metric(&Euclidean, &v, &v).unwrap()) < 1e-30);

    let v1 = Vector::new(vec![0, 0]);
    assert!((as_f64(&VectorMetric::metric(&Euclidean, &v, &v1).unwrap()) - 5.0) < 1e-30);

    let v2 = Vector::new(vec![4, 3]);
    assert!((as_f64(&VectorMetric::metric(&Euclidean, &v, &v2).unwrap()) - 2.0_f64.sqrt()) < 1e-30);
}

#[test]
fn test_euclidean_vector_metric_bad_dim() {
    let v = Vector::new(vec![3, 4]);
    let v2 = Vector::new(vec![1, 2, 3]);

    let r = VectorMetric::metric(&Euclidean, &v, &v2);
    assert!(matches!(r, Err(NormError::ShapeMismatch)));
}

#[test]
fn test_euclidean_matrix_metric() {
    let m = Matrix::new(2, 2, vec![3, 4, 1, 3]).unwrap();
    assert!(as_f64(&MatrixMetric::metric(&Euclidean, &m, &m).unwrap()) < 1e-30);

    let m1 = Matrix::zeros(2, 2);
    assert!(
        (as_f64(&MatrixMetric::metric(&Euclidean, &m, &m1).unwrap()) - 35.0_f64.sqrt()) < 1e-30
    );

    let m2 = Matrix::new(2, 2, vec![2, 3, 2, 4]).unwrap();
    assert!((as_f64(&MatrixMetric::metric(&Euclidean, &m, &m2).unwrap()) - 2.0) < 1e-30);
}

#[test]
fn test_euclidean_matrix_metric_bad_dim() {
    let m = Matrix::new(1, 2, vec![3, 4]).unwrap();
    let m2 = Matrix::new(1, 3, vec![1, 2, 3]).unwrap();

    let r = MatrixMetric::metric(&Euclidean, &m, &m2);
    assert!(matches!(r, Err(NormError::ShapeMismatch)));
}
