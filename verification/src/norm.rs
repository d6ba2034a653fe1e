//! The norm and metric capabilities, the two concrete norm families
//! (Euclidean and Lp), and the metric that any norm induces.
//!
//! A norm reports its result as an exact `Magnitude`: the sum it computed,
//! together with the degree of the root still to be taken. The induced
//! metric is defined once, generically, for every norm: the distance
//! between `a` and `b` is the norm of `a - b`.

use vstd::prelude::*;

use crate::arith::{abs_int, abs_u64, pow_checked};
use crate::error::NormError;
use crate::matrix::{mat_diff_fits, mat_sub_result, matrix_sub, rect, BaseMatrix, Matrix};
use crate::sums::{
    frob_sum, lemma_dot_self_is_sum_sq, lemma_dot_self_prefix_ok, lemma_frob_take_le,
    lemma_frob_take_step, lemma_mat_abs_pow_take_le, lemma_mat_abs_pow_take_step,
    lemma_mat_max_abs_bounds, lemma_mat_max_abs_take_step, lemma_max_abs_bounds,
    lemma_frob_negated, lemma_mat_abs_pow_negated, lemma_mat_max_abs_negated,
    lemma_max_abs_negated, lemma_max_abs_take_step, lemma_sum_abs_pow_negated,
    lemma_sum_abs_pow_take_le, lemma_sum_abs_pow_take_step, lemma_sum_sq_negated,
    lemma_sum_sq_nonneg, mat_abs_pow_sum, mat_max_abs, max_abs, rows_negated, sum_abs_pow,
    sum_sq,
};
use crate::utils::dot;
use crate::vector::{diff_fits, seq_diff, sub_result, Vector};

verus! {

/// An exact norm value: the `degree`-th root of `radicand`.
///
/// Every norm here is the root of an exact nonnegative integer sum, so the
/// pair pins the value down exactly; taking the root in floating point is
/// left to the caller.
#[derive(Clone, Copy, Debug, PartialEq, Eq, Structural)]
pub struct Magnitude {
    /// The exact sum the norm computed.
    pub radicand: u128,
    /// The degree of the root still to be taken; always at least one.
    pub degree: u32,
}

/// Whether an executable norm outcome agrees with a spec-level outcome,
/// the latter an exact radicand-and-degree pair or an error.
pub open spec fn mag_matches(
    r: Result<Magnitude, NormError>,
    s: Result<(int, int), NormError>,
) -> bool {
    match (r, s) {
        (Ok(m), Ok(v)) => m.radicand as int == v.0 && m.degree as int == v.1,
        (Err(e), Err(f)) => e == f,
        _ => false,
    }
}

/// Capability of computing a scalar norm of a vector.
///
/// `vnorm` is the implementor's exact mathematical description of its
/// result; `norm` computes it.
pub trait VectorNorm: Sized {
    /// What the norm returns on the element sequence `v`.
    spec fn vnorm(&self, v: Seq<i64>) -> Result<(int, int), NormError>;

    /// Computes the vector norm.
    fn norm(&self, v: &Vector) -> (r: Result<Magnitude, NormError>)
        ensures
            mag_matches(r, self.vnorm(v@)),
    ;
}

/// Capability of computing the metric distance between two vectors.
pub trait VectorMetric: Sized {
    /// What the metric returns on the element sequences `a` and `b`.
    spec fn vmetric(&self, a: Seq<i64>, b: Seq<i64>) -> Result<(int, int), NormError>;

    /// Computes the metric distance between two vectors.
    fn metric(&self, v1: &Vector, v2: &Vector) -> (r: Result<Magnitude, NormError>)
        ensures
            mag_matches(r, self.vmetric(v1@, v2@)),
    ;
}

/// Capability of computing a scalar norm of a matrix.
pub trait MatrixNorm<M: BaseMatrix>: Sized {
    /// What the norm returns on the rows `m`.
    spec fn mnorm(&self, m: Seq<Seq<i64>>) -> Result<(int, int), NormError>;

    /// Computes the matrix norm.
    fn norm(&self, m: &M) -> (r: Result<Magnitude, NormError>)
        requires
            m.wf(),
        ensures
            mag_matches(r, self.mnorm(m.mat())),
    ;
}

/// Capability of computing the metric distance between two matrices,
/// possibly of different representations.
pub trait MatrixMetric<M1: BaseMatrix, M2: BaseMatrix>: Sized {
    /// What the metric returns on rows `a` (of `ca` columns) and rows `b`
    /// (of `cb` columns).
    spec fn mmetric(&self, a: Seq<Seq<i64>>, ca: int, b: Seq<Seq<i64>>, cb: int) -> Result<
        (int, int),
        NormError,
    >;

    /// Computes the metric distance between two matrices.
    fn metric(&self, m1: &M1, m2: &M2) -> (r: Result<Magnitude, NormError>)
        requires
            m1.wf(),
            m2.wf(),
        ensures
            mag_matches(r, self.mmetric(m1.mat(), m1.cols_spec(), m2.mat(), m2.cols_spec())),
    ;
}

/// The induced vector metric.
///
/// Given a norm `N`, the induced metric computes the distance between `v1`
/// and `v2` as `N(v1 - v2)`. It is derived here once for every vector
/// norm; the metric layer adds no validation of its own, and propagates
/// whatever error the subtraction raises.
impl<U: VectorNorm> VectorMetric for U {
    open spec fn vmetric(&self, a: Seq<i64>, b: Seq<i64>) -> Result<(int, int), NormError> {
        match sub_result(a, b) {
            Ok(d) => self.vnorm(d),
            Err(e) => Err(e),
        }
    }

    fn metric(&self, v1: &Vector, v2: &Vector) -> (r: Result<Magnitude, NormError>) {
        match v1.sub(v2) {
            Ok(d) => self.norm(&d),
            Err(e) => Err(e),
        }
    }
}

/// The induced matrix metric.
///
/// Given a norm `N`, the induced metric computes the distance between `m1`
/// and `m2` as `N(m1 - m2)`, for any two matrix representations whose
/// subtraction is defined. It is derived here once for every matrix norm;
/// errors of the subtraction are propagated unchanged.
impl<U: MatrixNorm<Matrix>, M1: BaseMatrix, M2: BaseMatrix> MatrixMetric<M1, M2> for U {
    open spec fn mmetric(&self, a: Seq<Seq<i64>>, ca: int, b: Seq<Seq<i64>>, cb: int) -> Result<
        (int, int),
        NormError,
    > {
        match mat_sub_result(a, ca, b, cb) {
            Ok(d) => self.mnorm(d),
            Err(e) => Err(e),
        }
    }

    fn metric(&self, m1: &M1, m2: &M2) -> (r: Result<Magnitude, NormError>) {
        match matrix_sub(m1, m2) {
            Ok(d) => self.norm(&d),
            Err(e) => Err(e),
        }
    }
}

/// The Euclidean norm: the square root of the sum of squares.
#[derive(Clone, Copy, Debug, PartialEq, Eq, Structural)]
pub struct Euclidean;

impl VectorNorm for Euclidean {
    /// The square root of the exact sum of squares: radicand `sum_sq(v)`,
    /// degree two. Overflow exactly when that sum leaves `i128`.
    open spec fn vnorm(&self, v: Seq<i64>) -> Result<(int, int), NormError> {
        if sum_sq(v) <= i128::MAX {
            Ok((sum_sq(v), 2))
        } else {
            Err(NormError::Overflow)
        }
    }

    fn norm(&self, v: &Vector) -> (r: Result<Magnitude, NormError>) {
        proof {
            lemma_dot_self_prefix_ok(v@);
            lemma_dot_self_is_sum_sq(v@);
            lemma_sum_sq_nonneg(v@);
        }
        match dot(v.data(), v.data()) {
            Ok(s) => Ok(Magnitude { radicand: s as u128, degree: 2 }),
            Err(_) => Err(NormError::Overflow),
        }
    }
}

impl<M: BaseMatrix> MatrixNorm<M> for Euclidean {
    /// The square root of the exact sum of squares of all elements,
    /// accumulated row by row: radicand `frob_sum(m)`, degree two.
    open spec fn mnorm(&self, m: Seq<Seq<i64>>) -> Result<(int, int), NormError> {
        if frob_sum(m) <= i128::MAX {
            Ok((frob_sum(m), 2))
        } else {
            Err(NormError::Overflow)
        }
    }

    fn norm(&self, m: &M) -> (r: Result<Magnitude, NormError>) {
        let rows = m.rows();
        let mut acc: i128 = 0;
        let mut i: usize = 0;
        while i < rows
            invariant
                m.wf(),
                rows == m.mat().len(),
                i <= rows,
                0 <= acc,
                acc as int == frob_sum(m.mat().take(i as int)),
            decreases rows - i,
        {
            let rowv: &Vec<i64> = m.row(i);
            proof {
                lemma_dot_self_prefix_ok(rowv@);
                lemma_dot_self_is_sum_sq(rowv@);
                lemma_sum_sq_nonneg(rowv@);
                lemma_frob_take_step(m.mat(), i as int);
            }
            match dot(rowv, rowv) {
                Ok(s) => {
                    if s > i128::MAX - acc {
                        proof {
                            lemma_frob_take_le(m.mat(), i as int + 1);
                        }
                        return Err(NormError::Overflow);
                    }
                    acc = acc + s;
                }
                Err(_) => {
                    proof {
                        lemma_frob_take_le(m.mat(), i as int + 1);
                    }
                    return Err(NormError::Overflow);
                }
            }
            i = i + 1;
        }
        proof {
            assert(m.mat().take(rows as int) =~= m.mat());
        }
        Ok(Magnitude { radicand: acc as u128, degree: 2 })
    }
}

/// The exponent of an `Lp` norm: a finite integer exponent, or positive
/// infinity. The tag is explicit so that the supremum case and the
/// below-one precondition are decided by structure, not by comparisons
/// against sentinel values.
#[derive(Clone, Copy, Debug, PartialEq, Eq, Structural)]
pub enum LpParam {
    /// A finite exponent `p`; the norm requires `p >= 1`.
    Finite(u32),
    /// Positive infinity: the norm is the supremum of absolute values.
    Infinity,
}

/// The Lp norm: the `p`-th root of the sum of `p`-th powers of absolute
/// element values.
///
/// The parameter may be constructed freely, but any use with an exponent
/// below one is rejected as an invalid parameter. When the exponent is
/// infinity, the norm is the supremum of the absolute element values.
#[derive(Clone, Copy, Debug, PartialEq, Eq, Structural)]
pub struct Lp(pub LpParam);

/// Sum of the `p`-th powers of the absolute element values, or `None`
/// exactly when the exact sum exceeds `u128::MAX`.
fn sum_abs_pow_vec(v: &Vec<i64>, p: u32) -> (r: Option<u128>)
    ensures
        match r {
            Some(s) => s as int == sum_abs_pow(v@, p as nat) && sum_abs_pow(v@, p as nat)
                <= u128::MAX,
            None => sum_abs_pow(v@, p as nat) > u128::MAX,
        },
{
    let n = v.len();
    let mut acc: u128 = 0;
    let mut i: usize = 0;
    while i < n
        invariant
            n == v@.len(),
            i <= n,
            acc as int == sum_abs_pow(v@.take(i as int), p as nat),
        decreases n - i,
    {
        proof {
            lemma_sum_abs_pow_take_step(v@, p as nat, i as int);
        }
        let a: u64 = abs_u64(v[i]);
        match pow_checked(a, p) {
            Some(t) => {
                if t > u128::MAX - acc {
                    proof {
                        lemma_sum_abs_pow_take_le(v@, p as nat, i as int + 1);
                    }
                    return None;
                }
                acc = acc + t;
            },
            None => {
                proof {
                    lemma_sum_abs_pow_take_le(v@, p as nat, i as int + 1);
                }
                return None;
            },
        }
        i = i + 1;
    }
    proof {
        assert(v@.take(n as int) =~= v@);
    }
    Some(acc)
}

/// Supremum of the absolute element values. The comparison and the stored
/// running maximum both use the absolute value.
fn max_abs_vec(v: &Vec<i64>) -> (r: u64)
    ensures
        r as int == max_abs(v@),
{
    let n = v.len();
    let mut sup: u64 = 0;
    let mut i: usize = 0;
    while i < n
        invariant
            n == v@.len(),
            i <= n,
            sup as int == max_abs(v@.take(i as int)),
        decreases n - i,
    {
        proof {
            lemma_max_abs_take_step(v@, i as int);
        }
        let a: u64 = abs_u64(v[i]);
        if a > sup {
            sup = a;
        }
        i = i + 1;
    }
    proof {
        assert(v@.take(n as int) =~= v@);
    }
    sup
}

impl VectorNorm for Lp {
    /// For a finite exponent `p >= 1`: radicand `sum_abs_pow(v, p)`,
    /// degree `p`, with overflow exactly when the sum leaves `u128`; an
    /// exponent below one is an invalid parameter for every vector. For
    /// infinity: the supremum of absolute values, a degree-one radicand.
    open spec fn vnorm(&self, v: Seq<i64>) -> Result<(int, int), NormError> {
        match self.0 {
            LpParam::Finite(p) => if p < 1 {
                Err(NormError::InvalidParameter)
            } else if sum_abs_pow(v, p as nat) <= u128::MAX {
                Ok((sum_abs_pow(v, p as nat), p as int))
            } else {
                Err(NormError::Overflow)
            },
            LpParam::Infinity => Ok((max_abs(v), 1)),
        }
    }

    fn norm(&self, v: &Vector) -> (r: Result<Magnitude, NormError>) {
        match self.0 {
            LpParam::Finite(p) => {
                if p < 1 {
                    Err(NormError::InvalidParameter)
                } else {
                    match sum_abs_pow_vec(v.data(), p) {
                        Some(s) => Ok(Magnitude { radicand: s, degree: p }),
                        None => Err(NormError::Overflow),
                    }
                }
            },
            LpParam::Infinity => {
                proof {
                    lemma_max_abs_bounds(v@);
                }
                let sup = max_abs_vec(v.data());
                Ok(Magnitude { radicand: sup as u128, degree: 1 })
            },
        }
    }
}

impl<M: BaseMatrix> MatrixNorm<M> for Lp {
    /// The same as the vector case, over all elements of the matrix,
    /// accumulated row by row: radicand `mat_abs_pow_sum(m, p)` of degree
    /// `p` for finite `p >= 1`, the supremum `mat_max_abs(m)` for
    /// infinity, an invalid parameter for `p` below one.
    open spec fn mnorm(&self, m: Seq<Seq<i64>>) -> Result<(int, int), NormError> {
        match self.0 {
            LpParam::Finite(p) => if p < 1 {
                Err(NormError::InvalidParameter)
            } else if mat_abs_pow_sum(m, p as nat) <= u128::MAX {
                Ok((mat_abs_pow_sum(m, p as nat), p as int))
            } else {
                Err(NormError::Overflow)
            },
            LpParam::Infinity => Ok((mat_max_abs(m), 1)),
        }
    }

    fn norm(&self, m: &M) -> (r: Result<Magnitude, NormError>) {
        let rows = m.rows();
        match self.0 {
            LpParam::Finite(p) => {
                if p < 1 {
                    return Err(NormError::InvalidParameter);
                }
                let mut acc: u128 = 0;
                let mut i: usize = 0;
                while i < rows
                    invariant
                        self.0 == LpParam::Finite(p),
                        1 <= p,
                        m.wf(),
                        rows == m.mat().len(),
                        i <= rows,
                        acc as int == mat_abs_pow_sum(m.mat().take(i as int), p as nat),
                    decreases rows - i,
                {
                    let rowv: &Vec<i64> = m.row(i);
                    proof {
                        lemma_mat_abs_pow_take_step(m.mat(), p as nat, i as int);
                    }
                    match sum_abs_pow_vec(rowv, p) {
                        Some(t) => {
                            if t > u128::MAX - acc {
                                proof {
                                    lemma_mat_abs_pow_take_le(m.mat(), p as nat, i as int + 1);
                                }
                                return Err(NormError::Overflow);
                            }
                            acc = acc + t;
                        },
                        None => {
                            proof {
                                lemma_mat_abs_pow_take_le(m.mat(), p as nat, i as int + 1);
                            }
                            return Err(NormError::Overflow);
                        },
                    }
                    i = i + 1;
                }
                proof {
                    assert(m.mat().take(rows as int) =~= m.mat());
                }
                Ok(Magnitude { radicand: acc, degree: p })
            },
            LpParam::Infinity => {
                let mut sup: u64 = 0;
                let mut i: usize = 0;
                while i < rows
                    invariant
                        m.wf(),
                        rows == m.mat().len(),
                        i <= rows,
                        sup as int == mat_max_abs(m.mat().take(i as int)),
                    decreases rows - i,
                {
                    let rowv: &Vec<i64> = m.row(i);
                    proof {
                        lemma_mat_max_abs_take_step(m.mat(), i as int);
                    }
                    let a: u64 = max_abs_vec(rowv);
                    if a > sup {
                        sup = a;
                    }
                    i = i + 1;
                }
                proof {
                    assert(m.mat().take(rows as int) =~= m.mat());
                    lemma_mat_max_abs_bounds(m.mat());
                }
                Ok(Magnitude { radicand: sup as u128, degree: 1 })
            },
        }
    }
}

/// Law: the induced metric of any vector norm vanishes on identical
/// operands, for any norm that maps the zero vector to zero.
///
/// If `n` sends the all-zero sequence of `v`'s length to the exact value
/// zero (under any degree `d`), then the distance from `v` to itself is
/// that same zero value.
pub proof fn lemma_metric_self_is_zero<U: VectorNorm>(n: &U, v: Seq<i64>, d: int)
    requires
        n.vnorm(Seq::new(v.len(), |i: int| 0i64)) == Ok::<(int, int), NormError>((0, d)),
    ensures
        n.vmetric(v, v) == Ok::<(int, int), NormError>((0, d)),
{
    let z = Seq::new(v.len(), |i: int| 0i64);
    assert(diff_fits(v, v));
    assert(seq_diff(v, v) =~= z);
}

/// Under the exclusion of differences of the one magnitude whose negation
/// leaves `i64`, subtraction in the two orders errs the same way, and on
/// success yields pointwise negated differences.
proof fn lemma_sub_symmetry(a: Seq<i64>, b: Seq<i64>)
    requires
        forall|i: int|
            #![trigger a[i], b[i]]
            0 <= i < a.len() && i < b.len() ==> abs_int((a[i] as int) - (b[i] as int))
                != 0x8000_0000_0000_0000,
    ensures
        match (sub_result(a, b), sub_result(b, a)) {
            (Ok(d1), Ok(d2)) => d1.len() == d2.len() && forall|i: int|
                #![trigger d1[i], d2[i]]
                0 <= i < d1.len() ==> (d2[i] as int) == -(d1[i] as int),
            (Err(e1), Err(e2)) => e1 == e2,
            _ => false,
        },
{
    if a.len() == b.len() {
        if diff_fits(a, b) {
            assert forall|i: int|
                0 <= i < b.len() implies i64::MIN <= (#[trigger] b[i] as int) - (#[trigger] a[i]
                as int) <= i64::MAX by {
                assert(i64::MIN <= (a[i] as int) - (b[i] as int) <= i64::MAX);
                assert(abs_int((a[i] as int) - (b[i] as int)) != 0x8000_0000_0000_0000);
            }
            assert(diff_fits(b, a));
            let d1 = seq_diff(a, b);
            let d2 = seq_diff(b, a);
            assert forall|i: int| 0 <= i < d1.len() implies (#[trigger] d2[i] as int) == -(
            #[trigger] d1[i] as int) by {
                assert(i64::MIN <= (a[i] as int) - (b[i] as int) <= i64::MAX);
                assert(i64::MIN <= (b[i] as int) - (a[i] as int) <= i64::MAX);
            }
        } else {
            assert(!diff_fits(b, a)) by {
                if diff_fits(b, a) {
                    assert forall|i: int|
                        0 <= i < a.len() implies i64::MIN <= (#[trigger] a[i] as int) - (
                    #[trigger] b[i] as int) <= i64::MAX by {
                        assert(i64::MIN <= (b[i] as int) - (a[i] as int) <= i64::MAX);
                        assert(abs_int((a[i] as int) - (b[i] as int)) != 0x8000_0000_0000_0000);
                    }
                    assert(diff_fits(a, b));
                }
            }
        }
    }
}

/// Law: the induced Euclidean metric is symmetric.
///
/// The square of a difference does not depend on its sign, so
/// `metric(Euclidean, a, b) == metric(Euclidean, b, a)`; the only inputs
/// left out are those where one subtraction order overflows `i64` and the
/// other does not (a difference of magnitude `2^63` exactly).
pub proof fn lemma_euclidean_metric_symmetric(a: Seq<i64>, b: Seq<i64>)
    requires
        forall|i: int|
            #![trigger a[i], b[i]]
            0 <= i < a.len() && i < b.len() ==> abs_int((a[i] as int) - (b[i] as int))
                != 0x8000_0000_0000_0000,
    ensures
        Euclidean.vmetric(a, b) == Euclidean.vmetric(b, a),
{
    lemma_sub_symmetry(a, b);
    match (sub_result(a, b), sub_result(b, a)) {
        (Ok(d1), Ok(d2)) => {
            lemma_sum_sq_negated(d1, d2);
        },
        _ => {},
    }
}

/// Law: the induced Lp metric is symmetric, for every exponent.
///
/// Absolute values of differences do not depend on their sign, so
/// `metric(Lp(p), a, b) == metric(Lp(p), b, a)` for finite exponents at
/// least one; for an exponent below one both orders report the invalid
/// parameter, and for infinity both take the same supremum. As for the
/// Euclidean law, differences of magnitude exactly `2^63` are left out.
pub proof fn lemma_lp_metric_symmetric(p: LpParam, a: Seq<i64>, b: Seq<i64>)
    requires
        forall|i: int|
            #![trigger a[i], b[i]]
            0 <= i < a.len() && i < b.len() ==> abs_int((a[i] as int) - (b[i] as int))
                != 0x8000_0000_0000_0000,
    ensures
        Lp(p).vmetric(a, b) == Lp(p).vmetric(b, a),
{
    lemma_sub_symmetry(a, b);
    match (sub_result(a, b), sub_result(b, a)) {
        (Ok(d1), Ok(d2)) => {
            match p {
                LpParam::Finite(q) => {
                    lemma_sum_abs_pow_negated(d1, d2, q as nat);
                },
                LpParam::Infinity => {
                    lemma_max_abs_negated(d1, d2);
                },
            }
        },
        _ => {},
    }
}

/// The matrix form of the subtraction symmetry: under the same exclusion,
/// elementwise over all rows, subtraction in the two orders errs the same
/// way, and on success yields rowwise negated differences.
proof fn lemma_mat_sub_symmetry(a: Seq<Seq<i64>>, ca: int, b: Seq<Seq<i64>>, cb: int)
    requires
        rect(a, ca),
        rect(b, cb),
        forall|r: int|
            #![trigger a[r], b[r]]
            0 <= r < a.len() && r < b.len() ==> (forall|i: int|
                #![trigger a[r][i], b[r][i]]
                0 <= i < a[r].len() && i < b[r].len() ==> abs_int(
                    (a[r][i] as int) - (b[r][i] as int),
                ) != 0x8000_0000_0000_0000),
    ensures
        match (mat_sub_result(a, ca, b, cb), mat_sub_result(b, cb, a, ca)) {
            (Ok(d1), Ok(d2)) => rows_negated(d1, d2),
            (Err(e1), Err(e2)) => e1 == e2,
            _ => false,
        },
{
    if a.len() == b.len() && ca == cb {
        assert forall|r: int| 0 <= r < a.len() implies a[r].len() == b[r].len() && (diff_fits(
            #[trigger] a[r],
            b[r],
        )
            <==> diff_fits(#[trigger] b[r], a[r])) && (diff_fits(a[r], b[r])
            ==> seq_diff(b[r], a[r]).len() == seq_diff(a[r], b[r]).len() && (forall|i: int|
            #![trigger seq_diff(a[r], b[r])[i], seq_diff(b[r], a[r])[i]]
            0 <= i < seq_diff(a[r], b[r]).len() ==> (seq_diff(b[r], a[r])[i] as int) == -(seq_diff(
            a[r],
            b[r],
        )[i] as int))) by {
            assert(a[r].len() == ca);
            assert(b[r].len() == cb);
            lemma_sub_symmetry(a[r], b[r]);
        }
        if mat_diff_fits(a, b) {
            assert(mat_diff_fits(b, a));
        } else {
            assert(!mat_diff_fits(b, a)) by {
                if mat_diff_fits(b, a) {
                    assert forall|r: int| 0 <= r < a.len() implies diff_fits(
                        #[trigger] a[r],
                        b[r],
                    ) by {
                        assert(diff_fits(b[r], a[r]));
                    }
                }
            }
        }
    }
}

/// Law: the induced Euclidean matrix metric is symmetric, under the same
/// exclusion of differences of magnitude exactly `2^63` as the vector law.
pub proof fn lemma_euclidean_matrix_metric_symmetric<M1: BaseMatrix, M2: BaseMatrix>(
    a: Seq<Seq<i64>>,
    ca: int,
    b: Seq<Seq<i64>>,
    cb: int,
)
    requires
        rect(a, ca),
        rect(b, cb),
        forall|r: int|
            #![trigger a[r], b[r]]
            0 <= r < a.len() && r < b.len() ==> (forall|i: int|
                #![trigger a[r][i], b[r][i]]
                0 <= i < a[r].len() && i < b[r].len() ==> abs_int(
                    (a[r][i] as int) - (b[r][i] as int),
                ) != 0x8000_0000_0000_0000),
    ensures
        <Euclidean as MatrixMetric<M1, M2>>::mmetric(&Euclidean, a, ca, b, cb) == <Euclidean as
            MatrixMetric<M2, M1>>::mmetric(&Euclidean, b, cb, a, ca),
{
    lemma_mat_sub_symmetry(a, ca, b, cb);
    match (mat_sub_result(a, ca, b, cb), mat_sub_result(b, cb, a, ca)) {
        (Ok(d1), Ok(d2)) => {
            lemma_frob_negated(d1, d2);
        },
        _ => {},
    }
}

/// Law: the induced Lp matrix metric is symmetric, for every exponent,
/// under the same exclusion as the vector law.
pub proof fn lemma_lp_matrix_metric_symmetric<M1: BaseMatrix, M2: BaseMatrix>(
    p: LpParam,
    a: Seq<Seq<i64>>,
    ca: int,
    b: Seq<Seq<i64>>,
    cb: int,
)
    requires
        rect(a, ca),
        rect(b, cb),
        forall|r: int|
            #![trigger a[r], b[r]]
            0 <= r < a.len() && r < b.len() ==> (forall|i: int|
                #![trigger a[r][i], b[r][i]]
                0 <= i < a[r].len() && i < b[r].len() ==> abs_int(
                    (a[r][i] as int) - (b[r][i] as int),
                ) != 0x8000_0000_0000_0000),
    ensures
        <Lp as MatrixMetric<M1, M2>>::mmetric(&Lp(p), a, ca, b, cb) == <Lp as MatrixMetric<
            M2,
            M1,
        >>::mmetric(&Lp(p), b, cb, a, ca),
{
    lemma_mat_sub_symmetry(a, ca, b, cb);
    match (mat_sub_result(a, ca, b, cb), mat_sub_result(b, cb, a, ca)) {
        (Ok(d1), Ok(d2)) => {
            match p {
                LpParam::Finite(q) => {
                    lemma_mat_abs_pow_negated(d1, d2, q as nat);
                },
                LpParam::Infinity => {
                    lemma_mat_max_abs_negated(d1, d2);
                },
            }
        },
        _ => {},
    }
}

} // verus!
