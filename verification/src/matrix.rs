//! The matrix containers: a capability trait for row-wise element access,
//! an owned rectangular matrix, a rectangular sub-view taken from one, and
//! the elementwise subtraction between any two of them.

use vstd::prelude::*;

use crate::error::NormError;
use crate::vector::{diff_fits, seq_diff};

verus! {

/// A rectangular arrangement of rows is one where every row has the same
/// length `cols`.
pub open spec fn rect(m: Seq<Seq<i64>>, cols: int) -> bool {
    forall|r: int| 0 <= r < m.len() ==> (#[trigger] m[r]).len() == cols
}

/// Capability of a matrix: its elements can be read row by row.
///
/// `mat` is the mathematical content, row-major; `cols_spec` the common
/// row length, meaningful whenever `wf` holds.
pub trait BaseMatrix: Sized {
    /// The rows of the matrix, each an element sequence.
    spec fn mat(&self) -> Seq<Seq<i64>>;

    /// The number of columns.
    spec fn cols_spec(&self) -> int;

    /// Well-formedness: the rows form a rectangle of `cols_spec` columns.
    spec fn wf(&self) -> bool;

    /// A well-formed matrix really is rectangular.
    proof fn wf_rect(&self)
        requires
            self.wf(),
        ensures
            self.cols_spec() >= 0,
            rect(self.mat(), self.cols_spec()),
    ;

    /// The number of rows.
    fn rows(&self) -> (r: usize)
        requires
            self.wf(),
        ensures
            r == self.mat().len(),
    ;

    /// The number of columns.
    fn cols(&self) -> (c: usize)
        requires
            self.wf(),
        ensures
            c == self.cols_spec(),
    ;

    /// Read access to one row's contiguous element sequence.
    fn row(&self, r: usize) -> (out: &Vec<i64>)
        requires
            self.wf(),
            r < self.mat().len(),
        ensures
            out@ == self.mat()[r as int],
    ;
}

/// An owned rectangular matrix of exact scalar elements.
pub struct Matrix {
    cols: usize,
    data: Vec<Vec<i64>>,
}

impl BaseMatrix for Matrix {
    closed spec fn mat(&self) -> Seq<Seq<i64>> {
        self.data@.map_values(|v: Vec<i64>| v@)
    }

    closed spec fn cols_spec(&self) -> int {
        self.cols as int
    }

    closed spec fn wf(&self) -> bool {
        forall|r: int| 0 <= r < self.data@.len() ==> (#[trigger] self.data@[r])@.len() == self.cols
    }

    proof fn wf_rect(&self) {
    }

    fn rows(&self) -> (r: usize) {
        self.data.len()
    }

    fn cols(&self) -> (c: usize) {
        self.cols
    }

    fn row(&self, r: usize) -> (out: &Vec<i64>) {
        &self.data[r]
    }
}

impl Matrix {
    /// Builds a `rows` by `cols` matrix from `data`, the elements listed
    /// row-major. Fails with a shape mismatch exactly when `data` does not
    /// hold `rows * cols` elements.
    pub fn new(rows: usize, cols: usize, data: Vec<i64>) -> (r: Result<Matrix, NormError>)
        ensures
            match r {
                Ok(m) => {
                    &&& data@.len() == rows * cols
                    &&& m.wf()
                    &&& m.mat().len() == rows
                    &&& m.cols_spec() == cols
                    &&& forall|i: int, j: int|
                        0 <= i < rows && 0 <= j < cols ==> #[trigger] m.mat()[i][j] == data@[i
                            * cols + j]
                },
                Err(e) => e == NormError::ShapeMismatch && data@.len() != rows * cols,
            },
    {
        let dlen: usize = data.len();
        if rows > 0 && cols > usize::MAX / rows {
            proof {
                crate::arith::lemma_mul_le_bound_via_div(cols as int, rows as int, usize::MAX as int);
                assert(cols * rows == rows * cols) by (nonlinear_arith);
            }
            return Err(NormError::ShapeMismatch);
        }
        proof {
            if rows > 0 {
                crate::arith::lemma_mul_le_bound_via_div(cols as int, rows as int, usize::MAX as int);
                assert(cols * rows == rows * cols) by (nonlinear_arith);
            } else {
                assert(rows * cols == 0) by (nonlinear_arith)
                    requires
                        rows == 0,
                ;
            }
        }
        let total: usize = rows * cols;
        if dlen != total {
            return Err(NormError::ShapeMismatch);
        }
        let mut out: Vec<Vec<i64>> = Vec::new();
        let mut i: usize = 0;
        while i < rows
            invariant
                data@.len() == rows * cols,
                rows * cols <= usize::MAX,
                i <= rows,
                out@.len() == i,
                forall|r: int| 0 <= r < i ==> (#[trigger] out@[r])@.len() == cols,
                forall|r: int, j: int|
                    #![trigger out@[r]@[j]]
                    0 <= r < i && 0 <= j < cols ==> out@[r]@[j] == data@[r * cols + j],
            decreases rows - i,
        {
            let mut rowv: Vec<i64> = Vec::new();
            let mut j: usize = 0;
            proof {
                assert(i * cols + cols <= rows * cols) by (nonlinear_arith)
                    requires
                        i < rows,
                ;
            }
            while j < cols
                invariant
                    data@.len() == rows * cols,
                    rows * cols <= usize::MAX,
                    i < rows,
                    i * cols + cols <= rows * cols,
                    j <= cols,
                    rowv@.len() == j,
                    forall|k: int| 0 <= k < j ==> rowv@[k] == data@[i * cols + k],
                decreases cols - j,
            {
                rowv.push(data[i * cols + j]);
                j = j + 1;
            }
            out.push(rowv);
            i = i + 1;
        }
        let m = Matrix { cols, data: out };
        proof {
            assert(m.mat().len() == rows);
            assert forall|i2: int, j2: int|
                0 <= i2 < rows && 0 <= j2 < cols implies #[trigger] m.mat()[i2][j2] == data@[i2
                * cols + j2] by {
                assert(m.mat()[i2] == out@[i2]@);
            }
        }
        Ok(m)
    }

    /// A `rows` by `cols` matrix of zeros.
    pub fn zeros(rows: usize, cols: usize) -> (m: Matrix)
        ensures
            m.wf(),
            m.mat().len() == rows,
            m.cols_spec() == cols,
            forall|i: int, j: int| 0 <= i < rows && 0 <= j < cols ==> #[trigger] m.mat()[i][j] == 0,
    {
        let mut out: Vec<Vec<i64>> = Vec::new();
        let mut i: usize = 0;
        while i < rows
            invariant
                i <= rows,
                out@.len() == i,
                forall|r: int| 0 <= r < i ==> (#[trigger] out@[r])@.len() == cols,
                forall|r: int, j: int|
                    #![trigger out@[r]@[j]]
                    0 <= r < i && 0 <= j < cols ==> out@[r]@[j] == 0,
            decreases rows - i,
        {
            let mut rowv: Vec<i64> = Vec::new();
            let mut j: usize = 0;
            while j < cols
                invariant
                    j <= cols,
                    rowv@.len() == j,
                    forall|k: int| 0 <= k < j ==> rowv@[k] == 0,
                decreases cols - j,
            {
                rowv.push(0);
                j = j + 1;
            }
            out.push(rowv);
            i = i + 1;
        }
        let m = Matrix { cols, data: out };
        proof {
            assert forall|i2: int, j2: int|
                0 <= i2 < rows && 0 <= j2 < cols implies #[trigger] m.mat()[i2][j2] == 0 by {
                assert(m.mat()[i2] == out@[i2]@);
            }
        }
        m
    }
}

/// A rectangular window copied out of a matrix.
pub struct MatrixSlice {
    cols: usize,
    data: Vec<Vec<i64>>,
}

impl BaseMatrix for MatrixSlice {
    closed spec fn mat(&self) -> Seq<Seq<i64>> {
        self.data@.map_values(|v: Vec<i64>| v@)
    }

    closed spec fn cols_spec(&self) -> int {
        self.cols as int
    }

    closed spec fn wf(&self) -> bool {
        forall|r: int| 0 <= r < self.data@.len() ==> (#[trigger] self.data@[r])@.len() == self.cols
    }

    proof fn wf_rect(&self) {
    }

    fn rows(&self) -> (r: usize) {
        self.data.len()
    }

    fn cols(&self) -> (c: usize) {
        self.cols
    }

    fn row(&self, r: usize) -> (out: &Vec<i64>) {
        &self.data[r]
    }
}

impl MatrixSlice {
    /// The `rows` by `cols` window of `m` whose upper-left corner stands at
    /// `start` (a row index and a column index).
    pub fn from_matrix(m: &Matrix, start: [usize; 2], rows: usize, cols: usize) -> (s: MatrixSlice)
        requires
            m.wf(),
            start[0] + rows <= m.mat().len(),
            start[1] + cols <= m.cols_spec(),
        ensures
            s.wf(),
            s.mat().len() == rows,
            s.cols_spec() == cols,
            forall|i: int, j: int|
                0 <= i < rows && 0 <= j < cols ==> #[trigger] s.mat()[i][j] == m.mat()[start[0]
                    + i][start[1] + j],
    {
        proof {
            m.wf_rect();
        }
        let r0: usize = start[0];
        let c0: usize = start[1];
        let m_rows: usize = m.rows();
        let m_cols: usize = m.cols();
        let mut out: Vec<Vec<i64>> = Vec::new();
        let mut i: usize = 0;
        while i < rows
            invariant
                m.wf(),
                rect(m.mat(), m.cols_spec()),
                m_rows == m.mat().len(),
                m_cols == m.cols_spec(),
                r0 + rows <= m_rows,
                c0 + cols <= m.cols_spec(),
                i <= rows,
                out@.len() == i,
                forall|r: int| 0 <= r < i ==> (#[trigger] out@[r])@.len() == cols,
                forall|r: int, j: int|
                    #![trigger out@[r]@[j]]
                    0 <= r < i && 0 <= j < cols ==> out@[r]@[j] == m.mat()[r0 + r][c0 + j],
            decreases rows - i,
        {
            let src: &Vec<i64> = m.row(r0 + i);
            let mut rowv: Vec<i64> = Vec::new();
            let mut j: usize = 0;
            while j < cols
                invariant
                    src@ == m.mat()[r0 + i],
                    src@.len() == m_cols,
                    c0 + cols <= m_cols,
                    j <= cols,
                    rowv@.len() == j,
                    forall|k: int| 0 <= k < j ==> rowv@[k] == src@[c0 + k],
                decreases cols - j,
            {
                rowv.push(src[c0 + j]);
                j = j + 1;
            }
            out.push(rowv);
            i = i + 1;
        }
        let s = MatrixSlice { cols, data: out };
        proof {
            assert forall|i2: int, j2: int|
                0 <= i2 < rows && 0 <= j2 < cols implies #[trigger] s.mat()[i2][j2] == m.mat()[r0
                + i2][c0 + j2] by {
                assert(s.mat()[i2] == out@[i2]@);
            }
        }
        s
    }
}

/// Every row difference of `a` and `b` fits in `i64` elements.
pub open spec fn mat_diff_fits(a: Seq<Seq<i64>>, b: Seq<Seq<i64>>) -> bool {
    forall|r: int| #![trigger a[r], b[r]] 0 <= r < a.len() ==> diff_fits(a[r], b[r])
}

/// The rowwise elementwise difference of two same-shape matrices.
pub open spec fn mat_diff(a: Seq<Seq<i64>>, b: Seq<Seq<i64>>) -> Seq<Seq<i64>> {
    Seq::new(a.len(), |r: int| seq_diff(a[r], b[r]))
}

/// What subtracting matrix `b` from matrix `a` yields, given their column
/// counts: the difference, or a shape mismatch when the dimensions differ,
/// or an overflow report when an element difference leaves `i64`.
pub open spec fn mat_sub_result(a: Seq<Seq<i64>>, ca: int, b: Seq<Seq<i64>>, cb: int) -> Result<
    Seq<Seq<i64>>,
    NormError,
> {
    if a.len() != b.len() || ca != cb {
        Err(NormError::ShapeMismatch)
    } else if !mat_diff_fits(a, b) {
        Err(NormError::Overflow)
    } else {
        Ok(mat_diff(a, b))
    }
}

/// Whether an executable matrix subtraction outcome agrees with
/// `mat_sub_result`.
pub open spec fn mat_sub_matches(
    r: Result<Matrix, NormError>,
    s: Result<Seq<Seq<i64>>, NormError>,
    cols: int,
) -> bool {
    match (r, s) {
        (Ok(m), Ok(d)) => m.mat() == d && m.wf() && m.cols_spec() == cols,
        (Err(e), Err(f)) => e == f,
        _ => false,
    }
}

/// Elementwise subtraction between any two same-shape matrices, exactly as
/// `mat_sub_result` describes it. The result is an owned `Matrix`.
pub fn matrix_sub<M1: BaseMatrix, M2: BaseMatrix>(m1: &M1, m2: &M2) -> (r: Result<
    Matrix,
    NormError,
>)
    requires
        m1.wf(),
        m2.wf(),
    ensures
        mat_sub_matches(
            r,
            mat_sub_result(m1.mat(), m1.cols_spec(), m2.mat(), m2.cols_spec()),
            m1.cols_spec(),
        ),
{
    proof {
        m1.wf_rect();
        m2.wf_rect();
    }
    let rows = m1.rows();
    if rows != m2.rows() || m1.cols() != m2.cols() {
        return Err(NormError::ShapeMismatch);
    }
    let cols = m1.cols();
    let mut out: Vec<Vec<i64>> = Vec::new();
    let mut i: usize = 0;
    while i < rows
        invariant
            m1.wf(),
            m2.wf(),
            rect(m1.mat(), m1.cols_spec()),
            rect(m2.mat(), m2.cols_spec()),
            rows == m1.mat().len(),
            rows == m2.mat().len(),
            cols == m1.cols_spec(),
            cols == m2.cols_spec(),
            i <= rows,
            out@.len() == i,
            forall|r: int|
                #![trigger m1.mat()[r], m2.mat()[r]]
                0 <= r < i ==> diff_fits(m1.mat()[r], m2.mat()[r]),
            forall|r: int|
                #![trigger out@[r]]
                0 <= r < i ==> out@[r]@ == seq_diff(m1.mat()[r], m2.mat()[r]),
        decreases rows - i,
    {
        let a: &Vec<i64> = m1.row(i);
        let b: &Vec<i64> = m2.row(i);
        let mut rowv: Vec<i64> = Vec::new();
        let mut j: usize = 0;
        while j < cols
            invariant
                rows == m1.mat().len(),
                rows == m2.mat().len(),
                cols == m1.cols_spec(),
                cols == m2.cols_spec(),
                i < rows,
                a@ == m1.mat()[i as int],
                b@ == m2.mat()[i as int],
                a@.len() == cols,
                b@.len() == cols,
                j <= cols,
                rowv@.len() == j,
                forall|k: int|
                    #![trigger a@[k], b@[k]]
                    0 <= k < j ==> i64::MIN <= (a@[k] as int) - (b@[k] as int) <= i64::MAX,
                forall|k: int|
                    #![trigger rowv@[k]]
                    0 <= k < j ==> (rowv@[k] as int) == (a@[k] as int) - (b@[k] as int),
            decreases cols - j,
        {
            let d: i128 = (a[j] as i128) - (b[j] as i128);
            if d < i64::MIN as i128 || d > i64::MAX as i128 {
                proof {
                    let ii: int = i as int;
                    let jj: int = j as int;
                    assert(m1.mat()[ii][jj] == a@[jj]);
                    assert(m2.mat()[ii][jj] == b@[jj]);
                    assert(!mat_diff_fits(m1.mat(), m2.mat())) by {
                        if mat_diff_fits(m1.mat(), m2.mat()) {
                            assert(diff_fits(m1.mat()[ii], m2.mat()[ii]));
                            assert(i64::MIN <= (m1.mat()[ii][jj] as int) - (m2.mat()[ii][jj] as int)
                                <= i64::MAX);
                        }
                    }
                }
                return Err(NormError::Overflow);
            }
            rowv.push(d as i64);
            j = j + 1;
        }
        proof {
            let ii: int = i as int;
            assert forall|k: int|
                0 <= k < m1.mat()[ii].len() implies i64::MIN <= (#[trigger] m1.mat()[ii][k] as int)
                - (m2.mat()[ii][k] as int) <= i64::MAX by {
                assert(m1.mat()[ii][k] == a@[k]);
                assert(m2.mat()[ii][k] == b@[k]);
            }
            assert(diff_fits(m1.mat()[ii], m2.mat()[ii]));
            assert(rowv@ =~= seq_diff(m1.mat()[ii], m2.mat()[ii]));
        }
        out.push(rowv);
        i = i + 1;
    }
    let m = Matrix { cols, data: out };
    proof {
        assert(mat_diff_fits(m1.mat(), m2.mat()));
        assert forall|r: int| 0 <= r < rows implies #[trigger] m.mat()[r] == mat_diff(
            m1.mat(),
            m2.mat(),
        )[r] by {
            assert(m.mat()[r] == out@[r]@);
        }
        assert(m.mat() =~= mat_diff(m1.mat(), m2.mat()));
        assert forall|r: int| 0 <= r < m.data@.len() implies (#[trigger] m.data@[r])@.len()
            == m.cols by {
            assert(m.data@[r]@ == seq_diff(m1.mat()[r], m2.mat()[r]));
        }
    }
    Ok(m)
}

} // verus!
