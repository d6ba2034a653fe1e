//! The vector container: an ordered, fixed-length sequence of exact `i64`
//! scalars, with the elementwise subtraction the induced metric relies on.

use vstd::prelude::*;

use crate::error::NormError;

verus! {

/// An ordered sequence of exact scalar elements.
pub struct Vector {
    data: Vec<i64>,
}

impl View for Vector {
    type V = Seq<i64>;

    closed spec fn view(&self) -> Seq<i64> {
        self.data@
    }
}

/// Every elementwise difference of `a` and `b` fits in an `i64`.
pub open spec fn diff_fits(a: Seq<i64>, b: Seq<i64>) -> bool {
    forall|i: int|
        #![trigger a[i], b[i]]
        0 <= i < a.len() ==> i64::MIN <= (a[i] as int) - (b[i] as int) <= i64::MAX
}

/// The elementwise difference of two equal-length sequences.
pub open spec fn seq_diff(a: Seq<i64>, b: Seq<i64>) -> Seq<i64>
    recommends
        a.len() == b.len(),
        diff_fits(a, b),
{
    Seq::new(a.len(), |i: int| ((a[i] as int) - (b[i] as int)) as i64)
}

/// What subtracting `b` from `a` yields: the difference, or the shape
/// mismatch on unequal lengths, or an overflow report when a difference
/// leaves the `i64` range.
pub open spec fn sub_result(a: Seq<i64>, b: Seq<i64>) -> Result<Seq<i64>, NormError> {
    if a.len() != b.len() {
        Err(NormError::ShapeMismatch)
    } else if !diff_fits(a, b) {
        Err(NormError::Overflow)
    } else {
        Ok(seq_diff(a, b))
    }
}

/// Whether an executable subtraction outcome agrees with `sub_result`.
pub open spec fn sub_matches(r: Result<Vector, NormError>, s: Result<Seq<i64>, NormError>) -> bool {
    match (r, s) {
        (Ok(v), Ok(d)) => v@ == d,
        (Err(e), Err(f)) => e == f,
        _ => false,
    }
}

impl Vector {
    /// Wraps a sequence of elements as a vector.
    pub fn new(data: Vec<i64>) -> (v: Vector)
        ensures
            v@ == data@,
    {
        Vector { data }
    }

    /// Read access to the underlying element sequence.
    pub fn data(&self) -> (d: &Vec<i64>)
        ensures
            d@ == self@,
    {
        &self.data
    }

    /// The number of elements.
    pub fn len(&self) -> (n: usize)
        ensures
            n == self@.len(),
    {
        self.data.len()
    }

    /// Elementwise subtraction, exactly as `sub_result` describes it:
    /// unequal lengths are a shape mismatch, and a difference outside the
    /// `i64` range is an overflow.
    pub fn sub(&self, other: &Vector) -> (r: Result<Vector, NormError>)
        ensures
            sub_matches(r, sub_result(self@, other@)),
    {
        if self.data.len() != other.data.len() {
            return Err(NormError::ShapeMismatch);
        }
        let n = self.data.len();
        let mut out: Vec<i64> = Vec::new();
        let mut i: usize = 0;
        while i < n
            invariant
                n == self@.len(),
                n == other@.len(),
                i <= n,
                out@.len() == i,
                forall|j: int|
                    #![trigger self@[j], other@[j]]
                    0 <= j < i ==> i64::MIN <= (self@[j] as int) - (other@[j] as int) <= i64::MAX,
                forall|j: int|
                    0 <= j < i ==> (out@[j] as int) == (self@[j] as int) - (other@[j] as int),
            decreases n - i,
        {
            let d: i128 = (self.data[i] as i128) - (other.data[i] as i128);
            if d < i64::MIN as i128 || d > i64::MAX as i128 {
                assert(!diff_fits(self@, other@));
                return Err(NormError::Overflow);
            }
            out.push(d as i64);
            i = i + 1;
        }
        proof {
            assert(out@ =~= seq_diff(self@, other@));
        }
        Ok(Vector { data: out })
    }
}

} // verus!
