//! The dot-product utility over two equal-length element sequences.

use vstd::prelude::*;

use crate::error::NormError;
use crate::sums::{dot_int, dot_prefix_ok, lemma_dot_take_step};

verus! {

/// Dot product of two equal-length element sequences, accumulated in
/// `i128`. Succeeds exactly when every partial sum stays within `i128`,
/// and then returns the exact mathematical dot product.
pub fn dot(a: &Vec<i64>, b: &Vec<i64>) -> (r: Result<i128, NormError>)
    requires
        a@.len() == b@.len(),
    ensures
        match r {
            Ok(s) => dot_prefix_ok(a@, b@) && s as int == dot_int(a@, b@),
            Err(e) => e == NormError::Overflow && !dot_prefix_ok(a@, b@),
        },
{
    let n = a.len();
    let mut acc: i128 = 0;
    let mut i: usize = 0;
    while i < n
        invariant
            n == a@.len(),
            n == b@.len(),
            i <= n,
            acc as int == dot_int(a@.take(i as int), b@.take(i as int)),
            forall|k: int|
                0 <= k <= i ==> i128::MIN <= #[trigger] dot_int(a@.take(k), b@.take(k))
                    <= i128::MAX,
        decreases n - i,
    {
        let ai: i64 = a[i];
        let bi: i64 = b[i];
        proof {
            assert(i128::MIN <= (ai as int) * (bi as int) <= i128::MAX) by (nonlinear_arith)
                requires
                    i64::MIN <= ai as int <= i64::MAX,
                    i64::MIN <= bi as int <= i64::MAX,
            ;
            lemma_dot_take_step(a@, b@, i as int);
        }
        let term: i128 = (ai as i128) * (bi as i128);
        if term >= 0 {
            if acc > i128::MAX - term {
                proof {
                    assert(!(i128::MIN <= dot_int(
                        a@.take(i + 1),
                        b@.take(i + 1),
                    ) <= i128::MAX));
                }
                return Err(NormError::Overflow);
            }
        } else {
            if acc < i128::MIN - term {
                proof {
                    assert(!(i128::MIN <= dot_int(
                        a@.take(i + 1),
                        b@.take(i + 1),
                    ) <= i128::MAX));
                }
                return Err(NormError::Overflow);
            }
        }
        acc = acc + term;
        i = i + 1;
    }
    proof {
        assert(a@.take(n as int) =~= a@);
        assert(b@.take(n as int) =~= b@);
    }
    Ok(acc)
}

} // verus!
