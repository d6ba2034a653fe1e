//! Exact sums and suprema over element sequences, and over the rows of a
//! matrix, together with the lemmas the norm loops rely on.

use vstd::prelude::*;

use crate::arith::{abs_int, pow_int, lemma_pow_nonneg};

verus! {

/// Dot product of two equal-length sequences.
pub open spec fn dot_int(a: Seq<i64>, b: Seq<i64>) -> int
    recommends
        a.len() == b.len(),
    decreases a.len(),
{
    if a.len() == 0 || b.len() == 0 {
        0
    } else {
        dot_int(a.drop_last(), b.drop_last()) + (a.last() as int) * (b.last() as int)
    }
}

/// Sum of the squares of the elements.
pub open spec fn sum_sq(s: Seq<i64>) -> int
    decreases s.len(),
{
    if s.len() == 0 {
        0
    } else {
        sum_sq(s.drop_last()) + (s.last() as int) * (s.last() as int)
    }
}

/// Sum of the `p`-th powers of the absolute values of the elements.
pub open spec fn sum_abs_pow(s: Seq<i64>, p: nat) -> int
    decreases s.len(),
{
    if s.len() == 0 {
        0
    } else {
        sum_abs_pow(s.drop_last(), p) + pow_int(abs_int(s.last() as int), p)
    }
}

/// Supremum of the absolute values of the elements (`0` for an empty
/// sequence).
pub open spec fn max_abs(s: Seq<i64>) -> int
    decreases s.len(),
{
    if s.len() == 0 {
        0
    } else if abs_int(s.last() as int) > max_abs(s.drop_last()) {
        abs_int(s.last() as int)
    } else {
        max_abs(s.drop_last())
    }
}

/// Every partial dot product of the first `k` elements stays within `i128`.
pub open spec fn dot_prefix_ok(a: Seq<i64>, b: Seq<i64>) -> bool {
    forall|k: int|
        0 <= k <= a.len() ==> i128::MIN <= #[trigger] dot_int(a.take(k), b.take(k)) <= i128::MAX
}

/// Extending a prefix by one element adds that element's product.
pub proof fn lemma_dot_take_step(a: Seq<i64>, b: Seq<i64>, i: int)
    requires
        a.len() == b.len(),
        0 <= i < a.len(),
    ensures
        dot_int(a.take(i + 1), b.take(i + 1)) == dot_int(a.take(i), b.take(i)) + (a[i] as int)
            * (b[i] as int),
{
    assert(a.take(i + 1).drop_last() =~= a.take(i));
    assert(b.take(i + 1).drop_last() =~= b.take(i));
    assert(a.take(i + 1).last() == a[i]);
    assert(b.take(i + 1).last() == b[i]);
}

/// Extending a prefix by one element adds that element's square.
pub proof fn lemma_sum_sq_take_step(s: Seq<i64>, i: int)
    requires
        0 <= i < s.len(),
    ensures
        sum_sq(s.take(i + 1)) == sum_sq(s.take(i)) + (s[i] as int) * (s[i] as int),
{
    assert(s.take(i + 1).drop_last() =~= s.take(i));
    assert(s.take(i + 1).last() == s[i]);
}

/// Extending a prefix by one element adds that element's power term.
pub proof fn lemma_sum_abs_pow_take_step(s: Seq<i64>, p: nat, i: int)
    requires
        0 <= i < s.len(),
    ensures
        sum_abs_pow(s.take(i + 1), p) == sum_abs_pow(s.take(i), p) + pow_int(
            abs_int(s[i] as int),
            p,
        ),
{
    assert(s.take(i + 1).drop_last() =~= s.take(i));
    assert(s.take(i + 1).last() == s[i]);
}

/// Extending a prefix by one element takes the maximum with that element.
pub proof fn lemma_max_abs_take_step(s: Seq<i64>, i: int)
    requires
        0 <= i < s.len(),
    ensures
        max_abs(s.take(i + 1)) == if abs_int(s[i] as int) > max_abs(s.take(i)) {
            abs_int(s[i] as int)
        } else {
            max_abs(s.take(i))
        },
{
    assert(s.take(i + 1).drop_last() =~= s.take(i));
    assert(s.take(i + 1).last() == s[i]);
}

/// A sum of squares is nonnegative.
pub proof fn lemma_sum_sq_nonneg(s: Seq<i64>)
    ensures
        sum_sq(s) >= 0,
    decreases s.len(),
{
    if s.len() > 0 {
        lemma_sum_sq_nonneg(s.drop_last());
        vstd::arithmetic::mul::lemma_mul_nonnegative(
            abs_int(s.last() as int),
            abs_int(s.last() as int),
        );
        vstd::arithmetic::mul::lemma_mul_cancels_negatives(s.last() as int, s.last() as int);
    }
}

/// A sum of powers of absolute values is nonnegative.
pub proof fn lemma_sum_abs_pow_nonneg(s: Seq<i64>, p: nat)
    ensures
        sum_abs_pow(s, p) >= 0,
    decreases s.len(),
{
    if s.len() > 0 {
        lemma_sum_abs_pow_nonneg(s.drop_last(), p);
        lemma_pow_nonneg(abs_int(s.last() as int), p);
    }
}

/// The supremum of absolute values is nonnegative and bounded by the
/// largest absolute `i64` value.
pub proof fn lemma_max_abs_bounds(s: Seq<i64>)
    ensures
        0 <= max_abs(s) <= 0x8000_0000_0000_0000,
    decreases s.len(),
{
    if s.len() > 0 {
        lemma_max_abs_bounds(s.drop_last());
    }
}

/// The dot product of a sequence with itself is its sum of squares.
pub proof fn lemma_dot_self_is_sum_sq(s: Seq<i64>)
    ensures
        dot_int(s, s) == sum_sq(s),
    decreases s.len(),
{
    if s.len() > 0 {
        lemma_dot_self_is_sum_sq(s.drop_last());
    }
}

/// A prefix of a sum of squares never exceeds the whole sum.
pub proof fn lemma_sum_sq_take_le(s: Seq<i64>, k: int)
    requires
        0 <= k <= s.len(),
    ensures
        0 <= sum_sq(s.take(k)) <= sum_sq(s),
    decreases s.len() - k,
{
    lemma_sum_sq_nonneg(s.take(k));
    if k == s.len() {
        assert(s.take(k) =~= s);
    } else {
        lemma_sum_sq_take_step(s, k);
        vstd::arithmetic::mul::lemma_mul_nonnegative(abs_int(s[k] as int), abs_int(s[k] as int));
        vstd::arithmetic::mul::lemma_mul_cancels_negatives(s[k] as int, s[k] as int);
        lemma_sum_sq_take_le(s, k + 1);
    }
}

/// A prefix of a sum of powers never exceeds the whole sum.
pub proof fn lemma_sum_abs_pow_take_le(s: Seq<i64>, p: nat, k: int)
    requires
        0 <= k <= s.len(),
    ensures
        0 <= sum_abs_pow(s.take(k), p) <= sum_abs_pow(s, p),
    decreases s.len() - k,
{
    lemma_sum_abs_pow_nonneg(s.take(k), p);
    if k == s.len() {
        assert(s.take(k) =~= s);
    } else {
        lemma_sum_abs_pow_take_step(s, p, k);
        lemma_pow_nonneg(abs_int(s[k] as int), p);
        lemma_sum_abs_pow_take_le(s, p, k + 1);
    }
}

/// For a self dot product, all partial sums stay in range exactly when the
/// full sum of squares does.
pub proof fn lemma_dot_self_prefix_ok(s: Seq<i64>)
    ensures
        dot_prefix_ok(s, s) <==> sum_sq(s) <= i128::MAX,
{
    assert forall|k: int| 0 <= k <= s.len() implies dot_int(s.take(k), s.take(k)) == sum_sq(
        s.take(k),
    ) by {
        lemma_dot_self_is_sum_sq(s.take(k));
    }
    if sum_sq(s) <= i128::MAX {
        assert forall|k: int|
            0 <= k <= s.len() implies i128::MIN <= #[trigger] dot_int(s.take(k), s.take(k))
            <= i128::MAX by {
            lemma_sum_sq_take_le(s, k);
        }
    } else {
        assert(s.take(s.len() as int) =~= s);
        assert(!(i128::MIN <= dot_int(
            s.take(s.len() as int),
            s.take(s.len() as int),
        ) <= i128::MAX));
    }
}

/// Pointwise negation leaves a sum of squares unchanged.
pub proof fn lemma_sum_sq_negated(a: Seq<i64>, b: Seq<i64>)
    requires
        a.len() == b.len(),
        forall|i: int| 0 <= i < a.len() ==> (b[i] as int) == -(a[i] as int),
    ensures
        sum_sq(b) == sum_sq(a),
    decreases a.len(),
{
    if a.len() > 0 {
        lemma_sum_sq_negated(a.drop_last(), b.drop_last());
        vstd::arithmetic::mul::lemma_mul_cancels_negatives(a.last() as int, a.last() as int);
        assert((-(a.last() as int)) * (-(a.last() as int)) == (a.last() as int) * (a.last()
            as int)) by {
            vstd::arithmetic::mul::lemma_mul_cancels_negatives(-(a.last() as int), a.last() as int);
            vstd::arithmetic::mul::lemma_mul_unary_negation(a.last() as int, a.last() as int);
            vstd::arithmetic::mul::lemma_mul_unary_negation(-(a.last() as int), a.last() as int);
        }
    }
}

/// Pointwise negation leaves a sum of powers of absolute values unchanged.
pub proof fn lemma_sum_abs_pow_negated(a: Seq<i64>, b: Seq<i64>, p: nat)
    requires
        a.len() == b.len(),
        forall|i: int| 0 <= i < a.len() ==> (b[i] as int) == -(a[i] as int),
    ensures
        sum_abs_pow(b, p) == sum_abs_pow(a, p),
    decreases a.len(),
{
    if a.len() > 0 {
        lemma_sum_abs_pow_negated(a.drop_last(), b.drop_last(), p);
    }
}

/// Pointwise negation leaves the supremum of absolute values unchanged.
pub proof fn lemma_max_abs_negated(a: Seq<i64>, b: Seq<i64>)
    requires
        a.len() == b.len(),
        forall|i: int| 0 <= i < a.len() ==> (b[i] as int) == -(a[i] as int),
    ensures
        max_abs(b) == max_abs(a),
    decreases a.len(),
{
    if a.len() > 0 {
        lemma_max_abs_negated(a.drop_last(), b.drop_last());
    }
}

/// Frobenius-style sum: the sums of squares of all rows, added up.
pub open spec fn frob_sum(m: Seq<Seq<i64>>) -> int
    decreases m.len(),
{
    if m.len() == 0 {
        0
    } else {
        frob_sum(m.drop_last()) + sum_sq(m.last())
    }
}

/// Sum over all rows of the `p`-th powers of absolute element values.
pub open spec fn mat_abs_pow_sum(m: Seq<Seq<i64>>, p: nat) -> int
    decreases m.len(),
{
    if m.len() == 0 {
        0
    } else {
        mat_abs_pow_sum(m.drop_last(), p) + sum_abs_pow(m.last(), p)
    }
}

/// Supremum of absolute values over all rows.
pub open spec fn mat_max_abs(m: Seq<Seq<i64>>) -> int
    decreases m.len(),
{
    if m.len() == 0 {
        0
    } else if max_abs(m.last()) > mat_max_abs(m.drop_last()) {
        max_abs(m.last())
    } else {
        mat_max_abs(m.drop_last())
    }
}

/// Extending a row prefix adds that row's sum of squares.
pub proof fn lemma_frob_take_step(m: Seq<Seq<i64>>, r: int)
    requires
        0 <= r < m.len(),
    ensures
        frob_sum(m.take(r + 1)) == frob_sum(m.take(r)) + sum_sq(m[r]),
{
    assert(m.take(r + 1).drop_last() =~= m.take(r));
    assert(m.take(r + 1).last() == m[r]);
}

/// Extending a row prefix adds that row's sum of powers.
pub proof fn lemma_mat_abs_pow_take_step(m: Seq<Seq<i64>>, p: nat, r: int)
    requires
        0 <= r < m.len(),
    ensures
        mat_abs_pow_sum(m.take(r + 1), p) == mat_abs_pow_sum(m.take(r), p) + sum_abs_pow(m[r], p),
{
    assert(m.take(r + 1).drop_last() =~= m.take(r));
    assert(m.take(r + 1).last() == m[r]);
}

/// Extending a row prefix takes the maximum with that row's supremum.
pub proof fn lemma_mat_max_abs_take_step(m: Seq<Seq<i64>>, r: int)
    requires
        0 <= r < m.len(),
    ensures
        mat_max_abs(m.take(r + 1)) == if max_abs(m[r]) > mat_max_abs(m.take(r)) {
            max_abs(m[r])
        } else {
            mat_max_abs(m.take(r))
        },
{
    assert(m.take(r + 1).drop_last() =~= m.take(r));
    assert(m.take(r + 1).last() == m[r]);
}

/// A prefix of the row sums never exceeds the whole Frobenius-style sum.
pub proof fn lemma_frob_take_le(m: Seq<Seq<i64>>, k: int)
    requires
        0 <= k <= m.len(),
    ensures
        0 <= frob_sum(m.take(k)) <= frob_sum(m),
    decreases m.len() - k,
{
    if k == 0 {
        assert(m.take(0) =~= Seq::<Seq<i64>>::empty());
    }
    if k == m.len() {
        assert(m.take(k) =~= m);
        lemma_frob_nonneg(m.take(k));
    } else {
        lemma_frob_take_step(m, k);
        lemma_sum_sq_nonneg(m[k]);
        lemma_frob_nonneg(m.take(k));
        lemma_frob_take_le(m, k + 1);
    }
}

/// A Frobenius-style sum is nonnegative.
pub proof fn lemma_frob_nonneg(m: Seq<Seq<i64>>)
    ensures
        frob_sum(m) >= 0,
    decreases m.len(),
{
    if m.len() > 0 {
        lemma_frob_nonneg(m.drop_last());
        lemma_sum_sq_nonneg(m.last());
    }
}

/// A prefix of the row sums never exceeds the whole sum of powers.
pub proof fn lemma_mat_abs_pow_take_le(m: Seq<Seq<i64>>, p: nat, k: int)
    requires
        0 <= k <= m.len(),
    ensures
        0 <= mat_abs_pow_sum(m.take(k), p) <= mat_abs_pow_sum(m, p),
    decreases m.len() - k,
{
    lemma_mat_abs_pow_nonneg(m.take(k), p);
    if k == m.len() {
        assert(m.take(k) =~= m);
    } else {
        lemma_mat_abs_pow_take_step(m, p, k);
        lemma_sum_abs_pow_nonneg(m[k], p);
        lemma_mat_abs_pow_take_le(m, p, k + 1);
    }
}

/// A sum of powers over a matrix is nonnegative.
pub proof fn lemma_mat_abs_pow_nonneg(m: Seq<Seq<i64>>, p: nat)
    ensures
        mat_abs_pow_sum(m, p) >= 0,
    decreases m.len(),
{
    if m.len() > 0 {
        lemma_mat_abs_pow_nonneg(m.drop_last(), p);
        lemma_sum_abs_pow_nonneg(m.last(), p);
    }
}

/// The matrix supremum is nonnegative and bounded by the largest absolute
/// `i64` value.
pub proof fn lemma_mat_max_abs_bounds(m: Seq<Seq<i64>>)
    ensures
        0 <= mat_max_abs(m) <= 0x8000_0000_0000_0000,
    decreases m.len(),
{
    if m.len() > 0 {
        lemma_mat_max_abs_bounds(m.drop_last());
        lemma_max_abs_bounds(m.last());
    }
}

/// Rowwise pointwise negation between two row sequences.
pub open spec fn rows_negated(a: Seq<Seq<i64>>, b: Seq<Seq<i64>>) -> bool {
    &&& a.len() == b.len()
    &&& forall|r: int|
        #![trigger a[r], b[r]]
        0 <= r < a.len() ==> b[r].len() == a[r].len() && (forall|i: int|
            #![trigger a[r][i], b[r][i]]
            0 <= i < a[r].len() ==> (b[r][i] as int) == -(a[r][i] as int))
}

/// Rowwise negation leaves the Frobenius-style sum unchanged.
pub proof fn lemma_frob_negated(a: Seq<Seq<i64>>, b: Seq<Seq<i64>>)
    requires
        rows_negated(a, b),
    ensures
        frob_sum(b) == frob_sum(a),
    decreases a.len(),
{
    if a.len() > 0 {
        assert(rows_negated(a.drop_last(), b.drop_last()));
        lemma_frob_negated(a.drop_last(), b.drop_last());
        lemma_sum_sq_negated(a.last(), b.last());
    }
}

/// Rowwise negation leaves the sum of powers of absolute values unchanged.
pub proof fn lemma_mat_abs_pow_negated(a: Seq<Seq<i64>>, b: Seq<Seq<i64>>, p: nat)
    requires
        rows_negated(a, b),
    ensures
        mat_abs_pow_sum(b, p) == mat_abs_pow_sum(a, p),
    decreases a.len(),
{
    if a.len() > 0 {
        assert(rows_negated(a.drop_last(), b.drop_last()));
        lemma_mat_abs_pow_negated(a.drop_last(), b.drop_last(), p);
        lemma_sum_abs_pow_negated(a.last(), b.last(), p);
    }
}

/// Rowwise negation leaves the supremum of absolute values unchanged.
pub proof fn lemma_mat_max_abs_negated(a: Seq<Seq<i64>>, b: Seq<Seq<i64>>)
    requires
        rows_negated(a, b),
    ensures
        mat_max_abs(b) == mat_max_abs(a),
    decreases a.len(),
{
    if a.len() > 0 {
        assert(rows_negated(a.drop_last(), b.drop_last()));
        lemma_mat_max_abs_negated(a.drop_last(), b.drop_last());
        lemma_max_abs_negated(a.last(), b.last());
    }
}

/// Splitting a sequence in two splits its sum of squares.
pub proof fn lemma_sum_sq_concat(a: Seq<i64>, b: Seq<i64>)
    ensures
        sum_sq(a + b) == sum_sq(a) + sum_sq(b),
    decreases b.len(),
{
    if b.len() == 0 {
        assert(a + b =~= a);
    } else {
        lemma_sum_sq_concat(a, b.drop_last());
        assert((a + b).drop_last() =~= a + b.drop_last());
        assert((a + b).last() == b.last());
    }
}

/// Splitting a sequence in two splits its sum of powers.
pub proof fn lemma_sum_abs_pow_concat(a: Seq<i64>, b: Seq<i64>, p: nat)
    ensures
        sum_abs_pow(a + b, p) == sum_abs_pow(a, p) + sum_abs_pow(b, p),
    decreases b.len(),
{
    if b.len() == 0 {
        assert(a + b =~= a);
    } else {
        lemma_sum_abs_pow_concat(a, b.drop_last(), p);
        assert((a + b).drop_last() =~= a + b.drop_last());
        assert((a + b).last() == b.last());
    }
}

/// The supremum over a concatenation is the larger of the two suprema.
pub proof fn lemma_max_abs_concat(a: Seq<i64>, b: Seq<i64>)
    ensures
        max_abs(a + b) == if max_abs(b) > max_abs(a) {
            max_abs(b)
        } else {
            max_abs(a)
        },
    decreases b.len(),
{
    lemma_max_abs_bounds(a);
    lemma_max_abs_bounds(b);
    if b.len() == 0 {
        assert(a + b =~= a);
    } else {
        lemma_max_abs_concat(a, b.drop_last());
        assert((a + b).drop_last() =~= a + b.drop_last());
        assert((a + b).last() == b.last());
    }
}

/// Law: accumulating sums of squares row by row equals summing the squares
/// of every element of the flat element stream, in any one pass.
pub proof fn lemma_frob_is_flat_sum(m: Seq<Seq<i64>>)
    ensures
        frob_sum(m) == sum_sq(m.flatten()),
    decreases m.len(),
{
    m.lemma_flatten_and_flatten_alt_are_equivalent();
    if m.len() > 0 {
        lemma_frob_is_flat_sum(m.drop_last());
        m.drop_last().lemma_flatten_and_flatten_alt_are_equivalent();
        lemma_sum_sq_concat(m.drop_last().flatten_alt(), m.last());
    }
}

/// Law: accumulating sums of powers row by row equals summing over the
/// flat element stream.
pub proof fn lemma_mat_abs_pow_is_flat_sum(m: Seq<Seq<i64>>, p: nat)
    ensures
        mat_abs_pow_sum(m, p) == sum_abs_pow(m.flatten(), p),
    decreases m.len(),
{
    m.lemma_flatten_and_flatten_alt_are_equivalent();
    if m.len() > 0 {
        lemma_mat_abs_pow_is_flat_sum(m.drop_last(), p);
        m.drop_last().lemma_flatten_and_flatten_alt_are_equivalent();
        lemma_sum_abs_pow_concat(m.drop_last().flatten_alt(), m.last(), p);
    }
}

/// Law: taking row suprema and then their maximum equals the supremum over
/// the flat element stream.
pub proof fn lemma_mat_max_abs_is_flat_max(m: Seq<Seq<i64>>)
    ensures
        mat_max_abs(m) == max_abs(m.flatten()),
    decreases m.len(),
{
    m.lemma_flatten_and_flatten_alt_are_equivalent();
    if m.len() > 0 {
        lemma_mat_max_abs_is_flat_max(m.drop_last());
        m.drop_last().lemma_flatten_and_flatten_alt_are_equivalent();
        lemma_max_abs_concat(m.drop_last().flatten_alt(), m.last());
        lemma_max_abs_bounds(m.last());
    }
}

} // verus!
