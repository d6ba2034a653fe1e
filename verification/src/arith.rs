//! Exact integer arithmetic used by the norm computations: absolute value,
//! integer powers, and an overflow-checked power routine.

use vstd::prelude::*;

verus! {

/// Absolute value of a mathematical integer.
pub open spec fn abs_int(x: int) -> int {
    if x < 0 {
        -x
    } else {
        x
    }
}

/// `b` raised to the `e`-th power, with `pow_int(b, 0) == 1`.
pub open spec fn pow_int(b: int, e: nat) -> int
    decreases e,
{
    if e == 0 {
        1
    } else {
        b * pow_int(b, (e - 1) as nat)
    }
}

/// A power of a nonnegative base is nonnegative.
pub proof fn lemma_pow_nonneg(b: int, e: nat)
    requires
        b >= 0,
    ensures
        pow_int(b, e) >= 0,
    decreases e,
{
    if e > 0 {
        lemma_pow_nonneg(b, (e - 1) as nat);
        vstd::arithmetic::mul::lemma_mul_nonnegative(b, pow_int(b, (e - 1) as nat));
    }
}

/// A power of a base of at least one is at least one.
pub proof fn lemma_pow_pos(b: int, e: nat)
    requires
        b >= 1,
    ensures
        pow_int(b, e) >= 1,
    decreases e,
{
    if e > 0 {
        lemma_pow_pos(b, (e - 1) as nat);
        vstd::arithmetic::mul::lemma_mul_inequality(1, pow_int(b, (e - 1) as nat), b);
        vstd::arithmetic::mul::lemma_mul_is_commutative(b, pow_int(b, (e - 1) as nat));
    }
}

/// For a base of at least one, powers grow with the exponent.
pub proof fn lemma_pow_increases(b: int, e1: nat, e2: nat)
    requires
        b >= 1,
        e1 <= e2,
    ensures
        pow_int(b, e1) <= pow_int(b, e2),
    decreases e2 - e1,
{
    if e1 < e2 {
        lemma_pow_increases(b, e1, (e2 - 1) as nat);
        lemma_pow_pos(b, (e2 - 1) as nat);
        vstd::arithmetic::mul::lemma_mul_inequality(1, b, pow_int(b, (e2 - 1) as nat));
        vstd::arithmetic::mul::lemma_mul_is_commutative(b, pow_int(b, (e2 - 1) as nat));
    }
}

/// For positive `d`, comparing against the quotient decides whether a
/// product fits below `bound`.
pub proof fn lemma_mul_le_bound_via_div(x: int, d: int, bound: int)
    requires
        x >= 0,
        d >= 1,
        bound >= 0,
    ensures
        x <= bound / d ==> x * d <= bound,
        x > bound / d ==> x * d > bound,
{
    vstd::arithmetic::div_mod::lemma_fundamental_div_mod(bound, d);
    vstd::arithmetic::div_mod::lemma_mod_bound(bound, d);
    let q: int = bound / d;
    if x <= q {
        vstd::arithmetic::mul::lemma_mul_inequality(x, q, d);
        assert(q * d == d * q) by (nonlinear_arith);
    } else {
        vstd::arithmetic::mul::lemma_mul_inequality(q + 1, x, d);
        assert((q + 1) * d == d * q + d) by (nonlinear_arith);
    }
}

/// Absolute value of an `i64`, exactly, including `i64::MIN`.
pub fn abs_u64(x: i64) -> (r: u64)
    ensures
        r as int == abs_int(x as int),
{
    if x >= 0 {
        x as u64
    } else {
        let wide: i128 = x as i128;
        (-wide) as u64
    }
}

/// `base` to the `exp`-th power, or `None` when the exact power exceeds
/// `u128::MAX`.
pub fn pow_checked(base: u64, exp: u32) -> (r: Option<u128>)
    ensures
        match r {
            Some(v) => v as int == pow_int(base as int, exp as nat),
            None => pow_int(base as int, exp as nat) > u128::MAX,
        },
{
    if base == 0 {
        if exp == 0 {
            Some(1)
        } else {
            assert(pow_int(0, exp as nat) == 0) by {
                assert(pow_int(0, (exp - 1) as nat) * 0 == 0) by {
                    vstd::arithmetic::mul::lemma_mul_by_zero_is_zero(
                        pow_int(0, (exp - 1) as nat),
                    );
                }
            }
            Some(0)
        }
    } else {
        let b: u128 = base as u128;
        let mut acc: u128 = 1;
        let mut i: u32 = 0;
        while i < exp
            invariant
                1 <= b <= u64::MAX,
                b == base as int,
                i <= exp,
                acc as int == pow_int(b as int, i as nat),
            decreases exp - i,
        {
            proof {
                lemma_mul_le_bound_via_div(acc as int, b as int, u128::MAX as int);
            }
            if acc > u128::MAX / b {
                proof {
                    assert(acc * b == pow_int(b as int, (i + 1) as nat)) by {
                        vstd::arithmetic::mul::lemma_mul_is_commutative(acc as int, b as int);
                    }
                    lemma_pow_increases(b as int, (i + 1) as nat, exp as nat);
                }
                return None;
            }
            acc = acc * b;
            proof {
                vstd::arithmetic::mul::lemma_mul_is_commutative(
                    pow_int(b as int, i as nat),
                    b as int,
                );
            }
            i = i + 1;
        }
        Some(acc)
    }
}

} // verus!
