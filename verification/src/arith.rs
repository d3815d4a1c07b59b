//! Fixed-point arithmetic utilities in basis points (10,000 = 100%).
//!
//! All amounts are signed 128-bit integers.  No floating point appears
//! anywhere in the ledger: fractions are expressed in basis points and the
//! accumulator is scaled by [`PRECISION`].

use vstd::prelude::*;
use vstd::arithmetic::div_mod::{lemma_div_by_self, lemma_fundamental_div_mod};

verus! {

/// The kinds of stake the protocol distinguishes.
#[derive(Clone, Copy, Debug, PartialEq, Eq, Structural)]
pub enum StakeType {
    Standard,
    Compound,
    Governance,
    Liquidity,
}

/// Basis points representing 100% (10,000 basis points = 100%).
pub const MAX_BASIS_POINTS: i128 = 10000;

/// Seconds in a day.
pub const SECONDS_PER_DAY: u64 = 86400;

/// Seconds in a year (365 days).
pub const SECONDS_PER_YEAR: u64 = 365 * 86400;

/// Maximum reasonable lock period (5 years).
pub const MAX_LOCK_PERIOD: u64 = 5 * 365 * 86400;

/// Minimum lock period (1 day).
pub const MIN_LOCK_PERIOD: u64 = 86400;

/// Scale factor of the global `reward_per_share` accumulator.
pub const PRECISION: i128 = 1_000_000;

/// Validate that an amount is positive.
pub fn validate_positive_amount(amount: i128) -> (r: bool)
    ensures
        r == (amount > 0),
{
    amount > 0
}

/// Validate that a percentage expressed in basis points lies in 0..=100%.
pub fn validate_percentage(percentage: i128) -> (r: bool)
    ensures
        r == (0 <= percentage <= MAX_BASIS_POINTS),
{
    percentage >= 0 && percentage <= MAX_BASIS_POINTS
}


/// Division by a positive denominator cannot exceed a non-negative numerator.
pub proof fn lemma_div_at_most(a: int, d: int)
    by (nonlinear_arith)
    requires
        0 <= a,
        1 <= d,
    ensures
        0 <= a / d <= a,
{
}

/// Euclidean division of a non-negative amount by a positive divisor.
pub fn div_nonneg(a: i128, b: i128) -> (r: i128)
    requires
        0 <= a,
        0 < b,
    ensures
        r == a as int / b as int,
        0 <= r <= a,
{
    let au = a as u128;
    let bu = b as u128;
    proof {
        lemma_div_at_most(au as int, bu as int);
    }
    (au / bu) as i128
}

/// Convert basis points to a whole percentage, rounding toward zero.
pub fn basis_points_to_percentage(basis_points: i128) -> (r: i128)
    requires
        basis_points > i128::MIN,
    ensures
        basis_points >= 0 ==> r == basis_points / 100,
        basis_points < 0 ==> r == -((-basis_points) / 100),
{
    if basis_points >= 0 {
        div_nonneg(basis_points, 100)
    } else {
        -div_nonneg(-basis_points, 100)
    }
}

/// Convert a whole percentage to basis points.
pub fn percentage_to_basis_points(percentage: i128) -> (r: i128)
    requires
        -(i128::MAX / 100) <= percentage <= i128::MAX / 100,
    ensures
        r == percentage * 100,
{
    percentage * 100
}

/// What `i128` addition saturates to.
pub open spec fn sat_add_spec(a: int, b: int) -> int {
    if a + b > i128::MAX {
        i128::MAX as int
    } else if a + b < i128::MIN {
        i128::MIN as int
    } else {
        a + b
    }
}

/// Saturating `i128` addition.
pub fn sat_add_i128(a: i128, b: i128) -> (r: i128)
    ensures
        r == sat_add_spec(a as int, b as int),
{
    match a.checked_add(b) {
        Some(v) => v,
        None => {
            if b > 0 {
                i128::MAX
            } else {
                i128::MIN
            }
        },
    }
}

/// What `i128` subtraction saturates to.
pub open spec fn sat_sub_spec(a: int, b: int) -> int {
    if a - b > i128::MAX {
        i128::MAX as int
    } else if a - b < i128::MIN {
        i128::MIN as int
    } else {
        a - b
    }
}

/// Saturating `i128` subtraction.
pub fn sat_sub_i128(a: i128, b: i128) -> (r: i128)
    ensures
        r == sat_sub_spec(a as int, b as int),
{
    match a.checked_sub(b) {
        Some(v) => v,
        None => {
            if b < 0 {
                i128::MAX
            } else {
                i128::MIN
            }
        },
    }
}

/// What `i128` multiplication saturates to.
pub open spec fn sat_mul_spec(a: int, b: int) -> int {
    if a * b > i128::MAX {
        i128::MAX as int
    } else if a * b < i128::MIN {
        i128::MIN as int
    } else {
        a * b
    }
}

/// Saturating `i128` multiplication.
pub fn sat_mul_i128(a: i128, b: i128) -> (r: i128)
    ensures
        r == sat_mul_spec(a as int, b as int),
{
    match a.checked_mul(b) {
        Some(v) => v,
        None => {
            if (a > 0) == (b > 0) {
                proof {
                    lemma_same_sign_mul_pos(a as int, b as int);
                }
                i128::MAX
            } else {
                proof {
                    lemma_mixed_sign_mul_neg(a as int, b as int);
                }
                i128::MIN
            }
        },
    }
}

proof fn lemma_same_sign_mul_pos(a: int, b: int)
    by (nonlinear_arith)
    requires
        (a > 0) == (b > 0),
        a * b > i128::MAX || a * b < i128::MIN,
    ensures
        a * b > i128::MAX,
{
}

proof fn lemma_mixed_sign_mul_neg(a: int, b: int)
    by (nonlinear_arith)
    requires
        (a > 0) != (b > 0),
        a * b > i128::MAX || a * b < i128::MIN,
    ensures
        a * b < i128::MIN,
{
}


/// Saturating addition of non-negative values stays non-negative.
pub proof fn lemma_sat_add_nonneg(a: int, b: int)
    requires
        0 <= a,
        0 <= b,
    ensures
        0 <= sat_add_spec(a, b),
{
}

/// Saturating multiplication of non-negative values stays non-negative.
pub proof fn lemma_sat_mul_nonneg(a: int, b: int)
    requires
        0 <= a,
        0 <= b,
    ensures
        0 <= sat_mul_spec(a, b),
{
    lemma_mul_nonneg_local(a, b);
}

proof fn lemma_mul_nonneg_local(a: int, b: int)
    by (nonlinear_arith)
    requires
        0 <= a,
        0 <= b,
    ensures
        0 <= a * b,
{
}

/// Floor of the square root of a non-negative integer.
pub open spec fn is_integer_sqrt(v: int, r: int) -> bool {
    r >= 0 && r * r <= v && (r + 1) * (r + 1) > v
}


/// The integer square root of `v`, as a value.
pub open spec fn sqrt_of(v: int) -> int {
    choose|r: int| is_integer_sqrt(v, r)
}

/// The integer square root is unique, so any witness names it.
pub proof fn lemma_sqrt_unique(v: int, r: int)
    requires
        is_integer_sqrt(v, r),
    ensures
        sqrt_of(v) == r,
{
    assert(is_integer_sqrt(v, sqrt_of(v)));
    let r2 = sqrt_of(v);
    if r2 != r {
        lemma_sqrt_distinct(v, r, r2);
    }
}

proof fn lemma_sqrt_distinct(v: int, r1: int, r2: int)
    by (nonlinear_arith)
    requires
        is_integer_sqrt(v, r1),
        is_integer_sqrt(v, r2),
    ensures
        r1 == r2,
{
    if r1 < r2 {
        assert((r1 + 1) * (r1 + 1) <= r2 * r2);
    }
    if r2 < r1 {
        assert((r2 + 1) * (r2 + 1) <= r1 * r1);
    }
}

/// Integer square root by Newton's method; values below 2 (including
/// negative amounts) are returned unchanged, as the callers' guards expect.
pub fn integer_sqrt(value: i128) -> (r: i128)
    requires
        value < i128::MAX,
    ensures
        value >= 0 ==> is_integer_sqrt(value as int, r as int),
        value < 0 ==> r == value,
{
    if value < 2 {
        proof {
            if value >= 0 {
                assert(value * value <= value && (value + 1) * (value + 1) > value)
                    by (nonlinear_arith)
                    requires
                        0 <= value < 2,
                ;
            }
        }
        return value;
    }
    let mut x: i128 = value;
    let mut y: i128 = div_nonneg(x + 1, 2);
    proof {
        lemma_div_by_self(value as int);
        lemma_fundamental_div_mod((value + 1) as int, 2);
        assert((value + 1) * (value + 1) > value) by (nonlinear_arith)
            requires
                value >= 2,
        ;
        lemma_sqrt_newton_step(
            value as int,
            value as int,
            1,
            0,
            y as int,
            (value + 1) as int % 2,
        );
    }
    while y < x
        invariant
            2 <= value < i128::MAX,
            0 < x <= value,
            0 <= y <= value,
            (x + 1) * (x + 1) > value,
            (y + 1) * (y + 1) > value,
            y == (x + value / x) / 2,
        decreases x,
    {
        x = y;
        proof {
            assert(x >= 1) by (nonlinear_arith)
                requires
                    0 <= x,
                    (x + 1) * (x + 1) > value,
                    value >= 2,
            ;
        }
        let q = div_nonneg(value, x);
        proof {
            lemma_fundamental_div_mod(value as int, x as int);
            assert(x + q <= value + 1) by (nonlinear_arith)
                requires
                    1 <= x <= value,
                    q * x <= value,
                    0 <= q,
            {
                if q >= 1 {
                    assert((x - 1) * (q - 1) >= 0);
                }
            }
        }
        y = div_nonneg(x + q, 2);
        proof {
            lemma_fundamental_div_mod((x + q) as int, 2);
            lemma_sqrt_newton_step(
                value as int,
                x as int,
                q as int,
                value as int % x as int,
                y as int,
                (x + q) as int % 2,
            );
        }
    }
    proof {
        lemma_fundamental_div_mod(value as int, x as int);
        lemma_fundamental_div_mod((x + value / x) as int, 2);
        lemma_sqrt_exit(
            value as int,
            x as int,
            value as int / x as int,
            value as int % x as int,
            y as int,
            (x + value / x) as int % 2,
        );
    }
    x
}

/// One Newton step from a value `x` at or above the integer square root
/// stays at or above it, and stays within range.  The quotients are handed
/// in through their Euclidean decompositions.
proof fn lemma_sqrt_newton_step(v: int, x: int, q: int, rr: int, y: int, s2: int)
    by (nonlinear_arith)
    requires
        2 <= v,
        0 < x <= v,
        (x + 1) * (x + 1) > v,
        v == q * x + rr,
        0 <= rr < x,
        x + q == 2 * y + s2,
        0 <= s2 < 2,
    ensures
        0 <= y <= v,
        (y + 1) * (y + 1) > v,
{
    if q >= 1 {
        assert((x - 1) * (q - 1) >= 0);
    }
    assert(x + q <= v + 1);
    assert(x * q == v - rr);
    assert(x * (x + q) == x * x + x * q);
    assert(x * (2 * y) >= x * (x + q - 1));
    assert(2 * x * (y + 1) > x * x + v);
    assert((x - (y + 1)) * (x - (y + 1)) >= 0);
    assert(x * x + (y + 1) * (y + 1) >= 2 * x * (y + 1));
}

/// When a Newton step no longer decreases, the current value squares to at
/// most `v`.
proof fn lemma_sqrt_exit(v: int, x: int, q: int, rr: int, y: int, s2: int)
    by (nonlinear_arith)
    requires
        0 < x,
        v == q * x + rr,
        0 <= rr < x,
        x + q == 2 * y + s2,
        0 <= s2 < 2,
        y >= x,
    ensures
        x * x <= v,
{
}

} // verus!
