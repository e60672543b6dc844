//! Integer helpers for the interpolation arithmetic: floor division on
//! 128-bit values and a few multiplication bounds.

use vstd::prelude::*;
use vstd::arithmetic::div_mod::lemma_fundamental_div_mod;
use vstd::arithmetic::div_mod::lemma_fundamental_div_mod_converse;

verus! {

/// Division of `a` by a positive `b`, rounding toward negative infinity,
/// which matches the mathematical (Euclidean) `/` used in specifications.
pub fn floor_div_i128(a: i128, b: i128) -> (q: i128)
    requires
        0 < b,
        i128::MIN < a,
    ensures
        q == a as int / b as int,
{
    if a >= 0 {
        let ua = a as u128;
        let ub = b as u128;
        let uq = ua / ub;
        proof {
            lemma_fundamental_div_mod(a as int, b as int);
            assert(a as int / b as int <= a as int) by {
                vstd::arithmetic::div_mod::lemma_div_is_ordered_by_denominator(
                    a as int, 1, b as int);
            }
        }
        uq as i128
    } else {
        let na = -a;
        let ua = na as u128;
        let ub = b as u128;
        let uq = ua / ub;
        let ur = ua % ub;
        proof {
            lemma_fundamental_div_mod(na as int, b as int);
        }
        if ur == 0 {
            proof {
                assert(a as int == (-(uq as int)) * (b as int) + 0) by (nonlinear_arith)
                    requires
                        na as int == b as int * (uq as int),
                        a as int == -(na as int);
                lemma_fundamental_div_mod_converse(a as int, b as int, -(uq as int), 0);
            }
            -(uq as i128)
        } else {
            proof {
                assert(a as int == (-(uq as int) - 1) * (b as int) + (ub as int - ur as int))
                    by (nonlinear_arith)
                    requires
                        na as int == b as int * (uq as int) + (ur as int),
                        ub as int == b as int,
                        a as int == -(na as int);
                lemma_fundamental_div_mod_converse(
                    a as int, b as int, -(uq as int) - 1, b as int - ur as int);
            }
            -(uq as i128) - 1
        }
    }
}

/// A product of values bounded in magnitude is itself bounded in magnitude.
pub proof fn lemma_mul_bounds_abs(x: int, y: int, bx: int, by: int)
    by (nonlinear_arith)
    requires
        -bx <= x <= bx,
        -by <= y <= by,
        0 <= bx,
        0 <= by,
    ensures
        -(bx * by) <= x * y <= bx * by,
{
}

/// Powers up to the fifth are monotone on nonnegative arguments.
pub proof fn lemma_pow_le(a: int, b: int)
    requires
        0 <= a <= b,
    ensures
        a * a <= b * b,
        a * a * a <= b * b * b,
        a * a * a * a <= b * b * b * b,
        a * a * a * a * a <= b * b * b * b * b,
{
    assert(a * a <= b * b) by (nonlinear_arith)
        requires 0 <= a <= b;
    assert(a * a * a <= b * b * b) by (nonlinear_arith)
        requires 0 <= a <= b, a * a <= b * b;
    assert(a * a * a * a <= b * b * b * b) by (nonlinear_arith)
        requires 0 <= a <= b, a * a * a <= b * b * b;
    assert(a * a * a * a * a <= b * b * b * b * b) by (nonlinear_arith)
        requires 0 <= a <= b, a * a * a * a <= b * b * b * b;
}

/// Multiplying a nonnegative factor by a larger second factor cannot
/// shrink the product.
pub proof fn lemma_mul_le_mono_right(x: int, a: int, b: int)
    by (nonlinear_arith)
    requires
        0 <= x,
        a <= b,
    ensures
        x * a <= x * b,
{
}

} // verus!
