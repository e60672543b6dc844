//! The easing curve family: a closed enumeration of polynomial curves that
//! remap normalized interpolation progress.
//!
//! Progress is an exact fraction `num / den` with a positive denominator.
//! Each curve is evaluated by its mathematical formula over all fractions;
//! out-of-range progress passes through the formula untouched rather than
//! being clamped or rejected.  All curves here are polynomial, so the eased
//! progress is again an exact fraction, returned as numerator and
//! denominator; the denominator depends only on the curve and the input
//! denominator.

use vstd::prelude::*;
use crate::MAX_MAG;
use crate::math::lemma_pow_le;

verus! {

/// A named easing curve.  Each variant follows the standard parametric
/// shape of its name: `In` curves start slow, `Out` curves end slow, and
/// `InOut` curves do both, switching shape at half progress.
#[derive(Clone, Copy, Debug, PartialEq, Eq, Structural)]
pub enum EaseFunction {
    QuadraticIn,
    QuadraticOut,
    QuadraticInOut,
    CubicIn,
    CubicOut,
    CubicInOut,
    QuarticIn,
    QuarticOut,
    QuarticInOut,
    QuinticIn,
    QuinticOut,
    QuinticInOut,
}

/// Numerator of the eased progress for curve `e` applied to progress
/// `n / m`.  The matching denominator is `ease_den(e, m)`.
pub open spec fn ease_num(e: EaseFunction, n: int, m: int) -> int {
    match e {
        EaseFunction::QuadraticIn => n * n,
        EaseFunction::QuadraticOut => 2 * (n * m) - n * n,
        EaseFunction::QuadraticInOut => if 2 * n < m {
            2 * (n * n)
        } else {
            4 * (n * m) - 2 * (n * n) - m * m
        },
        EaseFunction::CubicIn => n * n * n,
        EaseFunction::CubicOut => m * m * m - (m - n) * (m - n) * (m - n),
        EaseFunction::CubicInOut => if 2 * n < m {
            8 * (n * n * n)
        } else {
            2 * (m * m * m) - (2 * m - 2 * n) * (2 * m - 2 * n) * (2 * m - 2 * n)
        },
        EaseFunction::QuarticIn => n * n * n * n,
        EaseFunction::QuarticOut => m * m * m * m - (m - n) * (m - n) * (m - n) * (m - n),
        EaseFunction::QuarticInOut => if 2 * n < m {
            8 * (n * n * n * n)
        } else {
            m * m * m * m - 8 * ((m - n) * (m - n) * (m - n) * (m - n))
        },
        EaseFunction::QuinticIn => n * n * n * n * n,
        EaseFunction::QuinticOut => m * m * m * m * m
            - (m - n) * (m - n) * (m - n) * (m - n) * (m - n),
        EaseFunction::QuinticInOut => if 2 * n < m {
            32 * (n * n * n * n * n)
        } else {
            2 * (m * m * m * m * m)
                - (2 * m - 2 * n) * (2 * m - 2 * n) * (2 * m - 2 * n) * (2 * m - 2 * n)
                    * (2 * m - 2 * n)
        },
    }
}

/// Denominator of the eased progress for curve `e` applied to a fraction
/// with denominator `m`.
pub open spec fn ease_den(e: EaseFunction, m: int) -> int {
    match e {
        EaseFunction::QuadraticIn => m * m,
        EaseFunction::QuadraticOut => m * m,
        EaseFunction::QuadraticInOut => m * m,
        EaseFunction::CubicIn => m * m * m,
        EaseFunction::CubicOut => m * m * m,
        EaseFunction::CubicInOut => 2 * (m * m * m),
        EaseFunction::QuarticIn => m * m * m * m,
        EaseFunction::QuarticOut => m * m * m * m,
        EaseFunction::QuarticInOut => m * m * m * m,
        EaseFunction::QuinticIn => m * m * m * m * m,
        EaseFunction::QuinticOut => m * m * m * m * m,
        EaseFunction::QuinticInOut => 2 * (m * m * m * m * m),
    }
}

/// The powers of a positive `m` up to the fifth are positive, and bounded
/// when `m` is bounded by the library's magnitude limit.
proof fn lemma_pow_chain(m: int)
    requires
        0 < m <= 1_000_000,
    ensures
        0 < m * m <= 1_000_000_000_000,
        0 < m * m * m <= 1_000_000_000_000_000_000,
        0 < m * m * m * m <= 1_000_000_000_000_000_000_000_000,
        0 < m * m * m * m * m <= 1_000_000_000_000_000_000_000_000_000_000,
{
    assert(0 < m * m <= 1_000_000_000_000) by (nonlinear_arith)
        requires 0 < m <= 1_000_000;
    assert(0 < m * m * m <= 1_000_000_000_000_000_000) by (nonlinear_arith)
        requires 0 < m <= 1_000_000, 0 < m * m <= 1_000_000_000_000;
    assert(0 < m * m * m * m <= 1_000_000_000_000_000_000_000_000) by (nonlinear_arith)
        requires 0 < m <= 1_000_000, 0 < m * m * m <= 1_000_000_000_000_000_000;
    assert(0 < m * m * m * m * m <= 1_000_000_000_000_000_000_000_000_000_000)
        by (nonlinear_arith)
        requires 0 < m <= 1_000_000, 0 < m * m * m * m <= 1_000_000_000_000_000_000_000_000;
}

/// The denominator of an eased fraction is positive whenever the input
/// denominator is.
pub proof fn lemma_ease_den_pos(e: EaseFunction, m: int)
    requires
        0 < m,
    ensures
        0 < ease_den(e, m),
{
    assert(0 < m * m && 0 < m * m * m && 0 < m * m * m * m && 0 < m * m * m * m * m)
        by (nonlinear_arith)
        requires 0 < m;
}

/// Every curve maps progress zero to eased progress zero.
pub proof fn lemma_ease_at_zero(e: EaseFunction, m: int)
    requires
        0 < m,
    ensures
        ease_num(e, 0, m) == 0,
{
    assert((m - 0) * (m - 0) * (m - 0) == m * m * m) by (nonlinear_arith);
    assert((m - 0) * (m - 0) * (m - 0) * (m - 0) == m * m * m * m) by (nonlinear_arith);
    assert((m - 0) * (m - 0) * (m - 0) * (m - 0) * (m - 0) == m * m * m * m * m)
        by (nonlinear_arith);
}

/// Every curve maps full progress to full eased progress: at `n == m` the
/// eased numerator equals the denominator.
pub proof fn lemma_ease_at_full(e: EaseFunction, m: int)
    requires
        0 < m,
    ensures
        ease_num(e, m, m) == ease_den(e, m),
{
    assert((m - m) * (m - m) * (m - m) == 0) by (nonlinear_arith);
    assert((m - m) * (m - m) * (m - m) * (m - m) == 0) by (nonlinear_arith);
    assert((m - m) * (m - m) * (m - m) * (m - m) * (m - m) == 0) by (nonlinear_arith);
    assert((2 * m - 2 * m) * (2 * m - 2 * m) * (2 * m - 2 * m) == 0) by (nonlinear_arith);
    assert((2 * m - 2 * m) * (2 * m - 2 * m) * (2 * m - 2 * m) * (2 * m - 2 * m)
        * (2 * m - 2 * m) == 0) by (nonlinear_arith);
}

/// For in-range progress the eased fraction stays in range: with
/// `0 <= n <= m` the eased numerator lies between `0` and the denominator.
pub proof fn lemma_ease_frac_in_range(e: EaseFunction, n: int, m: int)
    requires
        0 < m,
        0 <= n <= m,
    ensures
        0 <= ease_num(e, n, m) <= ease_den(e, m),
{
    lemma_pow_le(0, n);
    lemma_pow_le(n, m);
    lemma_pow_le(0, m - n);
    lemma_pow_le(m - n, m);
    match e {
        EaseFunction::QuadraticIn => {}
        EaseFunction::QuadraticOut => {
            assert(0 <= 2 * (n * m) - n * n && 2 * (n * m) - n * n <= m * m)
                by (nonlinear_arith)
                requires 0 <= n <= m;
        }
        EaseFunction::QuadraticInOut => {
            if 2 * n < m {
                assert(0 <= 2 * (n * n) && 2 * (n * n) <= m * m) by (nonlinear_arith)
                    requires 0 <= n, 2 * n < m;
            } else {
                assert(0 <= 4 * (n * m) - 2 * (n * n) - m * m
                    && 4 * (n * m) - 2 * (n * n) - m * m <= m * m) by (nonlinear_arith)
                    requires 0 <= n <= m, m <= 2 * n;
            }
        }
        EaseFunction::CubicIn => {}
        EaseFunction::CubicOut => {}
        EaseFunction::CubicInOut => {
            if 2 * n < m {
                assert(8 * (n * n * n) == (2 * n) * (2 * n) * (2 * n)) by (nonlinear_arith);
                lemma_pow_le(2 * n, m);
                lemma_pow_le(0, 2 * n);
            } else {
                lemma_pow_le(2 * m - 2 * n, m);
                lemma_pow_le(0, 2 * m - 2 * n);
            }
        }
        EaseFunction::QuarticIn => {}
        EaseFunction::QuarticOut => {}
        EaseFunction::QuarticInOut => {
            if 2 * n < m {
                assert(16 * (n * n * n * n) == (2 * n) * (2 * n) * (2 * n) * (2 * n))
                    by (nonlinear_arith);
                lemma_pow_le(2 * n, m);
                lemma_pow_le(0, 2 * n);
            } else {
                assert(16 * ((m - n) * (m - n) * (m - n) * (m - n))
                    == (2 * m - 2 * n) * (2 * m - 2 * n) * (2 * m - 2 * n) * (2 * m - 2 * n))
                    by (nonlinear_arith);
                lemma_pow_le(2 * m - 2 * n, m);
                lemma_pow_le(0, m - n);
            }
        }
        EaseFunction::QuinticIn => {}
        EaseFunction::QuinticOut => {}
        EaseFunction::QuinticInOut => {
            if 2 * n < m {
                assert(32 * (n * n * n * n * n)
                    == (2 * n) * (2 * n) * (2 * n) * (2 * n) * (2 * n)) by (nonlinear_arith);
                lemma_pow_le(2 * n, m);
                lemma_pow_le(0, 2 * n);
            } else {
                lemma_pow_le(2 * m - 2 * n, m);
                lemma_pow_le(0, 2 * m - 2 * n);
            }
        }
    }
}

fn pow2(x: i128) -> (r: i128)
    requires
        -4_000_000 <= x <= 4_000_000,
    ensures
        r == x * x,
        0 <= r <= 16_000_000_000_000,
{
    proof {
        assert(0 <= x * x <= 16_000_000_000_000) by (nonlinear_arith)
            requires -4_000_000 <= x <= 4_000_000;
    }
    x * x
}

fn pow3(x: i128) -> (r: i128)
    requires
        -4_000_000 <= x <= 4_000_000,
    ensures
        r == x * x * x,
        -64_000_000_000_000_000_000 <= r <= 64_000_000_000_000_000_000,
{
    let x2 = pow2(x);
    proof {
        assert(-64_000_000_000_000_000_000 <= x2 * x <= 64_000_000_000_000_000_000)
            by (nonlinear_arith)
            requires 0 <= x2 <= 16_000_000_000_000, -4_000_000 <= x <= 4_000_000;
    }
    x2 * x
}

fn pow4(x: i128) -> (r: i128)
    requires
        -4_000_000 <= x <= 4_000_000,
    ensures
        r == x * x * x * x,
        0 <= r <= 256_000_000_000_000_000_000_000_000,
{
    let x2 = pow2(x);
    proof {
        assert(0 <= x2 * x2 <= 256_000_000_000_000_000_000_000_000) by (nonlinear_arith)
            requires 0 <= x2 <= 16_000_000_000_000;
        assert(x2 * x2 == x * x * x * x) by (nonlinear_arith)
            requires x2 == x * x;
    }
    x2 * x2
}

fn pow5(x: i128) -> (r: i128)
    requires
        -4_000_000 <= x <= 4_000_000,
    ensures
        r == x * x * x * x * x,
        -1_024_000_000_000_000_000_000_000_000_000_000 <= r
            <= 1_024_000_000_000_000_000_000_000_000_000_000,
{
    let x4 = pow4(x);
    proof {
        assert(-1_024_000_000_000_000_000_000_000_000_000_000 <= x4 * x
            <= 1_024_000_000_000_000_000_000_000_000_000_000) by (nonlinear_arith)
            requires 0 <= x4 <= 256_000_000_000_000_000_000_000_000,
                -4_000_000 <= x <= 4_000_000;
    }
    x4 * x
}

impl EaseFunction {
    /// Eased progress for this curve applied to the progress fraction
    /// `num / den`, returned as an exact fraction (numerator, denominator).
    /// The input is not clamped: progress outside `[0, 1]` goes through the
    /// curve's formula unchanged.  For in-range progress the result is again
    /// in range: the returned numerator lies between zero and the returned
    /// denominator.
    pub fn eval(self, num: i64, den: i64) -> (r: (i128, i128))
        requires
            -MAX_MAG <= num <= MAX_MAG,
            0 < den <= MAX_MAG,
        ensures
            r.0 == ease_num(self, num as int, den as int),
            r.1 == ease_den(self, den as int),
            0 < r.1 <= 2_000_000_000_000_000_000_000_000_000_000,
            0 <= num <= den ==> 0 <= r.0 <= r.1,
    {
        let n = num as i128;
        let m = den as i128;
        proof {
            lemma_pow_chain(m as int);
            if 0 <= num && num <= den {
                lemma_ease_frac_in_range(self, n as int, m as int);
            }
        }
        match self {
            EaseFunction::QuadraticIn => (pow2(n), pow2(m)),
            EaseFunction::QuadraticOut => {
                proof {
                    crate::math::lemma_mul_bounds_abs(n as int, m as int, 1_000_000, 1_000_000);
                }
                let nm = n * m;
                (2 * nm - pow2(n), pow2(m))
            }
            EaseFunction::QuadraticInOut => {
                if 2 * n < m {
                    (2 * pow2(n), pow2(m))
                } else {
                    proof {
                        crate::math::lemma_mul_bounds_abs(
                            n as int, m as int, 1_000_000, 1_000_000);
                    }
                    let nm = n * m;
                    (4 * nm - 2 * pow2(n) - pow2(m), pow2(m))
                }
            }
            EaseFunction::CubicIn => (pow3(n), pow3(m)),
            EaseFunction::CubicOut => (pow3(m) - pow3(m - n), pow3(m)),
            EaseFunction::CubicInOut => {
                if 2 * n < m {
                    (8 * pow3(n), 2 * pow3(m))
                } else {
                    (2 * pow3(m) - pow3(2 * m - 2 * n), 2 * pow3(m))
                }
            }
            EaseFunction::QuarticIn => (pow4(n), pow4(m)),
            EaseFunction::QuarticOut => (pow4(m) - pow4(m - n), pow4(m)),
            EaseFunction::QuarticInOut => {
                if 2 * n < m {
                    (8 * pow4(n), pow4(m))
                } else {
                    (pow4(m) - 8 * pow4(m - n), pow4(m))
                }
            }
            EaseFunction::QuinticIn => (pow5(n), pow5(m)),
            EaseFunction::QuinticOut => (pow5(m) - pow5(m - n), pow5(m)),
            EaseFunction::QuinticInOut => {
                if 2 * n < m {
                    (32 * pow5(n), 2 * pow5(m))
                } else {
                    (2 * pow5(m) - pow5(2 * m - 2 * n), 2 * pow5(m))
                }
            }
        }
    }
}

} // verus!
