//! Fixed-point scale and rounded division.
//!
//! Coordinates, direction vectors and speeds are integers counted in units
//! of `1 / FP_ONE` of a tile.

use vstd::prelude::*;
use vstd::arithmetic::div_mod::{
    lemma_div_is_ordered, lemma_fundamental_div_mod, lemma_fundamental_div_mod_converse,
};

verus! {

/// One tile, in fixed-point units.
pub const FP_ONE: i64 = 0x100_0000;

/// Absolute value.
pub open spec fn abs_i(a: int) -> int {
    if a < 0 {
        -a
    } else {
        a
    }
}

/// Mathematical value of `a / b` rounded to the nearest integer
/// (halves round up), for `b > 0`.
pub open spec fn div_round_spec(a: int, b: int) -> int {
    (2 * a + b) / (2 * b)
}

/// `a / b` rounded to nearest (halves up), exact per `div_round_spec`.
pub fn div_round(a: i64, b: i64) -> (r: i64)
    requires
        0 < b <= 0x1_0000_0000,
        -0x1000_0000_0000_0000 <= a <= 0x1000_0000_0000_0000,
    ensures
        r == div_round_spec(a as int, b as int),
{
    let num: i64 = 2 * a + b;
    let den: i64 = 2 * b;
    if num >= 0 {
        num / den
    } else {
        let m: i64 = -num;
        let q: i64 = (m + den - 1) / den;
        proof {
            lemma_fundamental_div_mod(m + den - 1, den as int);
            let qq = (m + den - 1) as int / den as int;
            let rr = (m + den - 1) as int % den as int;
            assert(m + den - 1 == den * qq + rr);
            assert(num == (-qq) * den + (den - 1 - rr)) by (nonlinear_arith)
                requires
                    num == -m,
                    m + den - 1 == den * qq + rr,
            ;
            lemma_fundamental_div_mod_converse(num as int, den as int, -qq, den - 1 - rr);
        }
        -q
    }
}

/// Rounded division misses the true quotient by at most half a divisor:
/// `-b < 2 * (div_round_spec(a, b) * b - a) <= b`.
pub proof fn lemma_div_round_err(a: int, b: int)
    requires
        0 < b,
    ensures
        2 * (div_round_spec(a, b) * b - a) <= b,
        -b < 2 * (div_round_spec(a, b) * b - a),
{
    lemma_fundamental_div_mod(2 * a + b, 2 * b);
    let q = div_round_spec(a, b);
    let r = (2 * a + b) % (2 * b);
    assert(2 * a + b == (2 * b) * q + r);
    assert(2 * (q * b - a) == b - r) by (nonlinear_arith)
        requires
            2 * a + b == (2 * b) * q + r,
    ;
}

/// If `-m * b <= a <= m * b` then the rounded quotient lies in `-m ..= m`.
pub proof fn lemma_div_round_le(a: int, b: int, m: int)
    requires
        0 < b,
        0 <= m,
        -m * b <= a <= m * b,
    ensures
        -m <= div_round_spec(a, b) <= m,
{
    assert(-(m * b) == (-m) * b) by (nonlinear_arith);
    assert((2 * (m * b) + b) == m * (2 * b) + b) by (nonlinear_arith);
    assert((2 * (-(m * b)) + b) == (-m) * (2 * b) + b) by (nonlinear_arith);
    lemma_fundamental_div_mod_converse(2 * (m * b) + b, 2 * b, m, b);
    lemma_fundamental_div_mod_converse(2 * (-(m * b)) + b, 2 * b, -m, b);
    lemma_div_is_ordered(2 * a + b, 2 * (m * b) + b, 2 * b);
    lemma_div_is_ordered(2 * (-(m * b)) + b, 2 * a + b, 2 * b);
}

} // verus!
