//! Rounded proportions: the integer nearest to a ratio of two integers.

use vstd::prelude::*;
use vstd::arithmetic::div_mod::lemma_fundamental_div_mod_converse;
use vstd::arithmetic::div_mod::lemma_fundamental_div_mod;

verus! {

/// The integer nearest to `numerator / denominator`, a tie going up.
/// Meant for `numerator >= 0` and `denominator > 0`.
pub open spec fn rounded_ratio(numerator: int, denominator: int) -> int {
    (2 * numerator + denominator) / (2 * denominator)
}

/// `rounded_ratio` is the nearest integer: twice its distance from the exact
/// ratio, scaled by the denominator, is at most the denominator.
pub proof fn lemma_rounded_ratio_is_nearest(numerator: int, denominator: int)
    requires
        0 <= numerator,
        0 < denominator,
    ensures
        0 <= rounded_ratio(numerator, denominator),
        2 * numerator - denominator < 2 * denominator * rounded_ratio(numerator, denominator),
        2 * denominator * rounded_ratio(numerator, denominator) <= 2 * numerator + denominator,
{
    let x = 2 * numerator + denominator;
    let m = 2 * denominator;
    lemma_fundamental_div_mod(x, m);
    assert(x == m * (x / m) + x % m);
    assert(0 <= x % m < m);
    assert(x / m >= 0) by (nonlinear_arith)
        requires
            x >= 0,
            m > 0,
            x == m * (x / m) + x % m,
            0 <= x % m < m,
    ;
}

/// A ratio of at most `bound` rounds to at most `bound`.
pub proof fn lemma_rounded_ratio_bounded(numerator: int, denominator: int, bound: int)
    requires
        0 <= numerator,
        0 < denominator,
        numerator <= bound * denominator,
    ensures
        rounded_ratio(numerator, denominator) <= bound,
{
    lemma_rounded_ratio_is_nearest(numerator, denominator);
    let q = rounded_ratio(numerator, denominator);
    assert(q <= bound) by (nonlinear_arith)
        requires
            2 * denominator * q <= 2 * numerator + denominator,
            numerator <= bound * denominator,
            0 < denominator,
    ;
}

/// A ratio that is itself an integer rounds to that integer.
pub proof fn lemma_rounded_ratio_of_multiple(factor: int, denominator: int)
    requires
        0 <= factor,
        0 < denominator,
    ensures
        rounded_ratio(factor * denominator, denominator) == factor,
{
    assert(2 * (factor * denominator) + denominator == factor * (2 * denominator) + denominator)
        by (nonlinear_arith);
    lemma_fundamental_div_mod_converse(
        2 * (factor * denominator) + denominator,
        2 * denominator,
        factor,
        denominator,
    );
}

/// Computes the rounded ratio without any intermediate overflow.
pub fn round_ratio(numerator: u128, denominator: u128) -> (rounded: u128)
    requires
        denominator > 0,
    ensures
        rounded == rounded_ratio(numerator as int, denominator as int),
{
    let quotient: u128 = numerator / denominator;
    let remainder: u128 = numerator % denominator;
    proof {
        let n = numerator as int;
        let d = denominator as int;
        let q = quotient as int;
        let r = remainder as int;
        lemma_fundamental_div_mod(n, d);
        assert(n == d * q + r);
        if r >= d - r {
            assert(2 * n + d == (2 * d) * (q + 1) + (2 * r - d)) by (nonlinear_arith)
                requires
                    n == d * q + r,
            ;
            lemma_fundamental_div_mod_converse(2 * n + d, 2 * d, q + 1, 2 * r - d);
        } else {
            assert(2 * n + d == (2 * d) * q + (2 * r + d)) by (nonlinear_arith)
                requires
                    n == d * q + r,
            ;
            lemma_fundamental_div_mod_converse(2 * n + d, 2 * d, q, 2 * r + d);
        }
    }
    if remainder >= denominator - remainder {
        proof {
            assert(quotient < u128::MAX) by (nonlinear_arith)
                requires
                    numerator as int == (denominator as int) * (quotient as int) + (remainder as int),
                    remainder as int >= denominator as int - remainder as int,
                    denominator > 0,
                    remainder >= 0,
                    numerator <= u128::MAX,
            ;
        }
        quotient + 1
    } else {
        quotient
    }
}

} // verus!
