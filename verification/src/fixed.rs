//! The fixed-point number model shared by the whole crate.
//!
//! A quantity is an `i128` counting units of `1 / SCALE`; the value `1.0`
//! is `SCALE` units. Rounding to this grid is "nearest, ties away from
//! zero", the policy applied by matrix multiplication and inversion.

use vstd::arithmetic::div_mod::{
    lemma_fundamental_div_mod, lemma_fundamental_div_mod_converse, lemma_mod_bound,
};
use vstd::math::abs;
use vstd::prelude::*;

verus! {

/// Number of fixed-point units in 1.0: quantities have five decimal places.
pub const SCALE: i128 = 100_000;

/// Scale of determinant results: `SCALE` to the fourth power, so that the
/// determinant of a matrix of up to 4 x 4 grid-aligned entries is exact.
pub const DET_SCALE: i128 = 100_000_000_000_000_000_000;

/// Absolute tolerance of every approximate comparison: 0.001, in units.
pub const TOLERANCE: i128 = 100;

/// Magnitude bound on the inputs of the rounded division: keeps all its
/// intermediate computations inside `u128`.
pub const DIV_LIMIT: i128 = 100_000_000_000_000_000_000_000_000_000_000_000_000;

/// The nearest integer to `num / den`, with ties rounded away from zero.
pub open spec fn round_away(num: int, den: int) -> int
    recommends
        den != 0,
{
    let m = abs(num) as int;
    let a = abs(den) as int;
    let q = (2 * m + a) / (2 * a);
    if (num < 0) == (den < 0) {
        q
    } else {
        -q
    }
}

/// Rounded division on fixed-point numbers: nearest, ties away from zero.
pub fn div_round_away(num: i128, den: i128) -> (r: i128)
    requires
        den != 0,
        -DIV_LIMIT <= num <= DIV_LIMIT,
        -DIV_LIMIT <= den <= DIV_LIMIT,
    ensures
        r as int == round_away(num as int, den as int),
{
    let m: u128 = if num >= 0 {
        num as u128
    } else {
        (-num) as u128
    };
    let a: u128 = if den >= 0 {
        den as u128
    } else {
        (-den) as u128
    };
    let q: u128 = (2 * m + a) / (2 * a);
    proof {
        assert(m as int == abs(num as int));
        assert(a as int == abs(den as int));
        assert(1 <= a as int <= DIV_LIMIT);
        let x: int = 2 * (m as int) + (a as int);
        let d: int = 2 * (a as int);
        assert(q as int == x / d);
        lemma_fundamental_div_mod(x, d);
        lemma_mod_bound(x, d);
        assert(x == d * (x / d) + (x % d));
        assert((x / d) * d <= x) by (nonlinear_arith)
            requires
                x == d * (x / d) + (x % d),
                0 <= x % d,
        ;
        assert(q as int <= m as int + 1) by (nonlinear_arith)
            requires
                a as int >= 1,
                m as int >= 0,
                q as int >= 0,
                q as int * (2 * (a as int)) <= 2 * (m as int) + (a as int),
        ;
    }
    let qi: i128 = q as i128;
    if (num < 0) == (den < 0) {
        qi
    } else {
        -qi
    }
}

/// Whether two fixed-point numbers agree within the absolute tolerance.
pub fn within_tolerance(a: i128, b: i128) -> (r: bool)
    ensures
        r == (abs(a as int - b as int) <= TOLERANCE),
{
    let hi: i128 = if a >= b {
        a
    } else {
        b
    };
    let lo: i128 = if a >= b {
        b
    } else {
        a
    };
    if lo >= 0 {
        hi - lo <= TOLERANCE
    } else {
        hi <= lo + TOLERANCE
    }
}

/// The rounded quotient is no larger in magnitude than the dividend
/// (plus one, for a divisor of magnitude one and the tie step).
pub proof fn lemma_round_away_magnitude(num: int, den: int)
    requires
        den != 0,
    ensures
        -abs(num) - 1 <= round_away(num, den) <= abs(num) + 1,
{
    let m = abs(num) as int;
    let a = abs(den) as int;
    let q = (2 * m + a) / (2 * a);
    lemma_fundamental_div_mod(2 * m + a, 2 * a);
    lemma_mod_bound(2 * m + a, 2 * a);
    assert(2 * m + a == (2 * a) * q + (2 * m + a) % (2 * a));
    assert(q * (2 * a) <= 2 * m + a) by (nonlinear_arith)
        requires
            2 * m + a == (2 * a) * q + (2 * m + a) % (2 * a),
            0 <= (2 * m + a) % (2 * a),
    ;
    assert(0 <= q) by (nonlinear_arith)
        requires
            2 * m + a == (2 * a) * q + (2 * m + a) % (2 * a),
            (2 * m + a) % (2 * a) < 2 * a,
            a >= 1,
            m >= 0,
    ;
    assert(q <= m + 1) by (nonlinear_arith)
        requires
            a >= 1,
            m >= 0,
            q >= 0,
            q * (2 * a) <= 2 * m + a,
    ;
}

/// Rounding a quantity that is already a multiple of the divisor is exact.
pub proof fn lemma_round_away_exact(v: int, den: int)
    requires
        den > 0,
    ensures
        round_away(v * den, den) == v,
{
    let num = v * den;
    assert(abs(num) == abs(v) * den) by (nonlinear_arith)
        requires
            den > 0,
            num == v * den,
    ;
    let m = abs(num) as int;
    let a = abs(den) as int;
    assert(a == den);
    assert(2 * m + a == (abs(v) as int) * (2 * a) + a) by (nonlinear_arith)
        requires
            m == abs(v) * den,
            a == den,
    ;
    lemma_fundamental_div_mod_converse(2 * m + a, 2 * a, abs(v) as int, a);
    assert((2 * m + a) / (2 * a) == abs(v) as int);
    if v >= 0 {
        assert(num >= 0) by (nonlinear_arith)
            requires
                v >= 0,
                den > 0,
                num == v * den,
        ;
    } else {
        assert(num < 0) by (nonlinear_arith)
            requires
                v < 0,
                den > 0,
                num == v * den,
        ;
    }
}

/// The rounded quotient is within half a unit of the exact quotient:
/// `|round_away(num, den) * den - num| <= |den| / 2` (stated doubled to
/// stay in integers).
pub proof fn lemma_round_away_error(num: int, den: int)
    requires
        den != 0,
    ensures
        2 * abs(round_away(num, den) * den - num) <= abs(den),
{
    let m = abs(num) as int;
    let a = abs(den) as int;
    let q = (2 * m + a) / (2 * a);
    lemma_fundamental_div_mod(2 * m + a, 2 * a);
    let rem = (2 * m + a) % (2 * a);
    assert(2 * m + a == (2 * a) * q + rem);
    assert(0 <= rem < 2 * a);
    // 2 * (q * a - m) == a - rem, so |2 * (q * a - m)| <= a.
    assert(2 * (q * a - m) == a - rem) by (nonlinear_arith)
        requires
            2 * m + a == (2 * a) * q + rem,
    ;
    assert(-a <= a - rem <= a);
    let r = round_away(num, den);
    if num >= 0 && den > 0 {
        assert(r == q && m == num && a == den);
        assert(2 * abs(r * den - num) <= a);
    } else if num < 0 && den > 0 {
        assert(r == -q && m == -num && a == den);
        assert(r * den - num == -(q * a - m)) by (nonlinear_arith)
            requires
                r == -q,
                a == den,
                m == -num,
        ;
        assert(2 * abs(r * den - num) <= a);
    } else if num >= 0 && den < 0 {
        assert(r == -q && m == num && a == -den);
        assert(r * den - num == q * a - m) by (nonlinear_arith)
            requires
                r == -q,
                a == -den,
                m == num,
        ;
        assert(2 * abs(r * den - num) <= a);
    } else {
        assert(r == q && m == -num && a == -den);
        assert(r * den - num == -(q * a - m)) by (nonlinear_arith)
            requires
                r == q,
                a == -den,
                m == -num,
        ;
        assert(2 * abs(r * den - num) <= a);
    }
}

} // verus!
