//! Round-to-nearest integer division, the rounding rule of every reward
//! formula of the engine: halves round up, matching rounding of a positive
//! real to the nearest whole number.

use vstd::arithmetic::div_mod::lemma_fundamental_div_mod;
use vstd::arithmetic::div_mod::lemma_fundamental_div_mod_converse;
use vstd::prelude::*;

verus! {

/// `n / d` rounded to the nearest integer, halves up.
pub open spec fn rounded_div(n: int, d: int) -> int
    recommends
        n >= 0,
        d >= 1,
{
    (2 * n + d) / (2 * d)
}

/// Rounding never loses or gains a whole unit: the result lies between the
/// floor and the ceiling of the exact quotient.
pub proof fn lemma_rounded_div_bounds(n: int, d: int)
    requires
        n >= 0,
        d >= 1,
    ensures
        n / d <= rounded_div(n, d) <= n / d + 1,
{
    let q = n / d;
    let r = n % d;
    lemma_fundamental_div_mod(n, d);
    assert(2 * n + d == q * (2 * d) + (2 * r + d)) by (nonlinear_arith)
        requires
            n == d * q + r,
    ;
    if 2 * r < d {
        lemma_fundamental_div_mod_converse(2 * n + d, 2 * d, q, 2 * r + d);
    } else {
        assert(2 * n + d == (q + 1) * (2 * d) + (2 * r - d)) by (nonlinear_arith)
            requires
                n == d * q + r,
        ;
        lemma_fundamental_div_mod_converse(2 * n + d, 2 * d, q + 1, 2 * r - d);
    }
}

/// Integer division nearly distributes over a split of the dividend: summing
/// the two quotients loses at most one unit against the whole.
pub proof fn lemma_div_add_bounds(a: int, b: int, d: int)
    requires
        a >= 0,
        b >= 0,
        d >= 1,
    ensures
        a / d + b / d <= (a + b) / d <= a / d + b / d + 1,
{
    let qa = a / d;
    let ra = a % d;
    let qb = b / d;
    let rb = b % d;
    lemma_fundamental_div_mod(a, d);
    lemma_fundamental_div_mod(b, d);
    assert(a + b == (qa + qb) * d + (ra + rb)) by (nonlinear_arith)
        requires
            a == d * qa + ra,
            b == d * qb + rb,
    ;
    if ra + rb < d {
        lemma_fundamental_div_mod_converse(a + b, d, qa + qb, ra + rb);
    } else {
        assert(a + b == (qa + qb + 1) * d + (ra + rb - d)) by (nonlinear_arith)
            requires
                a == d * qa + ra,
                b == d * qb + rb,
        ;
        lemma_fundamental_div_mod_converse(a + b, d, qa + qb + 1, ra + rb - d);
    }
}

/// Compute `rounded_div` on wide words: the quotient, plus one when the
/// remainder reaches half the divisor.
pub fn rounded_div_u128(n: u128, d: u128) -> (r: u128)
    requires
        d >= 1,
    ensures
        r == rounded_div(n as int, d as int),
{
    let q = n / d;
    let rem = n % d;
    proof {
        let ni = n as int;
        let di = d as int;
        let qi = q as int;
        let ri = rem as int;
        lemma_fundamental_div_mod(ni, di);
        assert(2 * ni + di == qi * (2 * di) + (2 * ri + di)) by (nonlinear_arith)
            requires
                ni == di * qi + ri,
        ;
        if 2 * ri < di {
            lemma_fundamental_div_mod_converse(2 * ni + di, 2 * di, qi, 2 * ri + di);
        } else {
            assert(2 * ni + di == (qi + 1) * (2 * di) + (2 * ri - di)) by (nonlinear_arith)
                requires
                    ni == di * qi + ri,
            ;
            lemma_fundamental_div_mod_converse(2 * ni + di, 2 * di, qi + 1, 2 * ri - di);
        }
    }
    if rem >= d - rem {
        proof {
            assert(d >= 2);
            assert(q as int <= (u128::MAX as int) / 2) by (nonlinear_arith)
                requires
                    n as int == (d as int) * (q as int) + (rem as int),
                    d as int >= 2,
                    rem as int >= 0,
                    q as int >= 0,
                    n as int <= u128::MAX as int,
            ;
        }
        q + 1
    } else {
        q
    }
}

} // verus!
