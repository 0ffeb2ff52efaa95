//! Rounding a quotient to the nearest whole number of teeth.
//!
//! Ties are rounded away from zero: a quotient of exactly `10.5` becomes
//! `11`. All quantities here are non-negative, so "away from zero" is "up".

use vstd::prelude::*;
use vstd::arithmetic::div_mod::lemma_fundamental_div_mod;
use vstd::arithmetic::div_mod::lemma_fundamental_div_mod_converse;

verus! {

/// The quotient `n / d` rounded to the nearest natural number, halves up.
pub open spec fn round_div(n: nat, d: nat) -> nat
    recommends
        d > 0,
{
    (2 * n + d) / (2 * d)
}

/// A tooth count forced into the range a gear can have: at least one tooth,
/// and no more than fits the machine's counter.
pub open spec fn clamp_teeth(x: nat) -> nat {
    if x < 1 {
        1
    } else if x > u32::MAX {
        u32::MAX as nat
    } else {
        x
    }
}

/// The tooth count that best realises `teeth * num / den`.
pub open spec fn scaled_teeth(teeth: nat, num: nat, den: nat) -> nat
    recommends
        den > 0,
{
    clamp_teeth(round_div(teeth * num, den))
}

/// `round_div(n, d)` lies within one half of the exact quotient: it is the
/// whole number `r` with `r - 1/2 <= n / d < r + 1/2`.
pub proof fn lemma_round_div_nearest(n: nat, d: nat)
    requires
        d > 0,
    ensures
        2 * round_div(n, d) * d - d <= 2 * n < 2 * round_div(n, d) * d + d,
{
    let x = (2 * n + d) as int;
    let m = (2 * d) as int;
    lemma_fundamental_div_mod(x, m);
    let q = x / m;
    assert(x == m * q + x % m);
    assert(0 <= x % m < m);
    assert(m * q == 2 * q * d) by (nonlinear_arith)
        requires
            m == 2 * d,
    ;
}

/// Only one whole number lies within one half of the exact quotient in the
/// sense of `lemma_round_div_nearest`, so that property defines `round_div`.
pub proof fn lemma_round_div_unique(n: nat, d: nat, r: nat)
    requires
        d > 0,
        2 * r * d - d <= 2 * n < 2 * r * d + d,
    ensures
        r == round_div(n, d),
{
    let x = (2 * n + d) as int;
    let m = (2 * d) as int;
    let rem = x - 2 * r * d;
    assert(r * m == 2 * r * d) by (nonlinear_arith)
        requires
            m == 2 * d,
    ;
    lemma_fundamental_div_mod_converse(x, m, r as int, rem);
}

/// A quotient that is already whole is left as it is.
pub proof fn lemma_round_div_exact(q: nat, d: nat)
    requires
        d > 0,
    ensures
        round_div(q * d, d) == q,
{
    assert(2 * q * d == 2 * (q * d)) by (nonlinear_arith);
    lemma_round_div_unique(q * d, d, q);
}

/// Where no clamping is needed, the tooth count that realises
/// `teeth * num / den` is within half a tooth of that quotient.
pub proof fn lemma_scaled_teeth_nearest(teeth: nat, num: nat, den: nat)
    requires
        den > 0,
        1 <= round_div(teeth * num, den) <= u32::MAX,
    ensures
        2 * scaled_teeth(teeth, num, den) * den - den <= 2 * (teeth * num) < 2 * scaled_teeth(
            teeth,
            num,
            den,
        ) * den + den,
{
    lemma_round_div_nearest(teeth * num, den);
}

/// A tooth count that realises a quotient is a tooth count that a gear can
/// have: at least one, whatever the quotient.
pub proof fn lemma_scaled_teeth_bounds(teeth: nat, num: nat, den: nat)
    ensures
        1 <= scaled_teeth(teeth, num, den) <= u32::MAX,
{
}

/// The quotient `n / d` rounded to the nearest whole number, halves up.
pub fn round_div_u64(n: u64, d: u64) -> (r: u64)
    requires
        d > 0,
    ensures
        r == round_div(n as nat, d as nat),
{
    let quot: u64 = n / d;
    let rem: u64 = n % d;
    let up: bool = rem >= d - rem;
    proof {
        lemma_fundamental_div_mod(n as int, d as int);
        if up {
            assert(d >= 2);
            assert(quot * 2 <= d * quot) by (nonlinear_arith)
                requires
                    d >= 2,
                    quot >= 0,
            ;
        }
    }
    let r: u64 = if up {
        quot + 1
    } else {
        quot
    };
    proof {
        lemma_fundamental_div_mod(n as int, d as int);
        assert(d * quot == quot * d) by (nonlinear_arith);
        assert(2 * r * d == 2 * (r * d)) by (nonlinear_arith);
        assert(r * d == quot * d + (r - quot) * d) by (nonlinear_arith);
        assert((r - quot) * d == if r == quot { 0 } else { d as int }) by (nonlinear_arith)
            requires
                r == quot || r == quot + 1,
        ;
        lemma_round_div_unique(n as nat, d as nat, r as nat);
    }
    r
}

/// Rounds `teeth * num / den` to the nearest tooth count, halves up, and
/// keeps the result between one tooth and `u32::MAX` teeth.
pub fn scale_teeth(teeth: u32, num: u32, den: u32) -> (r: u32)
    requires
        den > 0,
    ensures
        r == scaled_teeth(teeth as nat, num as nat, den as nat),
        r >= 1,
{
    assert(teeth * num <= 0xffff_ffff * 0xffff_ffff) by (nonlinear_arith)
        requires
            teeth <= 0xffff_ffff,
            num <= 0xffff_ffff,
    ;
    let rounded: u64 = round_div_u64((teeth as u64) * (num as u64), den as u64);
    if rounded < 1 {
        1
    } else if rounded > 0xffff_ffff {
        0xffff_ffff
    } else {
        rounded as u32
    }
}

} // verus!
