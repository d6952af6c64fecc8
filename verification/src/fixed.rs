//! Fixed-point decimal amounts.
//!
//! Every monetary quantity in this crate is a count of `units`, where one
//! whole currency unit is `SCALE_UNITS` units: amounts carry exactly eight
//! fractional decimal digits.  All arithmetic that can leave that scale
//! (products and quotients of amounts) is rounded back to it immediately,
//! with round-half-to-even ("banker's") rounding, so repeated operations
//! never accumulate representational drift.

use vstd::prelude::*;

verus! {

use vstd::arithmetic::div_mod::{
    lemma_fundamental_div_mod,
    lemma_fundamental_div_mod_converse,
    lemma_mod_division_less_than_divisor,
    lemma_div_nonincreasing,
    lemma_div_pos_is_pos,
};

/// Number of fixed-point units in one whole currency unit (eight fractional
/// decimal digits).
pub const SCALE_UNITS: i128 = 100_000_000;

/// `SCALE_UNITS * SCALE_UNITS`: the excess scale carried by the product of
/// two amounts, or by the product of an amount pair and a rate.
pub const SCALE_UNITS_SQUARED: i128 = 10_000_000_000_000_000;

/// Largest magnitude, in units, of any amount the ledger stores or accepts.
/// Keeping every amount within this bound keeps every intermediate product
/// of two amounts inside the machine integer range.
pub const MAX_AMOUNT_UNITS: i128 = 1_000_000_000_000_000_000;

/// Bound on the numerators handed to `round_div`; far above anything the
/// ledger produces, far below the machine integer limit.
pub const ROUND_INPUT_LIMIT: i128 = 10_000_000_000_000_000_000_000_000_000_000_000_000;

/// An amount, in units, that the ledger can store.
pub open spec fn representable(v: int) -> bool {
    -(MAX_AMOUNT_UNITS as int) <= v <= MAX_AMOUNT_UNITS as int
}

/// A monetary or quantity value in fixed-point decimal: `units` counts
/// hundred-millionths of a whole unit, so `Amount { units: 150_000_000 }`
/// is one and a half.
#[derive(Clone, Copy, Debug, PartialEq, Eq, Hash, Structural)]
pub struct Amount {
    pub units: i128,
}

impl Amount {
    /// The amount holding exactly `units` hundred-millionths.
    pub fn from_units(units: i128) -> (res: Amount)
        ensures
            res.units == units,
    {
        Amount { units }
    }

    /// Zero.
    pub fn zero() -> (res: Amount)
        ensures
            res.units == 0,
    {
        Amount { units: 0 }
    }
}

/// `n / d` rounded to the nearest integer, ties to the even neighbour
/// (banker's rounding, the rounding the fixed scale uses at every step).
pub open spec fn round_half_even(n: int, d: int) -> int
    recommends
        d > 0,
{
    let q: int = n / d;
    let r: int = n % d;
    if 2 * r < d {
        q
    } else if 2 * r > d {
        q + 1
    } else if q % 2 == 0 {
        q
    } else {
        q + 1
    }
}

/// An exact quotient is returned unchanged.
pub proof fn lemma_round_half_even_exact(k: int, d: int)
    requires
        d > 0,
    ensures
        round_half_even(k * d, d) == k,
{
    lemma_fundamental_div_mod_converse(k * d, d, k, 0);
}

proof fn lemma_negated_parity(q: int)
    ensures
        q % 2 == 0 ==> (-q - 1) % 2 == 1,
        q % 2 == 1 ==> (-q - 1) % 2 == 0,
{
    lemma_fundamental_div_mod(q, 2);
    lemma_mod_division_less_than_divisor(q, 2);
    let h: int = q / 2;
    if q % 2 == 0 {
        assert(-q - 1 == (-h - 1) * 2 + 1) by (nonlinear_arith)
            requires
                q == 2 * h,
        ;
        lemma_fundamental_div_mod_converse(-q - 1, 2, -h - 1, 1);
    } else if q % 2 == 1 {
        assert(-q - 1 == (-h - 1) * 2 + 0) by (nonlinear_arith)
            requires
                q == 2 * h + 1,
        ;
        lemma_fundamental_div_mod_converse(-q - 1, 2, -h - 1, 0);
    }
}

/// Banker's rounding is an odd function of the numerator.
pub proof fn lemma_round_half_even_neg(n: int, d: int)
    requires
        d > 0,
        n >= 0,
    ensures
        round_half_even(-n, d) == -round_half_even(n, d),
{
    lemma_fundamental_div_mod(n, d);
    lemma_mod_division_less_than_divisor(n, d);
    let q: int = n / d;
    let r: int = n % d;
    if r == 0 {
        assert(-n == (-q) * d + 0) by (nonlinear_arith)
            requires
                n == d * q,
        ;
        lemma_fundamental_div_mod_converse(-n, d, -q, 0);
    } else {
        assert(-n == (-q - 1) * d + (d - r)) by (nonlinear_arith)
            requires
                n == d * q + r,
        ;
        lemma_fundamental_div_mod_converse(-n, d, -q - 1, d - r);
        if 2 * r == d {
            lemma_negated_parity(q);
        }
    }
}

/// Floor quotient and remainder of a nonnegative dividend.
pub(crate) fn divmod_nonneg(n: i128, d: i128) -> (res: (i128, i128))
    requires
        0 <= n,
        0 < d,
    ensures
        res.0 == n as int / d as int,
        res.1 == n as int % d as int,
        0 <= res.0 <= n,
        0 <= res.1 < d,
{
    let nu: u128 = n as u128;
    let du: u128 = d as u128;
    let qu: u128 = nu / du;
    let ru: u128 = nu % du;
    proof {
        lemma_div_nonincreasing(n as int, d as int);
        lemma_div_pos_is_pos(n as int, d as int);
        lemma_mod_division_less_than_divisor(n as int, d as int);
    }
    (qu as i128, ru as i128)
}

/// Applies the rounding decision once a division has been split into a
/// floor quotient and a remainder.
pub(crate) fn bankers_round_from_parts(q: i128, r: i128, d: i128) -> (res: i128)
    requires
        0 <= q,
        q < i128::MAX,
        0 <= r < d,
        d <= ROUND_INPUT_LIMIT,
    ensures
        res == round_half_even(q as int * d as int + r as int, d as int),
        res == q || res == q + 1,
{
    proof {
        lemma_fundamental_div_mod_converse(
            q as int * d as int + r as int,
            d as int,
            q as int,
            r as int,
        );
    }
    let r2: i128 = 2 * r;
    if r2 < d {
        q
    } else if r2 > d {
        q + 1
    } else {
        let qm: u128 = (q as u128) % 2;
        if qm == 0 {
            q
        } else {
            q + 1
        }
    }
}

/// `n / d` in fixed point: banker's rounding of the exact quotient.
pub fn round_div(n: i128, d: i128) -> (res: i128)
    requires
        -ROUND_INPUT_LIMIT <= n <= ROUND_INPUT_LIMIT,
        0 < d <= ROUND_INPUT_LIMIT,
    ensures
        res == round_half_even(n as int, d as int),
        0 <= n ==> 0 <= res <= n as int / d as int + 1,
        n < 0 ==> -((-n as int) / d as int) - 1 <= res <= 0,
{
    if n >= 0 {
        let (q, r): (i128, i128) = divmod_nonneg(n, d);
        let res: i128 = bankers_round_from_parts(q, r, d);
        proof {
            lemma_fundamental_div_mod(n as int, d as int);
        }
        res
    } else {
        let m: i128 = -n;
        let (q, r): (i128, i128) = divmod_nonneg(m, d);
        let w: i128 = bankers_round_from_parts(q, r, d);
        proof {
            lemma_fundamental_div_mod(m as int, d as int);
            lemma_round_half_even_neg(m as int, d as int);
        }
        -w
    }
}

} // verus!
