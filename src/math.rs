//! Percentage arithmetic on token amounts, exact and free of overflow.

use vstd::prelude::*;
use vstd::arithmetic::div_mod::lemma_fundamental_div_mod_converse;

verus! {

/// `floor(100 * part / whole)`, capped at `u32::MAX`.
pub open spec fn percent_floor_spec(part: int, whole: int) -> int {
    let p = (100 * part) / whole;
    if p > u32::MAX {
        u32::MAX as int
    } else {
        p
    }
}

/// `floor(100 * part / whole)` for `part < whole`, by repeated addition so
/// that no intermediate value exceeds `2 * whole`.
fn percent_of_remainder(part: u128, whole: u128) -> (r: u32)
    requires
        part < whole,
    ensures
        r == (100 * part) / (whole as int),
        r <= 100,
{
    let mut q: u32 = 0;
    let mut rem: u128 = 0;
    let mut k: u32 = 0;
    while k < 100
        invariant
            part < whole,
            k <= 100,
            q <= k,
            rem < whole,
            q * whole + rem == k * part,
        decreases 100 - k,
    {
        let ghost q_prev = q as int;
        let ghost k_prev = k as int;
        if rem >= whole - part {
            rem = rem - (whole - part);
            q = q + 1;
            assert(q * whole == q_prev * whole + whole) by (nonlinear_arith)
                requires
                    q == q_prev + 1,
            ;
        } else {
            rem = rem + part;
        }
        k = k + 1;
        assert(k * part == k_prev * part + part) by (nonlinear_arith)
            requires
                k == k_prev + 1,
        ;
    }
    proof {
        lemma_fundamental_div_mod_converse(100 * part, whole as int, q as int, rem as int);
    }
    q
}

/// `floor(100 * part / whole)`, capped at `u32::MAX`.
pub fn percent_floor(part: u128, whole: u128) -> (r: u32)
    requires
        whole > 0,
    ensures
        r == percent_floor_spec(part as int, whole as int),
{
    let q0 = part / whole;
    let r0 = part % whole;
    let cap: u128 = (u32::MAX / 100) as u128;
    let frac = percent_of_remainder(r0, whole);
    proof {
        assert(part == whole * q0 + r0) by {
            vstd::arithmetic::div_mod::lemma_fundamental_div_mod(part as int, whole as int);
        }
        assert(100 * part == (100 * q0) * whole + 100 * r0) by (nonlinear_arith)
            requires
                part == whole * q0 + r0,
        ;
        let f = (100 * r0) / (whole as int);
        let m = (100 * r0) % (whole as int);
        assert(100 * r0 == f * whole + m) by {
            vstd::arithmetic::div_mod::lemma_fundamental_div_mod(100 * r0, whole as int);
        }
        assert(0 <= m < whole) by {
            vstd::arithmetic::div_mod::lemma_mod_bound(100 * r0, whole as int);
        }
        assert(100 * part == (100 * q0 + f) * whole + m) by (nonlinear_arith)
            requires
                100 * part == (100 * q0) * whole + 100 * r0,
                100 * r0 == f * whole + m,
        ;
        lemma_fundamental_div_mod_converse(100 * part, whole as int, 100 * q0 + f, m);
    }
    if q0 > cap {
        proof {
            assert(100 * q0 + frac > u32::MAX);
        }
        u32::MAX
    } else {
        let total: u64 = 100 * (q0 as u64) + frac as u64;
        if total > u32::MAX as u64 {
            u32::MAX
        } else {
            total as u32
        }
    }
}

/// Drawdown of `value` against `amount`: `max(0, floor((amount - value) * 100 / amount))`.
pub open spec fn drawdown_spec(amount: int, value: int) -> int {
    if value >= amount {
        0
    } else {
        ((amount - value) * 100) / amount
    }
}

/// `drawdown_spec`, capped at `u32::MAX`.
pub open spec fn drawdown_capped(amount: int, value: int) -> int {
    if drawdown_spec(amount, value) > u32::MAX {
        u32::MAX as int
    } else {
        drawdown_spec(amount, value)
    }
}

/// The drawdown percentage of `value` against a positive `amount`, capped at
/// `u32::MAX` (reached only by values far below zero).
pub fn drawdown_percent(amount: i128, value: i128) -> (r: u32)
    requires
        amount > 0,
    ensures
        r == drawdown_capped(amount as int, value as int),
{
    if value >= amount {
        return 0;
    }
    let loss: u128 = if value >= 0 {
        (amount - value) as u128
    } else {
        let below: u128 = ((-(value + 1)) as u128) + 1;
        (amount as u128) + below
    };
    assert((amount - value) * 100 == 100 * (amount - value));
    percent_floor(loss, amount as u128)
}

/// Penalty withheld on early exit: `floor(max(value, 0) * percent / 100)`.
pub open spec fn penalty_spec(value: int, percent: int) -> int {
    if value <= 0 {
        0
    } else {
        (value * percent) / 100
    }
}

/// The early-exit penalty on `value` at `percent` (at most 100), computed
/// without forming the full product.
pub fn exit_penalty(value: i128, percent: u32) -> (r: i128)
    requires
        percent <= 100,
    ensures
        r == penalty_spec(value as int, percent as int),
        0 <= r,
        value > 0 ==> r <= value,
{
    if value <= 0 {
        return 0;
    }
    let q = value / 100;
    let m = value % 100;
    let p = percent as i128;
    proof {
        assert(value == 100 * q + m);
        assert(0 <= q * p <= q * 100) by (nonlinear_arith)
            requires
                0 <= q,
                0 <= p <= 100,
        ;
        assert(0 <= m * p < 10000) by (nonlinear_arith)
            requires
                0 <= m < 100,
                0 <= p <= 100,
        ;
        let f = (m * p) / 100;
        let g = (m * p) % 100;
        assert(m * p == f * 100 + g && 0 <= g < 100) by {
            vstd::arithmetic::div_mod::lemma_fundamental_div_mod(m * p, 100);
            vstd::arithmetic::div_mod::lemma_mod_bound(m * p, 100);
        }
        assert(value * p == (q * p + f) * 100 + g) by (nonlinear_arith)
            requires
                value == 100 * q + m,
                m * p == f * 100 + g,
        ;
        lemma_fundamental_div_mod_converse(value * p, 100, q * p + f, g);
        assert(f <= m) by (nonlinear_arith)
            requires
                m * p == f * 100 + g,
                0 <= g,
                0 <= p <= 100,
                0 <= m,
        ;
    }
    q * p + (m * p) / 100
}

} // verus!
