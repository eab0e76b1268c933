//! The exchange-rate engine: precision-safe multiply-then-divide with
//! directional rounding and the anti-inflation virtual offset.
//!
//! Steady-state rates add a virtual offset of one to the pool's assets:
//! `shares_for_assets(a) = round(a * total_shares / (total_assets + 1))` and
//! `assets_for_shares(s) = round(s * (total_assets + 1) / total_shares)`.
//! On an empty pool (no shares issued) both conversions are the identity.

use vstd::prelude::*;
use crate::arith::{base128, base256, div_rem, mul_wide, wide_add, U256};
use vstd::arithmetic::div_mod::{
    lemma_div_is_ordered, lemma_fundamental_div_mod, lemma_fundamental_div_mod_converse_div,
};
use vstd::arithmetic::mul::{lemma_mul_inequality, lemma_mul_upper_bound};

verus! {

/// The direction a quotient is rounded.
#[derive(Clone, Copy, PartialEq, Eq, Structural, Debug)]
pub enum Rounding {
    Down,
    Up,
}

/// `n / d` rounded in the direction `round` (for `n >= 0`, `d >= 1`).
pub open spec fn div_round(n: int, d: int, round: Rounding) -> int {
    match round {
        Rounding::Down => n / d,
        Rounding::Up => (n + d - 1) / d,
    }
}

/// The exact mathematical value of `a * b / c` under the chosen rounding.
pub open spec fn mul_div_spec(a: int, b: int, c: int, round: Rounding) -> int {
    div_round(a * b, c, round)
}

/// Shares corresponding to `assets` at the pool state
/// (`total_assets`, `total_shares`), as a mathematical integer.
pub open spec fn shares_for_assets_spec(
    assets: int,
    total_assets: int,
    total_shares: int,
    round: Rounding,
) -> int {
    if total_shares == 0 {
        assets
    } else {
        div_round(assets * total_shares, total_assets + 1, round)
    }
}

/// Assets corresponding to `shares` at the pool state
/// (`total_assets`, `total_shares`), as a mathematical integer.
pub open spec fn assets_for_shares_spec(
    shares: int,
    total_assets: int,
    total_shares: int,
    round: Rounding,
) -> int {
    if total_shares == 0 {
        shares
    } else {
        div_round(shares * (total_assets + 1), total_shares, round)
    }
}

/// Division respects the order of the numerators.
proof fn lemma_div_round_mono(n1: int, n2: int, d: int, round: Rounding)
    requires
        0 <= n1 <= n2,
        1 <= d,
    ensures
        div_round(n1, d, round) <= div_round(n2, d, round),
{
    match round {
        Rounding::Down => {
            lemma_div_is_ordered(n1, n2, d);
        },
        Rounding::Up => {
            lemma_div_is_ordered(n1 + d - 1, n2 + d - 1, d);
        },
    }
}

/// An exact multiple of the divisor divides out exactly, either way rounded.
proof fn lemma_div_round_exact(b: int, d: int, round: Rounding)
    requires
        0 <= b,
        1 <= d,
    ensures
        div_round(b * d, d, round) == b,
{
    match round {
        Rounding::Down => {
            lemma_fundamental_div_mod_converse_div(b * d, d, b, 0);
        },
        Rounding::Up => {
            lemma_fundamental_div_mod_converse_div(b * d + d - 1, d, b, d - 1);
        },
    }
}

/// The quotient times the divisor does not exceed the dividend.
proof fn lemma_div_times_divisor_le(n: int, d: int)
    requires
        0 <= n,
        1 <= d,
    ensures
        (n / d) * d <= n,
        0 <= n / d,
{
    lemma_fundamental_div_mod(n, d);
    vstd::arithmetic::div_mod::lemma_div_pos_is_pos(n, d);
    assert(n == d * (n / d) + n % d);
    assert((n / d) * d == d * (n / d)) by (nonlinear_arith);
}

/// Law: on an empty pool both conversions are the identity, whatever the
/// rounding direction and pool assets.
pub proof fn lemma_bootstrap_identity(amount: int, total_assets: int, round: Rounding)
    ensures
        shares_for_assets_spec(amount, total_assets, 0, round) == amount,
        assets_for_shares_spec(amount, total_assets, 0, round) == amount,
{
}

/// Law: for a fixed pool state, both conversions are non-decreasing in the
/// converted amount.
pub proof fn lemma_conversion_monotonic(
    x1: int,
    x2: int,
    total_assets: int,
    total_shares: int,
    round: Rounding,
)
    requires
        0 <= x1 <= x2,
        0 <= total_assets,
        0 <= total_shares,
    ensures
        shares_for_assets_spec(x1, total_assets, total_shares, round) <= shares_for_assets_spec(
            x2,
            total_assets,
            total_shares,
            round,
        ),
        assets_for_shares_spec(x1, total_assets, total_shares, round) <= assets_for_shares_spec(
            x2,
            total_assets,
            total_shares,
            round,
        ),
{
    if total_shares != 0 {
        lemma_mul_inequality(x1, x2, total_shares);
        lemma_div_round_mono(x1 * total_shares, x2 * total_shares, total_assets + 1, round);
        lemma_mul_inequality(x1, x2, total_assets + 1);
        lemma_div_round_mono(
            x1 * (total_assets + 1),
            x2 * (total_assets + 1),
            total_shares,
            round,
        );
    }
}

/// Rounding up never falls below rounding down, and exceeds it by at most one.
proof fn lemma_div_round_up_bounds(n: int, d: int)
    requires
        0 <= n,
        1 <= d,
    ensures
        div_round(n, d, Rounding::Down) <= div_round(n, d, Rounding::Up),
        div_round(n, d, Rounding::Up) <= div_round(n, d, Rounding::Down) + 1,
{
    lemma_fundamental_div_mod(n, d);
    let q = n / d;
    let r = n % d;
    vstd::arithmetic::div_mod::lemma_div_pos_is_pos(n, d);
    if r == 0 {
        assert(n + d - 1 == q * d + (d - 1)) by (nonlinear_arith)
            requires
                n == d * q + r,
                r == 0,
        ;
        lemma_fundamental_div_mod_converse_div(n + d - 1, d, q, d - 1);
    } else {
        assert(n + d - 1 == (q + 1) * d + (r - 1)) by (nonlinear_arith)
            requires
                n == d * q + r,
        ;
        lemma_fundamental_div_mod_converse_div(n + d - 1, d, q + 1, r - 1);
    }
}

/// Law: each conversion rounded up exceeds the same conversion rounded down
/// by at most one.
pub proof fn lemma_rounding_direction(x: int, total_assets: int, total_shares: int)
    requires
        0 <= x,
        0 <= total_assets,
        0 <= total_shares,
    ensures
        shares_for_assets_spec(x, total_assets, total_shares, Rounding::Down)
            <= shares_for_assets_spec(x, total_assets, total_shares, Rounding::Up),
        shares_for_assets_spec(x, total_assets, total_shares, Rounding::Up)
            <= shares_for_assets_spec(x, total_assets, total_shares, Rounding::Down) + 1,
        assets_for_shares_spec(x, total_assets, total_shares, Rounding::Down)
            <= assets_for_shares_spec(x, total_assets, total_shares, Rounding::Up),
        assets_for_shares_spec(x, total_assets, total_shares, Rounding::Up)
            <= assets_for_shares_spec(x, total_assets, total_shares, Rounding::Down) + 1,
{
    if total_shares != 0 {
        vstd::arithmetic::mul::lemma_mul_nonnegative(x, total_shares as int);
        vstd::arithmetic::mul::lemma_mul_nonnegative(x, total_assets + 1);
        lemma_div_round_up_bounds(x * total_shares, total_assets + 1);
        lemma_div_round_up_bounds(x * (total_assets + 1), total_shares);
    }
}

/// With the share count held to at most one past the pool's assets (the
/// vault's standing invariant), converting assets to shares never yields more
/// shares than the assets put in.
pub proof fn lemma_shares_for_assets_le(assets: int, ta: int, ts: int, round: Rounding)
    requires
        0 <= assets,
        0 <= ta,
        0 <= ts <= ta + 1,
    ensures
        0 <= shares_for_assets_spec(assets, ta, ts, round) <= assets,
{
    if ts != 0 {
        lemma_mul_inequality(ts, ta + 1, assets);
        assert(assets * ts == ts * assets) by (nonlinear_arith);
        assert(assets * (ta + 1) == (ta + 1) * assets) by (nonlinear_arith);
        lemma_div_round_mono(assets * ts, assets * (ta + 1), ta + 1, round);
        lemma_div_round_exact(assets, ta + 1, round);
        match round {
            Rounding::Down => {
                vstd::arithmetic::div_mod::lemma_div_pos_is_pos(assets * ts, ta + 1);
            },
            Rounding::Up => {
                vstd::arithmetic::div_mod::lemma_div_pos_is_pos(assets * ts + ta, ta + 1);
            },
        }
    }
}

/// The deposit path: any share amount at most the down-rounded valuation of
/// `amount` costs (up-rounded) no more than `amount` assets, and at least the
/// shares themselves.
pub proof fn lemma_deposit_used_bounds(amount: int, ta: int, ts: int, shares: int)
    requires
        0 <= amount,
        0 <= ta,
        0 <= ts <= ta + 1,
        0 <= shares <= shares_for_assets_spec(amount, ta, ts, Rounding::Down),
    ensures
        assets_for_shares_spec(shares, ta, ts, Rounding::Up) <= amount,
        shares <= assets_for_shares_spec(shares, ta, ts, Rounding::Up),
{
    if ts == 0 {
    } else {
        let d = ta + 1;
        // shares <= (amount * ts) / d, so shares * d <= amount * ts.
        lemma_div_times_divisor_le(amount * ts, d);
        lemma_mul_inequality(shares, (amount * ts) / d, d);
        assert(shares * d <= amount * ts);
        // Dividing back by ts (up) stays at or below amount.
        lemma_div_round_mono(shares * d, amount * ts, ts, Rounding::Up);
        lemma_div_round_exact(amount, ts, Rounding::Up);
        assert(div_round(amount * ts, ts, Rounding::Up) == amount);
        // used >= shares since d >= ts.
        lemma_mul_inequality(ts, d, shares);
        assert(shares * ts == ts * shares) by (nonlinear_arith);
        assert(shares * d == d * shares) by (nonlinear_arith);
        lemma_div_round_mono(shares * ts, shares * d, ts, Rounding::Up);
        lemma_div_round_exact(shares, ts, Rounding::Up);
    }
}

/// The redeem path: paying out the down-rounded value of `s` shares keeps the
/// share count at most one past the remaining assets.
pub proof fn lemma_redeem_preserves_offset(s: int, ta: int, ts: int)
    requires
        0 <= s <= ts,
        1 <= ts <= ta + 1,
    ensures
        assets_for_shares_spec(s, ta, ts, Rounding::Down) <= ta + 1 - ts + s,
        0 <= assets_for_shares_spec(s, ta, ts, Rounding::Down),
{
    let d = ta + 1;
    assert(s * d <= ts * (s + d - ts)) by (nonlinear_arith)
        requires
            0 <= s <= ts,
            1 <= ts <= d,
    ;
    assert((s + d - ts) * ts == ts * (s + d - ts)) by (nonlinear_arith);
    lemma_div_round_mono(s * d, (s + d - ts) * ts, ts, Rounding::Down);
    lemma_div_round_exact(s + d - ts, ts, Rounding::Down);
    vstd::arithmetic::mul::lemma_mul_nonnegative(s, d);
    vstd::arithmetic::div_mod::lemma_div_pos_is_pos(s * d, ts);
}

/// The withdraw path: when `a` assets are within the owner's redeemable
/// value, the up-rounded share cost stays within the owner's balance, and the
/// burn keeps the share count at most one past the remaining assets.
pub proof fn lemma_withdraw_shares_bounds(a: int, bal: int, ta: int, ts: int)
    requires
        0 <= a,
        0 <= bal <= ts,
        1 <= ts <= ta + 1,
        a <= assets_for_shares_spec(bal, ta, ts, Rounding::Down),
    ensures
        shares_for_assets_spec(a, ta, ts, Rounding::Up) <= bal,
        0 <= shares_for_assets_spec(a, ta, ts, Rounding::Up),
        a <= ta + 1,
        ts + a <= ta + 1 + shares_for_assets_spec(a, ta, ts, Rounding::Up),
{
    let d = ta + 1;
    // a <= (bal * d) / ts, so a * ts <= bal * d.
    lemma_div_times_divisor_le(bal * d, ts);
    lemma_mul_inequality(a, (bal * d) / ts, ts);
    assert(a * ts <= bal * d) by (nonlinear_arith)
        requires
            a * ts <= ((bal * d) / ts) * ts,
            ((bal * d) / ts) * ts <= bal * d,
    ;
    // Shares burned stay within the balance.
    lemma_div_round_mono(a * ts, bal * d, d, Rounding::Up);
    lemma_div_round_exact(bal, d, Rounding::Up);
    assert(div_round(bal * d, d, Rounding::Up) == bal);
    vstd::arithmetic::mul::lemma_mul_nonnegative(a, ts);
    vstd::arithmetic::div_mod::lemma_div_pos_is_pos(a * ts + d - 1, d);
    // a <= d because bal's value is at most d.
    assert(bal * d <= ts * d) by (nonlinear_arith)
        requires
            0 <= bal <= ts,
            0 <= d,
    ;
    lemma_div_is_ordered(bal * d, ts * d, ts);
    lemma_div_times_divisor_le(bal * d, ts);
    assert(ts * d == d * ts) by (nonlinear_arith);
    lemma_div_round_exact(d, ts, Rounding::Down);
    assert(a <= d);
    // The burn covers the offset: shares >= ts + a - d.
    if ts + a - d > 0 {
        assert(a * ts >= (a + ts - d) * d) by (nonlinear_arith)
            requires
                0 <= a <= d,
                1 <= ts <= d,
        ;
        vstd::arithmetic::mul::lemma_mul_nonnegative(a + ts - d, d);
        lemma_div_round_mono((a + ts - d) * d, a * ts, d, Rounding::Up);
        lemma_div_round_exact(a + ts - d, d, Rounding::Up);
        lemma_div_round_up_bounds(a * ts, d);
    }
}

/// Multiplies two 128-bit quantities and divides by a third, computing the
/// 256-bit product exactly so the intermediate never wraps. Returns `None`
/// exactly when the rounded quotient does not fit in a `u128`.
pub fn mul_div(a: u128, b: u128, c: u128, round: Rounding) -> (r: Option<u128>)
    requires
        1 <= c,
    ensures
        r is Some <==> mul_div_spec(a as int, b as int, c as int, round) <= u128::MAX,
        r is Some ==> r->Some_0 == mul_div_spec(a as int, b as int, c as int, round),
{
    let num = mul_wide(a, b);
    proof {
        lemma_mul_upper_bound(a as int, u128::MAX as int, b as int, u128::MAX as int);
        assert(u128::MAX * u128::MAX + u128::MAX < base256()) by (nonlinear_arith)
            requires
                base256() == base128() * base128(),
                base128() == u128::MAX + 1,
        ;
    }
    let num = match round {
        Rounding::Down => num,
        Rounding::Up => wide_add(num, c - 1),
    };
    quotient_fit(num, c)
}

/// Returns the quotient when it fits in a single limb, `None` otherwise.
fn quotient_fit(num: U256, c: u128) -> (r: Option<u128>)
    requires
        1 <= c,
    ensures
        r is Some <==> num.value() / c as int <= u128::MAX,
        r is Some ==> r->Some_0 == num.value() / c as int,
{
    let (q, _rem) = div_rem(num, c);
    if q.hi == 0 {
        Some(q.lo)
    } else {
        proof {
            assert(q.value() > u128::MAX) by (nonlinear_arith)
                requires
                    q.value() == q.hi * base128() + q.lo,
                    q.hi >= 1,
                    q.lo >= 0,
                    base128() == u128::MAX + 1,
            ;
        }
        None
    }
}

/// Computes [`shares_for_assets_spec`]; `None` exactly when the result does
/// not fit in a `u128`.
pub fn shares_for_assets(assets: u128, total_assets: u128, total_shares: u128, round: Rounding) -> (r:
    Option<u128>)
    ensures
        r is Some <==> shares_for_assets_spec(
            assets as int,
            total_assets as int,
            total_shares as int,
            round,
        ) <= u128::MAX,
        r is Some ==> r->Some_0 == shares_for_assets_spec(
            assets as int,
            total_assets as int,
            total_shares as int,
            round,
        ),
{
    if total_shares == 0 {
        return Some(assets);
    }
    if total_assets < u128::MAX {
        return mul_div(assets, total_shares, total_assets + 1, round);
    }
    // The denominator is exactly 2^128: divide by taking the high limb.
    let num = mul_wide(assets, total_shares);
    proof {
        lemma_fundamental_div_mod_converse_div(num.value(), base128(), num.hi as int, num.lo as int);
    }
    match round {
        Rounding::Down => Some(num.hi),
        Rounding::Up => {
            if num.lo == 0 {
                proof {
                    lemma_fundamental_div_mod_converse_div(
                        num.value() + base128() - 1,
                        base128(),
                        num.hi as int,
                        base128() - 1,
                    );
                }
                Some(num.hi)
            } else {
                proof {
                    lemma_fundamental_div_mod_converse_div(
                        num.value() + base128() - 1,
                        base128(),
                        num.hi + 1,
                        num.lo - 1,
                    );
                }
                num.hi.checked_add(1)
            }
        },
    }
}

/// Computes [`assets_for_shares_spec`]; `None` exactly when the result does
/// not fit in a `u128`.
pub fn assets_for_shares(shares: u128, total_assets: u128, total_shares: u128, round: Rounding) -> (r:
    Option<u128>)
    ensures
        r is Some <==> assets_for_shares_spec(
            shares as int,
            total_assets as int,
            total_shares as int,
            round,
        ) <= u128::MAX,
        r is Some ==> r->Some_0 == assets_for_shares_spec(
            shares as int,
            total_assets as int,
            total_shares as int,
            round,
        ),
{
    if total_shares == 0 {
        return Some(shares);
    }
    if total_assets < u128::MAX {
        return mul_div(shares, total_assets + 1, total_shares, round);
    }
    // The numerator factor is exactly 2^128: the product is (shares, 0).
    let num = match round {
        Rounding::Down => U256 { hi: shares, lo: 0 },
        Rounding::Up => U256 { hi: shares, lo: total_shares - 1 },
    };
    quotient_fit(num, total_shares)
}

} // verus!
