//! Conversion between token amounts in a price range and liquidity.
//!
//! Square root prices are Q64.64, liquidity and token amounts are plain integers. With `L`
//! the liquidity of a range, token 0 is `L / lower - L / upper` and token 1 is
//! `L * upper - L * lower`. Below its range a position consists of token 0 only, above it of
//! token 1 only, inside of both.
//!
//! Inside the range both amounts are those of the whole range, whatever the price: they do not
//! follow the price from one end of the range to the other. So a position that was opened
//! outside its range and is closed inside it can be paid more than its deposit and the swaps
//! in between have brought in. With square root prices 1 to 4 and liquidity 100, a position
//! opened below the range deposits 75 of token 0, and closed at 2 it is paid 75 of token 0 and
//! 300 of token 1.

use vstd::arithmetic::div_mod::{
    lemma_div_denominator, lemma_fundamental_div_mod, lemma_fundamental_div_mod_converse,
};
use vstd::prelude::*;

use crate::arith::{
    div_wide, lemma_quotient, lemma_quotient_at_least, lemma_quotient_at_most, min_int, mul_div,
    mul_wide, sat, two_pow_128, Q64,
};
use crate::pool_core::swap_math::{
    get_amount_0_delta, get_amount_1_delta, lower_price, upper_price,
};

verus! {

/// Liquidity that an amount of token 0 makes up between two prices, rounded down and clamped
/// to 128 bits: `amount * lower * upper / (upper - lower)`.
pub open spec fn liquidity_of_0(a: u128, b: u128, amount: int) -> int {
    let lower = lower_price(a, b);
    let upper = upper_price(a, b);
    if lower == upper {
        0
    } else {
        sat((amount * lower * upper) / ((upper - lower) * Q64))
    }
}

/// Liquidity that an amount of token 1 makes up between two prices, rounded down and clamped
/// to 128 bits: `amount / (upper - lower)`.
pub open spec fn liquidity_of_1(a: u128, b: u128, amount: int) -> int {
    if a == b {
        0
    } else {
        sat((amount * Q64) / (upper_price(a, b) - lower_price(a, b)))
    }
}

/// Token 0 that liquidity stands for between two prices, rounded down:
/// `liquidity * (upper - lower) / (lower * upper)`. At a price of zero there is none.
pub open spec fn amount_0_of(a: u128, b: u128, liquidity: int) -> int {
    let lower = lower_price(a, b);
    let upper = upper_price(a, b);
    if lower == 0 {
        0
    } else {
        (liquidity * (upper - lower) * Q64) / (lower * upper)
    }
}

/// Token 1 that liquidity stands for between two prices, rounded down:
/// `liquidity * (upper - lower)`.
pub open spec fn amount_1_of(a: u128, b: u128, liquidity: int) -> int {
    (liquidity * (upper_price(a, b) - lower_price(a, b))) / Q64 as int
}

/// Liquidity of a deposit into the range from `lower` to `upper` at price `current`. Inside
/// the range both tokens are needed, and the scarcer one decides.
pub open spec fn liquidity_of_deposit(
    current: u128,
    lower: u128,
    upper: u128,
    amount_0: int,
    amount_1: int,
) -> int {
    if lower >= upper {
        0
    } else if current <= lower {
        liquidity_of_0(lower, upper, amount_0)
    } else if current >= upper {
        liquidity_of_1(lower, upper, amount_1)
    } else {
        min_int(
            liquidity_of_0(lower, upper, amount_0),
            liquidity_of_1(lower, upper, amount_1),
        )
    }
}

/// A token amount clamped at 64 bits.
pub open spec fn clamp_u64(x: int) -> u64 {
    if x > u64::MAX {
        u64::MAX
    } else {
        x as u64
    }
}

/// Token 0 of a position over the range from `lower` to `upper` at price `current`.
pub open spec fn token_0_of_position(
    current: u128,
    lower: u128,
    upper: u128,
    liquidity: int,
) -> u64 {
    if lower >= upper || current >= upper {
        0
    } else {
        clamp_u64(amount_0_of(lower, upper, liquidity))
    }
}

/// Token 1 of a position over the range from `lower` to `upper` at price `current`.
pub open spec fn token_1_of_position(
    current: u128,
    lower: u128,
    upper: u128,
    liquidity: int,
) -> u64 {
    if lower >= upper || current <= lower {
        0
    } else {
        clamp_u64(amount_1_of(lower, upper, liquidity))
    }
}

/// Liquidity of a deposit into a price range.
pub fn get_liquidity_for_amounts(
    sqrt_price_current: u128,
    sqrt_price_lower: u128,
    sqrt_price_upper: u128,
    amount_0: u64,
    amount_1: u64,
) -> (r: u128)
    ensures
        r == liquidity_of_deposit(
            sqrt_price_current,
            sqrt_price_lower,
            sqrt_price_upper,
            amount_0 as int,
            amount_1 as int,
        ),
{
    if sqrt_price_lower >= sqrt_price_upper {
        return 0;
    }
    if sqrt_price_current <= sqrt_price_lower {
        get_liquidity_for_amount_0(sqrt_price_lower, sqrt_price_upper, amount_0)
    } else if sqrt_price_current >= sqrt_price_upper {
        get_liquidity_for_amount_1(sqrt_price_lower, sqrt_price_upper, amount_1 as u128)
    } else {
        let l0: u128 = get_liquidity_for_amount_0(
            sqrt_price_lower,
            sqrt_price_upper,
            amount_0,
        );
        let l1: u128 = get_liquidity_for_amount_1(
            sqrt_price_lower,
            sqrt_price_upper,
            amount_1 as u128,
        );
        if l0 <= l1 {
            l0
        } else {
            l1
        }
    }
}

/// Liquidity of an amount of token 0 between two prices.
pub fn get_liquidity_for_amount_0(sqrt_price_a: u128, sqrt_price_b: u128, amount_0: u64) -> (r:
    u128)
    ensures
        r == liquidity_of_0(sqrt_price_a, sqrt_price_b, amount_0 as int),
{
    let (lower, upper) = if sqrt_price_a <= sqrt_price_b {
        (sqrt_price_a, sqrt_price_b)
    } else {
        (sqrt_price_b, sqrt_price_a)
    };
    let diff: u128 = upper - lower;
    if diff == 0 {
        return 0;
    }
    let ghost m: int = amount_0 * lower;
    let ghost x: int = m * upper;
    let ghost d: int = diff as int;
    let ghost q: int = Q64 as int;
    let (hi, lo) = mul_wide(amount_0 as u128, lower);
    proof {
        assert(x >= 0) by (nonlinear_arith)
            requires
                x == amount_0 * lower * upper,
        ;
        lemma_div_denominator(x, d, q);
        assert(d * q > 0) by (nonlinear_arith)
            requires
                d > 0,
                q > 0,
        ;
    }
    if hi >= diff {
        proof {
            assert(lower >= q) by (nonlinear_arith)
                requires
                    hi * two_pow_128() + lo == amount_0 * lower,
                    hi >= 1,
                    amount_0 < q,
                    q * q == two_pow_128(),
                    lo >= 0,
            ;
            assert(x >= (d * q) * two_pow_128()) by (nonlinear_arith)
                requires
                    hi * two_pow_128() + lo == m,
                    hi >= d,
                    lo >= 0,
                    x == m * upper,
                    upper >= q,
                    d > 0,
                    q > 0,
            {
                assert(m >= d * two_pow_128());
                assert(m * upper >= (d * two_pow_128()) * q);
            }
            lemma_quotient_at_least(x, d * q, two_pow_128());
        }
        return u128::MAX;
    }
    let (q1, r1) = div_wide(hi, lo, diff);
    let s: u128 = mul_div(r1, upper, diff);
    let (t_hi, t_lo) = mul_wide(q1, upper);
    let ghost t: int = x / d;
    proof {
        lemma_fundamental_div_mod(m, d);
        lemma_quotient(r1 * upper, d);
        assert(r1 * upper < d * upper) by (nonlinear_arith)
            requires
                r1 < d,
                upper > 0,
        ;
        assert(r1 * upper >= 0) by (nonlinear_arith);
        lemma_quotient_at_most(r1 * upper, d, upper - 1);
        let rest = (r1 * upper) % d;
        lemma_fundamental_div_mod(r1 * upper, d);
        assert(x == (q1 * upper + s) * d + rest) by (nonlinear_arith)
            requires
                x == m * upper,
                m == d * q1 + r1,
                r1 * upper == d * s + rest,
        ;
        lemma_fundamental_div_mod_converse(x, d, q1 * upper + s, rest);
        assert(t == q1 * upper + s);
        assert(q1 * upper + s < two_pow_128() * two_pow_128()) by (nonlinear_arith)
            requires
                q1 <= two_pow_128() - 1,
                upper <= two_pow_128() - 1,
                s < upper,
                0 <= q1,
        ;
    }
    let (sum_hi, sum_lo): (u128, u128) = if t_lo > u128::MAX - s {
        assert(t_hi < u128::MAX) by (nonlinear_arith)
            requires
                t_hi * two_pow_128() + t_lo + s < two_pow_128() * two_pow_128(),
                t_lo + s >= two_pow_128(),
                u128::MAX == two_pow_128() - 1,
        ;
        (t_hi + 1, t_lo - (u128::MAX - s) - 1)
    } else {
        (t_hi, t_lo + s)
    };
    assert(sum_hi * two_pow_128() + sum_lo == t);
    assert(t / q == sum_hi * q + sum_lo as int / q);
    if sum_hi >= Q64 {
        u128::MAX
    } else {
        sum_hi * Q64 + sum_lo / Q64
    }
}

/// Liquidity of an amount of token 1 between two prices.
pub fn get_liquidity_for_amount_1(sqrt_price_a: u128, sqrt_price_b: u128, amount_1: u128) -> (r:
    u128)
    ensures
        r == liquidity_of_1(sqrt_price_a, sqrt_price_b, amount_1 as int),
{
    let (lower, upper) = if sqrt_price_a <= sqrt_price_b {
        (sqrt_price_a, sqrt_price_b)
    } else {
        (sqrt_price_b, sqrt_price_a)
    };
    let diff: u128 = upper - lower;
    if diff == 0 {
        return 0;
    }
    mul_div(amount_1, Q64, diff)
}

/// Token amounts that a position's liquidity stands for, token 0 first: the inverse of
/// [`get_liquidity_for_amounts`].
pub fn get_amounts_for_liquidity(
    sqrt_price_current: u128,
    sqrt_price_lower: u128,
    sqrt_price_upper: u128,
    liquidity: u128,
) -> (r: (u64, u64))
    ensures
        r.0 == token_0_of_position(
            sqrt_price_current,
            sqrt_price_lower,
            sqrt_price_upper,
            liquidity as int,
        ),
        r.1 == token_1_of_position(
            sqrt_price_current,
            sqrt_price_lower,
            sqrt_price_upper,
            liquidity as int,
        ),
{
    if sqrt_price_lower >= sqrt_price_upper {
        return (0, 0);
    }
    let amount_0: u128;
    let amount_1: u128;
    if sqrt_price_current <= sqrt_price_lower {
        amount_0 = get_amount_0_for_liquidity(sqrt_price_lower, sqrt_price_upper, liquidity);
        amount_1 = 0;
    } else if sqrt_price_current >= sqrt_price_upper {
        amount_0 = 0;
        amount_1 = get_amount_1_for_liquidity(sqrt_price_lower, sqrt_price_upper, liquidity);
    } else {
        amount_0 = get_amount_0_for_liquidity(sqrt_price_lower, sqrt_price_upper, liquidity);
        amount_1 = get_amount_1_for_liquidity(sqrt_price_lower, sqrt_price_upper, liquidity);
    }
    (to_u64(amount_0), to_u64(amount_1))
}

/// Clamps an amount at 64 bits.
fn to_u64(amount: u128) -> (r: u64)
    ensures
        r == clamp_u64(amount as int),
{
    if amount > u64::MAX as u128 {
        u64::MAX
    } else {
        amount as u64
    }
}

/// Token 0 that liquidity stands for between two prices, clamped to 128 bits.
pub fn get_amount_0_for_liquidity(sqrt_price_a: u128, sqrt_price_b: u128, liquidity: u128) -> (r:
    u128)
    ensures
        r == sat(amount_0_of(sqrt_price_a, sqrt_price_b, liquidity as int)),
{
    if sqrt_price_a == 0 || sqrt_price_b == 0 {
        return 0;
    }
    get_amount_0_delta(sqrt_price_a, sqrt_price_b, liquidity, false)
}

/// Token 1 that liquidity stands for between two prices, clamped to 128 bits.
pub fn get_amount_1_for_liquidity(sqrt_price_a: u128, sqrt_price_b: u128, liquidity: u128) -> (r:
    u128)
    ensures
        r == sat(amount_1_of(sqrt_price_a, sqrt_price_b, liquidity as int)),
{
    get_amount_1_delta(sqrt_price_a, sqrt_price_b, liquidity, false)
}

} // verus!
