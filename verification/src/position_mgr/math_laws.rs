//! What the conversion between token amounts and liquidity computes, multiplied out.

use vstd::prelude::*;

use crate::arith::{lemma_quotient, lemma_quotient_at_least, Q64};
use crate::position_mgr::instruction_laws::lemma_liquidity;
use crate::position_mgr::liquidity_math::{
    amount_0_of, amount_1_of, liquidity_of_0, liquidity_of_1, liquidity_of_deposit,
    token_0_of_position, token_1_of_position,
};
use crate::position_mgr::word_of_tick;

verus! {

/// The liquidity that an amount of token 0 makes up between two prices is the most whose token
/// 0 it covers: `amount * lower * upper / (upper - lower)`, rounded down and clamped at 128
/// bits, whichever of the prices comes first.
pub proof fn law_liquidity_of_token_0(lower: u128, upper: u128, amount: u64)
    requires
        0 < lower < upper,
    ensures
        ({
            let liquidity = liquidity_of_0(lower, upper, amount as int);
            let unit = (upper - lower) * 0x1_0000_0000_0000_0000;
            &&& liquidity == liquidity_of_0(upper, lower, amount as int)
            &&& 0 <= liquidity <= u128::MAX
            &&& liquidity * unit <= amount * lower * upper
            &&& liquidity < u128::MAX ==> amount * lower * upper < (liquidity + 1) * unit
        }),
{
    lemma_liquidity(lower, upper, amount, 0);
}

/// The liquidity that an amount of token 1 makes up between two prices is the most whose token
/// 1 it covers: `amount / (upper - lower)`, rounded down and clamped at 128 bits, whichever of
/// the prices comes first.
pub proof fn law_liquidity_of_token_1(lower: u128, upper: u128, amount: u64)
    requires
        0 < lower < upper,
    ensures
        ({
            let liquidity = liquidity_of_1(lower, upper, amount as int);
            &&& liquidity == liquidity_of_1(upper, lower, amount as int)
            &&& 0 <= liquidity <= u128::MAX
            &&& liquidity * (upper - lower) <= amount * 0x1_0000_0000_0000_0000
            &&& liquidity < u128::MAX ==> amount * 0x1_0000_0000_0000_0000 < (liquidity + 1) * (
            upper - lower)
        }),
{
    lemma_liquidity(lower, upper, 0, amount);
}

/// An empty range holds no liquidity.
pub proof fn law_empty_range_holds_nothing(
    current: u128,
    lower: u128,
    upper: u128,
    amount_0: u64,
    amount_1: u64,
    liquidity: u128,
)
    requires
        lower >= upper,
    ensures
        liquidity_of_deposit(current, lower, upper, amount_0 as int, amount_1 as int) == 0,
        token_0_of_position(current, lower, upper, liquidity as int) == 0,
        token_1_of_position(current, lower, upper, liquidity as int) == 0,
        liquidity_of_0(lower, lower, amount_0 as int) == 0,
        liquidity_of_1(lower, lower, amount_1 as int) == 0,
{
}

/// The liquidity of a deposit is the most that it pays for: of token 0 unless the price is
/// above the range, of token 1 unless it is below, so inside the range of both.
pub proof fn law_deposit_makes_most_liquidity(
    current: u128,
    lower: u128,
    upper: u128,
    amount_0: u64,
    amount_1: u64,
)
    requires
        0 < lower < upper,
    ensures
        ({
            let liquidity = liquidity_of_deposit(
                current,
                lower,
                upper,
                amount_0 as int,
                amount_1 as int,
            );
            let more = liquidity + 1;
            &&& 0 <= liquidity <= u128::MAX
            &&& current < upper ==> liquidity * ((upper - lower) * 0x1_0000_0000_0000_0000)
                <= amount_0 * lower * upper
            &&& current > lower ==> liquidity * (upper - lower) <= amount_1
                * 0x1_0000_0000_0000_0000
            &&& liquidity < u128::MAX ==> {
                ||| current < upper && more * ((upper - lower) * 0x1_0000_0000_0000_0000)
                    > amount_0 * lower * upper
                ||| current > lower && more * (upper - lower) > amount_1
                    * 0x1_0000_0000_0000_0000
            }
        }),
{
    lemma_liquidity(lower, upper, amount_0, amount_1);
    let liquidity = liquidity_of_deposit(
        current,
        lower,
        upper,
        amount_0 as int,
        amount_1 as int,
    );
    assert(liquidity * ((upper - lower) * Q64) == liquidity * ((upper - lower) * Q64));
    assert(liquidity * (upper - lower) == liquidity * (upper - lower));
}

/// Token 0 that liquidity stands for between two prices is `L * (upper - lower) / (lower *
/// upper)`, rounded down, whichever of the prices comes first.
pub proof fn law_token_0_of_liquidity(lower: u128, upper: u128, liquidity: u128)
    requires
        0 < lower <= upper,
    ensures
        ({
            let amount = amount_0_of(lower, upper, liquidity as int);
            let moved = liquidity * (upper - lower) * 0x1_0000_0000_0000_0000;
            &&& amount == amount_0_of(upper, lower, liquidity as int)
            &&& 0 <= amount
            &&& amount * (lower * upper) <= moved < (amount + 1) * (lower * upper)
        }),
{
    let moved = liquidity * (upper - lower) * Q64;
    let d = lower * upper;
    assert(d > 0 && moved >= 0) by (nonlinear_arith)
        requires
            0 < lower <= upper,
            d == lower * upper,
            moved == liquidity * (upper - lower) * Q64,
    ;
    lemma_quotient(moved, d);
    lemma_quotient_at_least(moved, d, 0);
    let q = moved / d;
    assert(q * d <= moved < (q + 1) * d) by (nonlinear_arith)
        requires
            d * q <= moved < d * q + d,
    ;
}

/// Token 1 that liquidity stands for between two prices is `L * (upper - lower)`, rounded down,
/// whichever of the prices comes first.
pub proof fn law_token_1_of_liquidity(lower: u128, upper: u128, liquidity: u128)
    requires
        lower <= upper,
    ensures
        ({
            let amount = amount_1_of(lower, upper, liquidity as int);
            let moved = liquidity * (upper - lower);
            &&& amount == amount_1_of(upper, lower, liquidity as int)
            &&& 0 <= amount
            &&& amount * 0x1_0000_0000_0000_0000 <= moved < (amount + 1)
                * 0x1_0000_0000_0000_0000
        }),
{
    let moved = liquidity * (upper - lower);
    assert(moved >= 0) by (nonlinear_arith)
        requires
            lower <= upper,
            moved == liquidity * (upper - lower),
    ;
    lemma_quotient(moved, Q64 as int);
}

/// A position is made of token 0 below its range, of token 1 above it, and of both inside. Each
/// is what its liquidity stands for over the whole range, clamped at 64 bits.
pub proof fn law_tokens_of_position(current: u128, lower: u128, upper: u128, liquidity: u128)
    requires
        0 < lower < upper,
    ensures
        ({
            let amount_0 = token_0_of_position(current, lower, upper, liquidity as int);
            let amount_1 = token_1_of_position(current, lower, upper, liquidity as int);
            let moved = liquidity * (upper - lower);
            &&& current >= upper ==> amount_0 == 0
            &&& current <= lower ==> amount_1 == 0
            &&& current < upper ==> amount_0 * (lower * upper) <= moved * 0x1_0000_0000_0000_0000
            &&& current < upper && amount_0 < u64::MAX ==> moved * 0x1_0000_0000_0000_0000 < (
            amount_0 + 1) * (lower * upper)
            &&& current > lower ==> amount_1 * 0x1_0000_0000_0000_0000 <= moved
            &&& current > lower && amount_1 < u64::MAX ==> moved < (amount_1 + 1)
                * 0x1_0000_0000_0000_0000
        }),
{
    law_token_0_of_liquidity(lower, upper, liquidity);
    law_token_1_of_liquidity(lower, upper, liquidity);
    let whole = amount_0_of(lower, upper, liquidity as int);
    let d = lower * upper;
    if whole > u64::MAX {
        assert(u64::MAX * d <= whole * d) by (nonlinear_arith)
            requires
                whole > u64::MAX,
                d == lower * upper,
        ;
    }
}

/// The bitmap word of a tick counts its array from the one that holds the lowest tick, eight
/// arrays to a word.
pub proof fn law_word_of_tick_counts_arrays(tick: int)
    requires
        -443_636 <= tick <= 443_636,
    ensures
        word_of_tick(tick) == (tick / 5_632 + 79) / 8,
        0 <= word_of_tick(tick) <= 19,
{
}

} // verus!
