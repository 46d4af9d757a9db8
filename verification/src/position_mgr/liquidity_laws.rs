//! What holds of the liquidity arithmetic for all inputs.

use vstd::prelude::*;

use crate::arith::{lemma_quotient, lemma_quotient_at_least, lemma_quotient_at_most, Q64};
use crate::pool_core::swap_math::{lower_price, upper_price};
use crate::position_mgr::liquidity_math::{
    amount_0_of, amount_1_of, liquidity_of_0, liquidity_of_1, liquidity_of_deposit,
    token_0_of_position, token_1_of_position,
};

verus! {

/// Below the range the amount of token 1 does not matter.
pub proof fn law_token_1_ignored_below_range(
    current: u128,
    lower: u128,
    upper: u128,
    amount_0: int,
    amount_1: int,
    other_1: int,
)
    requires
        current <= lower,
    ensures
        liquidity_of_deposit(current, lower, upper, amount_0, amount_1) == liquidity_of_deposit(
            current,
            lower,
            upper,
            amount_0,
            other_1,
        ),
{
}

/// Above the range the amount of token 0 does not matter.
pub proof fn law_token_0_ignored_above_range(
    current: u128,
    lower: u128,
    upper: u128,
    amount_0: int,
    other_0: int,
    amount_1: int,
)
    requires
        current >= upper,
    ensures
        liquidity_of_deposit(current, lower, upper, amount_0, amount_1) == liquidity_of_deposit(
            current,
            lower,
            upper,
            other_0,
            amount_1,
        ),
{
}

/// A deposit of nothing has no liquidity.
pub proof fn law_nothing_makes_no_liquidity(current: u128, lower: u128, upper: u128)
    ensures
        liquidity_of_deposit(current, lower, upper, 0, 0) == 0,
{
    assert forall|a: u128, b: u128| #[trigger] liquidity_of_0(a, b, 0) == 0 by {
        let low = lower_price(a, b);
        let up = upper_price(a, b);
        if low != up {
            assert(0 * low * up == 0) by (nonlinear_arith);
            assert((up - low) * Q64 > 0);
            lemma_quotient_at_most(0, (up - low) * Q64, 0);
            lemma_quotient_at_least(0, (up - low) * Q64, 0);
        }
    }
    assert forall|a: u128, b: u128| #[trigger] liquidity_of_1(a, b, 0) == 0 by {
        let diff = upper_price(a, b) - lower_price(a, b);
        if a != b {
            lemma_quotient_at_most(0, diff, 0);
            lemma_quotient_at_least(0, diff, 0);
        }
    }
}

/// A position outside its range consists of one token.
pub proof fn law_one_token_outside_range(current: u128, lower: u128, upper: u128, liquidity: int)
    ensures
        current <= lower ==> token_1_of_position(current, lower, upper, liquidity) == 0,
        current >= upper ==> token_0_of_position(current, lower, upper, liquidity) == 0,
{
}

proof fn lemma_liquidity_1_nonnegative(a: u128, b: u128, amount: int)
    requires
        0 <= amount <= u64::MAX,
    ensures
        0 <= liquidity_of_1(a, b, amount),
{
    if a != b {
        lemma_quotient_at_least(amount * Q64, upper_price(a, b) - lower_price(a, b), 0);
    }
}

/// More liquidity stands for no less of token 1, and that of an amount for no more than the
/// amount.
proof fn lemma_token_1_round_trip(a: u128, b: u128, amount: int, liquidity: int)
    requires
        0 <= amount <= u64::MAX,
        0 <= liquidity <= liquidity_of_1(a, b, amount),
    ensures
        0 <= amount_1_of(a, b, liquidity) <= amount,
{
    let diff = upper_price(a, b) - lower_price(a, b);
    let whole = liquidity_of_1(a, b, amount);
    assert(amount * Q64 <= u128::MAX);
    if a != b {
        lemma_quotient(amount * Q64, diff);
        assert(0 <= liquidity * diff <= amount * Q64) by (nonlinear_arith)
            requires
                diff * whole <= amount * Q64,
                0 <= liquidity <= whole,
                diff > 0,
        ;
    } else {
        assert(liquidity * diff == 0) by (nonlinear_arith)
            requires
                diff == 0,
        ;
    }
}

/// Taking a deposit back out gives no more of token 1 than went in.
pub proof fn law_token_1_round_trip(
    current: u128,
    lower: u128,
    upper: u128,
    amount_0: u64,
    amount_1: u64,
)
    ensures
        token_1_of_position(
            current,
            lower,
            upper,
            liquidity_of_deposit(current, lower, upper, amount_0 as int, amount_1 as int),
        ) <= amount_1,
{
    let liquidity = liquidity_of_deposit(current, lower, upper, amount_0 as int, amount_1 as int);
    if lower < current && lower < upper {
        lemma_liquidity_0_nonnegative(lower, upper, amount_0 as int);
        lemma_liquidity_1_nonnegative(lower, upper, amount_1 as int);
        lemma_token_1_round_trip(lower, upper, amount_1 as int, liquidity);
    }
}

/// What rounding costs above the range is at most one token 1, and one more for each unit of
/// the price distance.
pub proof fn law_token_1_round_trip_loss(
    current: u128,
    lower: u128,
    upper: u128,
    amount_0: u64,
    amount_1: u64,
)
    requires
        lower < upper <= current,
    ensures
        amount_1 - token_1_of_position(
            current,
            lower,
            upper,
            liquidity_of_deposit(current, lower, upper, amount_0 as int, amount_1 as int),
        ) <= 1 + (upper - lower) / (Q64 as int),
{
    let q = Q64 as int;
    let diff = upper - lower;
    let liquidity = liquidity_of_1(lower, upper, amount_1 as int);
    law_token_1_round_trip(current, lower, upper, amount_0, amount_1);
    lemma_liquidity_1_nonnegative(lower, upper, amount_1 as int);
    lemma_token_1_round_trip(lower, upper, amount_1 as int, liquidity);
    assert(amount_1 * q <= u128::MAX);
    lemma_quotient(amount_1 * q, diff);
    assert(0 <= liquidity * diff <= amount_1 * q) by (nonlinear_arith)
        requires
            diff * liquidity <= amount_1 * q,
            0 <= liquidity,
            diff > 0,
    ;
    assert(liquidity * diff == diff * liquidity) by (nonlinear_arith);
    let back = (liquidity * diff) / q;
    assert(q * (amount_1 - back - 1) < diff) by (nonlinear_arith)
        requires
            amount_1 * q < liquidity * diff + diff,
            liquidity * diff < q * back + q,
    ;
    lemma_quotient(diff, q);
    assert(amount_1 - back - 1 <= diff / q) by (nonlinear_arith)
        requires
            q * (amount_1 - back - 1) < diff,
            diff < q * (diff / q) + q,
            q > 0,
    ;
}

proof fn lemma_liquidity_0_nonnegative(a: u128, b: u128, amount: int)
    requires
        0 <= amount <= u64::MAX,
    ensures
        0 <= liquidity_of_0(a, b, amount),
{
    let low = lower_price(a, b);
    let up = upper_price(a, b);
    if low != up {
        assert(amount * low * up >= 0) by (nonlinear_arith)
            requires
                amount >= 0,
        ;
        lemma_quotient_at_least(amount * low * up, (up - low) * Q64, 0);
    }
}

proof fn lemma_token_0_round_trip(a: u128, b: u128, amount: int, liquidity: int)
    requires
        0 <= amount <= u64::MAX,
        0 <= liquidity <= liquidity_of_0(a, b, amount),
    ensures
        0 <= amount_0_of(a, b, liquidity) <= amount,
{
    let low = lower_price(a, b);
    let up = upper_price(a, b);
    if low > 0 {
        let q = Q64 as int;
        let d = low * up;
        let x = amount * low * up;
        let way = liquidity * (up - low) * q;
        assert(d > 0) by (nonlinear_arith)
            requires
                d == low * up,
                0 < low <= up,
        ;
        assert(way >= 0) by (nonlinear_arith)
            requires
                way == liquidity * (up - low) * q,
                liquidity >= 0,
                up >= low,
                q > 0,
        ;
        assert(way <= x) by {
            if low == up {
                assert(way == 0) by (nonlinear_arith)
                    requires
                        way == liquidity * (up - low) * q,
                        liquidity == 0,
                ;
                assert(x >= 0) by (nonlinear_arith)
                    requires
                        x == amount * low * up,
                        amount >= 0,
                ;
            } else {
                let part = (up - low) * q;
                lemma_quotient(x, part);
                assert(way <= x) by (nonlinear_arith)
                    requires
                        way == liquidity * (up - low) * q,
                        part == (up - low) * q,
                        part * (x / part) <= x,
                        liquidity <= x / part,
                        part > 0,
                {
                    assert(way == part * liquidity);
                }
            }
        }
        assert(way < d * (amount + 1)) by (nonlinear_arith)
            requires
                way <= x,
                x == amount * low * up,
                d == low * up,
                d > 0,
        {
            assert(x == d * amount);
        }
        lemma_quotient_at_most(way, d, amount);
        lemma_quotient_at_least(way, d, 0);
    }
}

/// Taking a deposit back out gives no more of token 0 than went in.
pub proof fn law_token_0_round_trip(
    current: u128,
    lower: u128,
    upper: u128,
    amount_0: u64,
    amount_1: u64,
)
    ensures
        token_0_of_position(
            current,
            lower,
            upper,
            liquidity_of_deposit(current, lower, upper, amount_0 as int, amount_1 as int),
        ) <= amount_0,
{
    let liquidity = liquidity_of_deposit(current, lower, upper, amount_0 as int, amount_1 as int);
    if current < upper && lower < upper {
        lemma_liquidity_0_nonnegative(lower, upper, amount_0 as int);
        lemma_liquidity_1_nonnegative(lower, upper, amount_1 as int);
        lemma_token_0_round_trip(lower, upper, amount_0 as int, liquidity);
    }
}

/// Inside its range, what a position stands for does not depend on the price.
pub proof fn law_amounts_inside_range_ignore_price(
    current: u128,
    other: u128,
    lower: u128,
    upper: u128,
    liquidity: int,
)
    requires
        lower < current < upper,
        lower < other < upper,
    ensures
        token_0_of_position(current, lower, upper, liquidity) == token_0_of_position(
            other,
            lower,
            upper,
            liquidity,
        ),
        token_1_of_position(current, lower, upper, liquidity) == token_1_of_position(
            other,
            lower,
            upper,
            liquidity,
        ),
{
}

} // verus!
