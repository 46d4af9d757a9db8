//! What holds of the swap arithmetic for all inputs.

use vstd::prelude::*;

use crate::arith::{
    ceil_div, lemma_ceil_div, lemma_quotient, lemma_quotient_at_least, lemma_quotient_at_most, Q64,
};
use crate::pool_core::swap_math::{
    amount_0_between, amount_1_between, fee_of, gross_of, input_to_reach, lemma_price_and_amount,
    lower_price, net_of_fee, price_after_adding_0, price_after_removing_0, price_move_of_1,
    segment_input, step_price, step_result, upper_price, FEE_DENOMINATOR,
};

verus! {

/// Fees round up: the fee is the least whole number that is at least
/// `amount * fee_rate / FEE_DENOMINATOR`, as long as it fits 128 bits.
pub proof fn law_fee_rounds_up(amount: int, fee_rate: int)
    requires
        0 <= amount,
        0 <= fee_rate,
        amount * fee_rate <= u128::MAX * FEE_DENOMINATOR,
    ensures
        fee_of(amount, fee_rate) * FEE_DENOMINATOR >= amount * fee_rate,
        (fee_of(amount, fee_rate) - 1) * FEE_DENOMINATOR < amount * fee_rate,
{
}

/// A fee never exceeds the amount it is taken from, and fee and net amount make up the
/// gross amount.
pub proof fn law_fee_and_net_make_up_gross(amount: int, fee_rate: int)
    requires
        0 <= amount <= u128::MAX,
        0 <= fee_rate <= FEE_DENOMINATOR,
    ensures
        0 <= fee_of(amount, fee_rate) <= amount,
        net_of_fee(amount, fee_rate) + fee_of(amount, fee_rate) == amount,
{
    assert(0 <= amount * fee_rate <= amount * 1_000_000) by (nonlinear_arith)
        requires
            0 <= amount,
            0 <= fee_rate <= 1_000_000,
    ;
}

/// No fee on nothing.
pub proof fn law_no_fee_on_zero(fee_rate: int)
    ensures
        fee_of(0, fee_rate) == 0,
{
}

/// The amounts between two prices do not depend on the order of the prices.
pub proof fn law_amounts_are_symmetric(a: u128, b: u128, liquidity: int, round_up: bool)
    ensures
        amount_0_between(a, b, liquidity, round_up) == amount_0_between(b, a, liquidity, round_up),
        amount_1_between(a, b, liquidity, round_up) == amount_1_between(b, a, liquidity, round_up),
{
}

/// A price that does not move moves no tokens.
pub proof fn law_no_move_no_tokens(price: u128, liquidity: int, round_up: bool)
    requires
        price > 0,
    ensures
        amount_0_between(price, price, liquidity, round_up) == 0,
        amount_1_between(price, price, liquidity, round_up) == 0,
{
    assert(liquidity * (price - price) == 0);
    assert(price * price > 0) by (nonlinear_arith)
        requires
            price > 0,
    ;
    lemma_ceil_div(0, price * price);
    lemma_quotient(0, price * price);
    lemma_quotient_at_most(0, price * price, 0);
    lemma_quotient_at_least(0, price * price, 0);
}

/// Without liquidity no tokens move, whichever way the price goes.
pub proof fn law_no_liquidity_no_tokens(a: u128, b: u128, round_up: bool)
    ensures
        a > 0 && b > 0 ==> amount_0_between(a, b, 0, round_up) == 0,
        amount_1_between(a, b, 0, round_up) == 0,
{
    let lower = lower_price(a, b);
    let upper = upper_price(a, b);
    assert(0 * (upper - lower) == 0);
    if lower > 0 {
        let d = lower * upper;
        assert(d > 0) by (nonlinear_arith)
            requires
                0 < lower <= upper,
                d == lower * upper,
        ;
        lemma_ceil_div(0, d);
        lemma_quotient(0, d);
        lemma_quotient_at_most(0, d, 0);
        lemma_quotient_at_least(0, d, 0);
    }
}

/// Token amounts between two prices are never negative.
proof fn lemma_dividends(a: u128, b: u128, liquidity: u128)
    ensures
        liquidity * (upper_price(a, b) - lower_price(a, b)) >= 0,
        liquidity * (upper_price(a, b) - lower_price(a, b)) * Q64 >= 0,
        lower_price(a, b) > 0 ==> lower_price(a, b) * upper_price(a, b) > 0,
{
    let lower = lower_price(a, b);
    let upper = upper_price(a, b);
    assert(liquidity * (upper - lower) >= 0) by (nonlinear_arith)
        requires
            upper >= lower,
    ;
    if lower > 0 {
        assert(lower * upper > 0) by (nonlinear_arith)
            requires
                lower > 0,
                upper >= lower,
        ;
    }
}

/// Rounding up never gives less than rounding down, and at most one more.
pub proof fn law_rounding_costs_at_most_one(a: u128, b: u128, liquidity: u128)
    ensures
        amount_0_between(a, b, liquidity as int, false) <= amount_0_between(
            a,
            b,
            liquidity as int,
            true,
        ) <= amount_0_between(a, b, liquidity as int, false) + 1,
        amount_1_between(a, b, liquidity as int, false) <= amount_1_between(
            a,
            b,
            liquidity as int,
            true,
        ) <= amount_1_between(a, b, liquidity as int, false) + 1,
{
    lemma_dividends(a, b, liquidity);
    let lower = lower_price(a, b);
    let upper = upper_price(a, b);
    lemma_ceil_div(liquidity * (upper - lower), Q64 as int);
    if lower > 0 {
        lemma_ceil_div(liquidity * (upper - lower) * Q64, lower * upper);
    }
}

/// Adding token 0 never raises the price.
pub proof fn law_adding_token_0_lowers_price(price: u128, liquidity: u128, amount: u128)
    ensures
        0 <= price_after_adding_0(price as int, liquidity as int, amount as int) <= price,
{
    let n = liquidity * price * Q64;
    let denominator = liquidity * Q64 + amount * price;
    assert(0 <= n && 0 <= amount * price && n <= denominator * price) by (nonlinear_arith)
        requires
            n == liquidity * price * Q64,
            denominator == liquidity * Q64 + amount * price,
    {
        assert(denominator * price == liquidity * price * Q64 + amount * price * price);
        assert(amount * price * price >= 0);
    }
    if amount != 0 && denominator != 0 {
        assert(denominator * (price + 1) == denominator * price + denominator) by (nonlinear_arith);
        lemma_quotient_at_most(n, denominator, price as int);
        lemma_quotient_at_least(n, denominator, 0);
    }
}

/// Removing token 0 never lowers the price.
pub proof fn law_removing_token_0_raises_price(price: u128, liquidity: u128, amount: u128)
    ensures
        price_after_removing_0(price as int, liquidity as int, amount as int) >= price,
{
    let n = liquidity * price * Q64;
    let denominator = liquidity * Q64 - amount * price;
    assert(denominator * price <= n) by (nonlinear_arith)
        requires
            n == liquidity * price * Q64,
            denominator == liquidity * Q64 - amount * price,
    {
        assert(denominator * price == liquidity * price * Q64 - amount * price * price);
        assert(amount * price * price >= 0);
    }
    if amount != 0 && denominator > 0 {
        lemma_quotient_at_least(n, denominator, price as int);
    }
}

/// Token 1 moves the price by a non-negative distance: adding it never lowers the price,
/// removing it never raises it.
pub proof fn law_token_1_moves_price_up(liquidity: u128, amount: u128)
    ensures
        price_move_of_1(liquidity as int, amount as int) >= 0,
{
    if liquidity != 0 {
        lemma_quotient_at_least(amount * Q64, liquidity as int, 0);
    }
}

/// The token 1 of a price move undoes into the move: rounded down it moves the price no
/// further, rounded up it moves it at least as far.
pub proof fn law_token_1_inverts_price_move(a: u128, b: u128, liquidity: u128)
    requires
        a <= b,
        liquidity > 0,
        amount_1_between(a, b, liquidity as int, true) < u128::MAX,
    ensures
        price_move_of_1(liquidity as int, amount_1_between(a, b, liquidity as int, false)) <= b - a,
        price_move_of_1(liquidity as int, amount_1_between(a, b, liquidity as int, true)) >= b - a,
{
    let q = Q64 as int;
    let x = liquidity * (b - a);
    let down = amount_1_between(a, b, liquidity as int, false);
    let up = amount_1_between(a, b, liquidity as int, true);
    assert(x < liquidity * (b - a + 1)) by (nonlinear_arith)
        requires
            x == liquidity * (b - a),
            liquidity > 0,
    ;
    lemma_dividends(a, b, liquidity);
    lemma_ceil_div(x, q);
    lemma_quotient(x, q);
    lemma_quotient_at_most(down * q, liquidity as int, b - a);
    lemma_quotient_at_least(up * q, liquidity as int, b - a);
}

/// What the price loses to rounding is worth less than one unit of the price: moved down to
/// just above where `net` of token 0 takes it, the price costs no more than that.
proof fn lemma_price_above_is_paid_for(current: u128, liquidity: u128, net: u128)
    requires
        price_after_adding_0(current as int, liquidity as int, net as int) < current,
    ensures
        amount_0_between(
            (price_after_adding_0(current as int, liquidity as int, net as int) + 1) as u128,
            current,
            liquidity as int,
            true,
        ) <= net,
{
    let l = liquidity as int;
    let p = current as int;
    let n = l * p * Q64;
    let denominator = l * Q64 + net * p;
    law_adding_token_0_lowers_price(current, liquidity, net);
    let above = price_after_adding_0(p, l, net as int) + 1;
    let x = l * (p - above) * Q64;
    let d = above * p;
    assert(net * p > 0) by (nonlinear_arith)
        requires
            net > 0,
            p > 0,
    ;
    lemma_quotient(n, denominator);
    assert(n < denominator * above) by (nonlinear_arith)
        requires
            n < denominator * (above - 1) + denominator,
    ;
    lemma_price_and_amount(p, above, l, net as int);
    assert(net * above * p == net * d) by (nonlinear_arith)
        requires
            d == above * p,
    ;
    lemma_dividends(above as u128, current, liquidity);
    lemma_ceil_div(x, d);
    assert(ceil_div(x, d) <= net) by (nonlinear_arith)
        requires
            x <= net * d,
            d * (ceil_div(x, d) - 1) < x,
            d > 0,
    ;
}

/// A step accounts for all of its input: the net input and the fee make up what was offered.
pub proof fn law_step_uses_up_input(
    current: u128,
    target: u128,
    liquidity: u128,
    amount_remaining: u128,
    fee_rate: u128,
)
    requires
        current > 0 || target > 0,
    ensures
        ({
            let step = step_result(
                current,
                target,
                liquidity as int,
                amount_remaining as int,
                fee_rate as int,
            );
            step.amount_in + step.fee_amount == amount_remaining
        }),
{
    lemma_step_in_range(current, target, liquidity, amount_remaining, fee_rate);
    assert(amount_remaining * fee_rate >= 0) by (nonlinear_arith);
    let net = net_of_fee(amount_remaining as int, fee_rate as int);
    let needed = input_to_reach(current, target, liquidity as int);
    if net < needed && current >= target {
        law_no_move_no_tokens(current, liquidity as int, true);
        law_adding_token_0_lowers_price(current, liquidity, net as u128);
        let price = price_after_adding_0(current as int, liquidity as int, net);
        if price < current {
            lemma_price_above_is_paid_for(current, liquidity, net as u128);
        }
    } else if net < needed {
        law_upward_step_stays_on_its_way(current, target, liquidity, amount_remaining, fee_rate);
        let q = Q64 as int;
        let l = liquidity as int;
        assert(l > 0) by {
            if l == 0 {
                assert(l * (target - current) == 0);
            }
        }
        let moved = (net * q) / l;
        lemma_quotient(net * q, l);
        lemma_quotient_at_least(net * q, l, 0);
        let next = step_price(
            current,
            target,
            l,
            amount_remaining as int,
            fee_rate as int,
        );
        let way = next - current;
        assert(0 <= l * way <= net * q) by (nonlinear_arith)
            requires
                l > 0,
                0 <= way <= moved,
                l * moved <= net * q,
        ;
        lemma_ceil_div(l * way, q);
    }
}

/// The values of a step are 128-bit numbers.
pub proof fn lemma_step_in_range(
    current: u128,
    target: u128,
    liquidity: u128,
    amount_remaining: u128,
    fee_rate: u128,
)
    ensures
        ({
            let next = step_price(
                current,
                target,
                liquidity as int,
                amount_remaining as int,
                fee_rate as int,
            );
            &&& 0 <= next <= u128::MAX
        }),
        forall|a: u128, b: u128, up: bool|
            0 <= #[trigger] amount_0_between(a, b, liquidity as int, up) <= u128::MAX,
        forall|a: u128, b: u128, up: bool|
            0 <= #[trigger] amount_1_between(a, b, liquidity as int, up) <= u128::MAX,
{
    assert forall|a: u128, b: u128, up: bool|
        0 <= #[trigger] amount_0_between(a, b, liquidity as int, up) <= u128::MAX by {
        lemma_dividends(a, b, liquidity);
        let lower = lower_price(a, b);
        let upper = upper_price(a, b);
        let x = liquidity * (upper - lower) * Q64;
        if lower > 0 {
            lemma_ceil_div(x, lower * upper);
            lemma_quotient_at_least(x, lower * upper, 0);
        }
    }
    assert forall|a: u128, b: u128, up: bool|
        0 <= #[trigger] amount_1_between(a, b, liquidity as int, up) <= u128::MAX by {
        lemma_dividends(a, b, liquidity);
        lemma_ceil_div(
            liquidity * (upper_price(a, b) - lower_price(a, b)),
            Q64 as int,
        );
    }
    assert(amount_remaining * fee_rate >= 0) by (nonlinear_arith);
    let net = net_of_fee(amount_remaining as int, fee_rate as int);
    law_adding_token_0_lowers_price(current, liquidity, net as u128);
    law_token_1_moves_price_up(liquidity, net as u128);
}

/// Net input and fee of a step are one 128-bit number together.
pub proof fn lemma_step_sum(
    current: u128,
    target: u128,
    liquidity: u128,
    amount_remaining: u128,
    fee_rate: u128,
)
    ensures
        ({
            let step = step_result(
                current,
                target,
                liquidity as int,
                amount_remaining as int,
                fee_rate as int,
            );
            &&& amount_remaining <= step.amount_in + step.fee_amount <= u128::MAX
            &&& step.fee_amount <= amount_remaining
        }),
{
    lemma_step_in_range(current, target, liquidity, amount_remaining, fee_rate);
}

/// A step that can pay for the whole way ends at its target, and uses exactly the input
/// that the way takes, which it could pay net of the fee.
pub proof fn law_sufficient_input_reaches_target(
    current: u128,
    target: u128,
    liquidity: u128,
    amount_remaining: u128,
    fee_rate: u128,
)
    requires
        net_of_fee(amount_remaining as int, fee_rate as int) >= input_to_reach(
            current,
            target,
            liquidity as int,
        ),
    ensures
        ({
            let step = step_result(
                current,
                target,
                liquidity as int,
                amount_remaining as int,
                fee_rate as int,
            );
            &&& step.sqrt_price_next == target
            &&& step.amount_in == input_to_reach(current, target, liquidity as int)
            &&& step.amount_in <= amount_remaining
        }),
{
    lemma_step_in_range(current, target, liquidity, amount_remaining, fee_rate);
    assert(amount_remaining * fee_rate >= 0) by (nonlinear_arith);
}

/// An upward step never leaves the way from the current price to its target.
pub proof fn law_upward_step_stays_on_its_way(
    current: u128,
    target: u128,
    liquidity: u128,
    amount_remaining: u128,
    fee_rate: u128,
)
    requires
        current < target,
    ensures
        current <= step_price(
            current,
            target,
            liquidity as int,
            amount_remaining as int,
            fee_rate as int,
        ) <= target,
{
    assert(amount_remaining * fee_rate >= 0) by (nonlinear_arith);
    let net = net_of_fee(amount_remaining as int, fee_rate as int);
    let diff = target - current;
    let x = liquidity * diff;
    assert(x >= 0) by (nonlinear_arith)
        requires
            x == liquidity * diff,
            diff >= 0,
    ;
    if net < input_to_reach(current, target, liquidity as int) {
        assert(net * Q64 < x);
        assert(liquidity > 0) by (nonlinear_arith)
            requires
                x > 0,
                x == liquidity * diff,
        ;
        assert(net * Q64 < liquidity * (diff + 1)) by (nonlinear_arith)
            requires
                net * Q64 < liquidity * diff,
                liquidity > 0,
        ;
        lemma_quotient_at_most(net * Q64, liquidity as int, diff);
        lemma_quotient_at_least(net * Q64, liquidity as int, 0);
    }
}

/// A downward step never leaves the way from the current price to its target.
pub proof fn law_downward_step_stays_on_its_way(
    current: u128,
    target: u128,
    liquidity: u128,
    amount_remaining: u128,
    fee_rate: u128,
)
    requires
        target <= current,
    ensures
        target <= step_price(
            current,
            target,
            liquidity as int,
            amount_remaining as int,
            fee_rate as int,
        ) <= current,
{
    assert(amount_remaining * fee_rate >= 0) by (nonlinear_arith);
    let net = net_of_fee(amount_remaining as int, fee_rate as int);
    lemma_ceil_div(amount_remaining * fee_rate, 1_000_000);
    law_adding_token_0_lowers_price(current, liquidity, net as u128);
    let l = liquidity as int;
    if target > 0 && 0 < net < input_to_reach(current, target, l) {
        lemma_dividends(target, current, liquidity);
        let d = target * current;
        let x = l * (current - target) * Q64;
        lemma_ceil_div(x, d);
        assert(net * target * current < x) by (nonlinear_arith)
            requires
                net <= ceil_div(x, d) - 1,
                d * (ceil_div(x, d) - 1) < x,
                d > 0,
                d == target * current,
        ;
        let n = l * current * Q64;
        let denominator = l * Q64 + net * current;
        lemma_price_and_amount(current as int, target as int, l, net);
        assert(net * current > 0) by (nonlinear_arith)
            requires
                net > 0,
                current > 0,
        ;
        lemma_quotient_at_least(n, denominator, target as int);
    }
}

/// The token 0 of a price move undoes into the move: rounded down it moves the price no
/// further down, rounded up at least as far.
pub proof fn law_token_0_inverts_price_move(current: u128, target: u128, liquidity: u128)
    requires
        0 < target <= current,
        liquidity > 0,
        amount_0_between(target, current, liquidity as int, true) < u128::MAX,
    ensures
        price_after_adding_0(
            current as int,
            liquidity as int,
            amount_0_between(target, current, liquidity as int, false),
        ) >= target,
        price_after_adding_0(
            current as int,
            liquidity as int,
            amount_0_between(target, current, liquidity as int, true),
        ) <= target,
{
    let l = liquidity as int;
    let p = current as int;
    let t = target as int;
    let d = t * p;
    let x = l * (p - t) * Q64;
    let n = l * p * Q64;
    lemma_dividends(target, current, liquidity);
    lemma_ceil_div(x, d);
    lemma_quotient(x, d);
    let down = amount_0_between(target, current, l, false);
    let up = amount_0_between(target, current, l, true);
    lemma_step_in_range(current, target, liquidity, 0, 0);
    assert(down * t * p <= x <= up * t * p) by (nonlinear_arith)
        requires
            d * down <= x <= d * up,
            d == t * p,
    ;
    lemma_price_and_amount(p, t, l, down);
    assert(l * Q64 + down * p > 0 && l * Q64 + up * p > 0) by (nonlinear_arith)
        requires
            l > 0,
            p > 0,
            down >= 0,
            up >= 0,
    ;
    lemma_quotient_at_least(n, l * Q64 + down * p, t);
    if up > 0 {
        let e = l * Q64 + up * p;
        lemma_price_and_amount(p, t + 1, l, up);
        assert(l * (p - (t + 1)) * Q64 < x) by (nonlinear_arith)
            requires
                x == l * (p - t) * Q64,
                l > 0,
        ;
        assert(up * t * p <= up * (t + 1) * p) by (nonlinear_arith)
            requires
                up >= 0,
                p >= 0,
        ;
        assert(n < e * (t + 1));
        lemma_quotient_at_most(n, e, t);
    } else {
        assert(x == 0) by (nonlinear_arith)
            requires
                0 <= x <= up * t * p,
                up == 0,
        ;
        assert(p == t) by (nonlinear_arith)
            requires
                l * (p - t) * Q64 == 0,
                l > 0,
        ;
    }
}

/// What is left of an amount after its fee is `amount * (1 - rate)`, rounded down.
pub proof fn lemma_net_of_fee(amount: int, fee_rate: int)
    requires
        0 <= amount <= u128::MAX,
        0 <= fee_rate <= FEE_DENOMINATOR,
    ensures
        net_of_fee(amount, fee_rate) * FEE_DENOMINATOR <= amount * (FEE_DENOMINATOR - fee_rate),
        amount * (FEE_DENOMINATOR - fee_rate) < (net_of_fee(amount, fee_rate) + 1)
            * FEE_DENOMINATOR,
{
    law_fee_and_net_make_up_gross(amount, fee_rate);
    assert(0 <= amount * fee_rate <= amount * 1_000_000) by (nonlinear_arith)
        requires
            0 <= amount,
            0 <= fee_rate <= 1_000_000,
    ;
    assert(amount * (1_000_000 - fee_rate) == amount * 1_000_000 - amount * fee_rate)
        by (nonlinear_arith);
    lemma_ceil_div(amount * fee_rate, 1_000_000);
}

/// The gross amount for a net amount is the least one whose net covers it, and its net is
/// just that.
pub proof fn law_gross_is_least(net: int, fee_rate: int, other: int)
    requires
        0 <= net,
        0 <= fee_rate < FEE_DENOMINATOR,
        0 <= other <= u128::MAX,
    ensures
        net_of_fee(other, fee_rate) >= net <==> other >= gross_of(net, fee_rate),
        other == gross_of(net, fee_rate) ==> net_of_fee(other, fee_rate) == net,
        gross_of(net, fee_rate) >= net,
{
    let rest = 1_000_000 - fee_rate;
    lemma_net_of_fee(other, fee_rate);
    lemma_ceil_div(net * 1_000_000, rest);
    let gross = gross_of(net, fee_rate);
    let kept = net_of_fee(other, fee_rate);
    if other >= gross {
        assert(kept >= net) by (nonlinear_arith)
            requires
                other >= gross,
                net * 1_000_000 <= rest * gross,
                other * rest < (kept + 1) * 1_000_000,
                rest > 0,
        ;
        if other == gross {
            assert(kept <= net) by (nonlinear_arith)
                requires
                    rest * (other - 1) < net * 1_000_000,
                    kept * 1_000_000 <= other * rest,
                    0 < rest <= 1_000_000,
            ;
        }
    } else {
        assert(kept < net) by (nonlinear_arith)
            requires
                other <= gross - 1,
                rest * (gross - 1) < net * 1_000_000,
                kept * 1_000_000 <= other * rest,
                rest > 0,
        ;
    }
    assert(gross >= net) by (nonlinear_arith)
        requires
            net * 1_000_000 <= rest * gross,
            0 < rest <= 1_000_000,
            net >= 0,
    ;
}

/// Handing a step only the input of its segment changes nothing about where it gets to, and
/// takes no more than there is. Only a price of zero is out of reach without liquidity.
pub proof fn law_segment_input_suffices(
    current: u128,
    target: u128,
    liquidity: u128,
    amount_remaining: u128,
    fee_rate: u128,
)
    ensures
        ({
            let input = segment_input(
                current,
                target,
                liquidity as int,
                amount_remaining as int,
                fee_rate as int,
            );
            &&& 0 <= input <= amount_remaining
            &&& target > 0 || liquidity > 0 ==> step_price(
                current,
                target,
                liquidity as int,
                input,
                fee_rate as int,
            ) == step_price(
                current,
                target,
                liquidity as int,
                amount_remaining as int,
                fee_rate as int,
            )
        }),
{
    lemma_step_in_range(current, target, liquidity, amount_remaining, fee_rate);
    let needed = input_to_reach(current, target, liquidity as int);
    let net = net_of_fee(amount_remaining as int, fee_rate as int);
    assert(amount_remaining * fee_rate >= 0) by (nonlinear_arith);
    lemma_ceil_div(amount_remaining * fee_rate, 1_000_000);
    if net >= needed && needed > 0 {
        if fee_rate >= 1_000_000 {
            assert(amount_remaining * fee_rate >= amount_remaining * 1_000_000)
                by (nonlinear_arith)
                requires
                    fee_rate >= 1_000_000,
                    amount_remaining >= 0,
            ;
            assert(fee_of(amount_remaining as int, fee_rate as int) >= amount_remaining);
        }
        law_gross_is_least(needed, fee_rate as int, amount_remaining as int);
        law_gross_is_least(needed, fee_rate as int, gross_of(needed, fee_rate as int));
    } else if needed == 0 {
        law_no_fee_on_zero(fee_rate as int);
    } else if liquidity == 0 {
        law_no_liquidity_no_tokens(current, target, true);
    }
}

/// A segment that gets to its target pays for the way what the way takes, and the fee of its
/// gross input on top.
pub proof fn law_full_segment_pays_fee_rate(
    current: u128,
    target: u128,
    liquidity: u128,
    amount_remaining: u128,
    fee_rate: u128,
)
    requires
        net_of_fee(amount_remaining as int, fee_rate as int) >= input_to_reach(
            current,
            target,
            liquidity as int,
        ),
    ensures
        ({
            let input = segment_input(
                current,
                target,
                liquidity as int,
                amount_remaining as int,
                fee_rate as int,
            );
            let step = step_result(current, target, liquidity as int, input, fee_rate as int);
            &&& step.sqrt_price_next == target
            &&& step.amount_in == input_to_reach(current, target, liquidity as int)
            &&& step.fee_amount == fee_of(input, fee_rate as int)
            &&& step.amount_in + step.fee_amount == input
        }),
{
    law_segment_input_suffices(current, target, liquidity, amount_remaining, fee_rate);
    let needed = input_to_reach(current, target, liquidity as int);
    let input = segment_input(
        current,
        target,
        liquidity as int,
        amount_remaining as int,
        fee_rate as int,
    );
    lemma_step_in_range(current, target, liquidity, input as u128, fee_rate);
    if needed > 0 {
        if fee_rate >= 1_000_000 {
            assert(amount_remaining * fee_rate >= amount_remaining * 1_000_000)
                by (nonlinear_arith)
                requires
                    fee_rate >= 1_000_000,
                    amount_remaining >= 0,
            ;
            lemma_ceil_div(amount_remaining * fee_rate, 1_000_000);
        }
        law_gross_is_least(needed, fee_rate as int, input);
        law_fee_and_net_make_up_gross(input, fee_rate as int);
    } else {
        law_no_fee_on_zero(fee_rate as int);
    }
}

/// A segment without liquidity takes nothing and gives nothing.
pub proof fn law_segment_without_liquidity_is_free(
    current: u128,
    target: u128,
    amount_remaining: u128,
    fee_rate: u128,
)
    requires
        current > 0 || target > 0,
        amount_remaining < u128::MAX,
    ensures
        ({
            let input = segment_input(
                current,
                target,
                0,
                amount_remaining as int,
                fee_rate as int,
            );
            let step = step_result(current, target, 0, input, fee_rate as int);
            &&& input == 0
            &&& step.amount_in == 0
            &&& step.fee_amount == 0
            &&& current > 0 ==> step.amount_out == 0
            &&& target > 0 ==> step.sqrt_price_next == target
        }),
{
    law_no_liquidity_no_tokens(current, target, true);
    law_no_fee_on_zero(fee_rate as int);
    if current > 0 {
        law_no_move_no_tokens(current, 0, true);
    }
    law_step_uses_up_input(current, target, 0, 0, fee_rate);
    lemma_step_in_range(current, target, 0, 0, fee_rate);
    assert(amount_remaining * fee_rate >= 0) by (nonlinear_arith);
    let next = step_price(current, target, 0, 0, fee_rate as int) as u128;
    law_no_liquidity_no_tokens(next, current, false);
}

} // verus!
