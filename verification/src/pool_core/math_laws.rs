//! What the arithmetic of a swap computes, multiplied out, and what a swap reads of the tick
//! arrays.

use vstd::prelude::*;

use crate::arith::{ceil_div, lemma_ceil_div, lemma_quotient, Q64};
use crate::bytes::{le_i128, le_i32};
use crate::pool_core::swap_instruction_laws::{first_ahead, flagged, nothing_ahead, tick_held};
use crate::pool_core::swap_laws::{
    law_amounts_are_symmetric, law_downward_step_stays_on_its_way, law_step_uses_up_input,
    law_upward_step_stays_on_its_way, lemma_net_of_fee, lemma_step_in_range,
};
use crate::pool_core::swap_lemmas::{
    lemma_amount_0, lemma_amount_1, lemma_first_ahead, lemma_nothing_ahead,
};
use crate::pool_core::swap_math::{
    amount_0_between, amount_1_between, fee_of, input_to_reach, net_of_fee, price_after_adding_0,
    price_after_removing_0, price_move_of_1, q64_product, segment_input, step_result,
};
use crate::pool_core::tick_loop::{
    boundary_ahead, decides, law_price_has_one_tick, law_recorded_net_is_applied, net_at_tick,
    price_target, slot_of, tick_of_price,
};
use crate::tick_manager::price::sqrt_price_at;

verus! {

/// A fee is `amount * fee_rate / 1_000_000`, rounded up, and the net amount is the rest.
pub proof fn law_fee_is_rate_of_amount(amount: u128, fee_rate: u128)
    requires
        fee_rate <= 1_000_000,
    ensures
        ({
            let fee = fee_of(amount as int, fee_rate as int);
            &&& amount * fee_rate <= fee * 1_000_000
            &&& (fee - 1) * 1_000_000 < amount * fee_rate
            &&& net_of_fee(amount as int, fee_rate as int) + fee == amount
        }),
{
    let x = amount * fee_rate;
    assert(0 <= x <= u128::MAX * 1_000_000) by (nonlinear_arith)
        requires
            x == amount * fee_rate,
            fee_rate <= 1_000_000,
    ;
    lemma_ceil_div(x, 1_000_000);
    lemma_net_of_fee(amount as int, fee_rate as int);
    assert(amount * (1_000_000 - fee_rate) == amount * 1_000_000 - amount * fee_rate)
        by (nonlinear_arith);
}

/// The product of two Q64.64 numbers is `a * b / 2^64`, rounded down and clamped.
pub proof fn law_q64_product_is_scaled(a: u128, b: u128)
    ensures
        ({
            let r = q64_product(a as int, b as int);
            &&& 0 <= r <= u128::MAX
            &&& r * 0x1_0000_0000_0000_0000 <= a * b
            &&& r < u128::MAX ==> a * b < (r + 1) * 0x1_0000_0000_0000_0000
        }),
{
    assert(a * b >= 0) by (nonlinear_arith);
    lemma_quotient(a * b, Q64 as int);
}

/// Token 0 of a price move is `liquidity * (upper - lower) / (lower * upper)`, rounded as asked
/// and clamped at 128 bits, whichever of the prices comes first.
pub proof fn law_token_0_of_a_move(lower: u128, upper: u128, liquidity: u128)
    requires
        0 < lower <= upper,
    ensures
        ({
            let moved = liquidity * (upper - lower) * 0x1_0000_0000_0000_0000;
            let up = amount_0_between(lower, upper, liquidity as int, true);
            let down = amount_0_between(lower, upper, liquidity as int, false);
            &&& up == amount_0_between(upper, lower, liquidity as int, true)
            &&& down == amount_0_between(upper, lower, liquidity as int, false)
            &&& 0 <= down <= up <= u128::MAX
            &&& (up - 1) * (lower * upper) < moved
            &&& up < u128::MAX ==> moved <= up * (lower * upper)
            &&& down * (lower * upper) <= moved
            &&& down < u128::MAX ==> moved < (down + 1) * (lower * upper)
        }),
{
    lemma_amount_0(lower, upper, liquidity);
    law_amounts_are_symmetric(lower, upper, liquidity as int, true);
    law_amounts_are_symmetric(lower, upper, liquidity as int, false);
}

/// No amount of token 0 moves the price to or from zero.
pub proof fn law_price_zero_is_out_of_reach(price: u128, liquidity: u128, round_up: bool)
    ensures
        amount_0_between(0, price, liquidity as int, round_up) == u128::MAX,
        amount_0_between(price, 0, liquidity as int, round_up) == u128::MAX,
{
}

/// Token 1 of a price move is `liquidity * (upper - lower)`, rounded as asked and clamped at
/// 128 bits, whichever of the prices comes first.
pub proof fn law_token_1_of_a_move(lower: u128, upper: u128, liquidity: u128)
    requires
        lower <= upper,
    ensures
        ({
            let moved = liquidity * (upper - lower);
            let up = amount_1_between(lower, upper, liquidity as int, true);
            let down = amount_1_between(lower, upper, liquidity as int, false);
            &&& up == amount_1_between(upper, lower, liquidity as int, true)
            &&& down == amount_1_between(upper, lower, liquidity as int, false)
            &&& 0 <= down <= up <= u128::MAX
            &&& (up - 1) * 0x1_0000_0000_0000_0000 < moved
            &&& up < u128::MAX ==> moved <= up * 0x1_0000_0000_0000_0000
            &&& down * 0x1_0000_0000_0000_0000 <= moved
            &&& down < u128::MAX ==> moved < (down + 1) * 0x1_0000_0000_0000_0000
        }),
{
    lemma_amount_1(lower, upper, liquidity);
    law_amounts_are_symmetric(lower, upper, liquidity as int, true);
    law_amounts_are_symmetric(lower, upper, liquidity as int, false);
}

/// Adding token 0 moves the price down to `L * price / (L + amount * price)`, rounded down.
pub proof fn law_price_after_adding_token_0(price: u128, liquidity: u128, amount: u128)
    requires
        price > 0,
        liquidity > 0,
    ensures
        ({
            let next = price_after_adding_0(price as int, liquidity as int, amount as int);
            let unit = liquidity * 0x1_0000_0000_0000_0000 + amount * price;
            &&& 0 <= next <= price
            &&& next * unit <= liquidity * price * 0x1_0000_0000_0000_0000 < (next + 1) * unit
        }),
{
    let unit = liquidity * Q64 + amount * price;
    let x = liquidity * price * Q64;
    let p = price as int;
    let l = liquidity as int;
    let a = amount as int;
    assert(unit > 0 && x >= 0) by (nonlinear_arith)
        requires
            unit == l * Q64 + a * p,
            x == l * p * Q64,
            l > 0,
            a >= 0,
            p >= 0,
    ;
    lemma_quotient(x, unit);
    let q = price_after_adding_0(p, l, a);
    if a == 0 {
        assert(q * unit == x && (q + 1) * unit > x) by (nonlinear_arith)
            requires
                unit == l * Q64 + a * p,
                x == l * p * Q64,
                a == 0,
                q == p,
                l > 0,
        ;
    } else {
        assert(q * unit <= x && x < (q + 1) * unit && 0 <= q <= p) by (nonlinear_arith)
            requires
                unit * q <= x < unit * q + unit,
                unit == l * Q64 + a * p,
                x == l * p * Q64,
                unit > 0,
                x >= 0,
                l > 0,
                a >= 0,
                p >= 0,
        {
            assert(x <= unit * p);
        }
    }
}

/// Removing token 0 moves the price up to `L * price / (L - amount * price)`, rounded down and
/// clamped at 128 bits. Where there is no more than the amount, the price has no bound.
pub proof fn law_price_after_removing_token_0(price: u128, liquidity: u128, amount: u128)
    requires
        price > 0,
        amount > 0,
    ensures
        ({
            let next = price_after_removing_0(price as int, liquidity as int, amount as int);
            let unit = liquidity * 0x1_0000_0000_0000_0000 - amount * price;
            &&& unit <= 0 ==> next == u128::MAX
            &&& unit > 0 ==> 0 <= next <= u128::MAX && next * unit <= liquidity * price
                * 0x1_0000_0000_0000_0000
            &&& unit > 0 && next < u128::MAX ==> liquidity * price * 0x1_0000_0000_0000_0000 < (
            next + 1) * unit
        }),
{
    let unit = liquidity * Q64 - amount * price;
    let x = liquidity * price * Q64;
    assert(x >= 0) by (nonlinear_arith)
        requires
            x == liquidity * price * Q64,
    ;
    if unit > 0 {
        lemma_quotient(x, unit);
        let q = x / unit;
        let next = price_after_removing_0(price as int, liquidity as int, amount as int);
        assert(q >= 0) by (nonlinear_arith)
            requires
                x < unit * q + unit,
                x >= 0,
                unit > 0,
        ;
        assert(next * unit <= x && (q + 1) * unit > x) by (nonlinear_arith)
            requires
                unit * q <= x < unit * q + unit,
                next <= q,
                unit > 0,
        ;
    }
}

/// A change of nothing keeps the price.
pub proof fn law_no_amount_keeps_price(price: u128, liquidity: u128)
    ensures
        price_after_adding_0(price as int, liquidity as int, 0) == price,
        price_after_removing_0(price as int, liquidity as int, 0) == price,
        price_move_of_1(liquidity as int, 0) == 0,
{
    if liquidity > 0 {
        lemma_quotient(0, liquidity as int);
        let q = 0int / liquidity as int;
        assert(q == 0) by (nonlinear_arith)
            requires
                liquidity * q <= 0 < liquidity * q + liquidity,
                liquidity > 0,
        ;
    }
}

/// Token 1 moves the price by `amount / L`, rounded down and clamped at 128 bits.
pub proof fn law_price_move_of_token_1(liquidity: u128, amount: u128)
    requires
        liquidity > 0,
    ensures
        ({
            let way = price_move_of_1(liquidity as int, amount as int);
            &&& 0 <= way <= u128::MAX
            &&& way * liquidity <= amount * 0x1_0000_0000_0000_0000
            &&& way < u128::MAX ==> amount * 0x1_0000_0000_0000_0000 < (way + 1) * liquidity
        }),
{
    let x = amount * Q64;
    let l = liquidity as int;
    lemma_quotient(x, l);
    let q = x / l;
    let way = price_move_of_1(l, amount as int);
    assert(q >= 0) by (nonlinear_arith)
        requires
            x < l * q + l,
            x >= 0,
            l > 0,
    ;
    assert(way * l <= x && (q + 1) * l > x) by (nonlinear_arith)
        requires
            l * q <= x < l * q + l,
            way <= q,
            l > 0,
    ;
}

/// A step towards a lower price takes all of its input, for the way and the fee together. What
/// the way takes of token 0 is rounded up, what it gives of token 1 down. The step gets to its
/// target just where the input less its fee pays for it; else its price is, to within one unit,
/// that to which the input less its fee moves it.
pub proof fn law_downward_step_pays_for_its_way(
    current: u128,
    target: u128,
    liquidity: u128,
    amount: u64,
    fee_rate: u128,
    net: int,
)
    requires
        target < current,
        liquidity > 0,
        fee_rate <= 1_000_000,
        net * 1_000_000 <= amount * (1_000_000 - fee_rate) < (net + 1) * 1_000_000,
    ensures
        ({
            let step = step_result(
                current,
                target,
                liquidity as int,
                amount as int,
                fee_rate as int,
            );
            let next = step.sqrt_price_next as int;
            let moved = liquidity * (current - next);
            &&& 0 < next
            &&& target <= next <= current
            &&& step.amount_in + step.fee_amount == amount
            &&& (step.amount_in - 1) * (current * next) < moved * 0x1_0000_0000_0000_0000
                <= step.amount_in * (current * next)
            &&& step.amount_out * 0x1_0000_0000_0000_0000 <= moved
            &&& step.amount_out < u128::MAX ==> moved < (step.amount_out + 1)
                * 0x1_0000_0000_0000_0000
            &&& liquidity * (current - target) * 0x1_0000_0000_0000_0000 <= net * (current * target)
                ==> next == target
            &&& liquidity * (current - target) * 0x1_0000_0000_0000_0000 > net * (current * target)
                ==> {
                &&& liquidity * (current - next - 1) * 0x1_0000_0000_0000_0000 <= net * (current * (
                next + 1))
                &&& net * (current * (next - 1)) <= liquidity * (current - next + 1)
                    * 0x1_0000_0000_0000_0000
            }
        }),
{
    let rate = fee_rate as int;
    lemma_net_of_fee(amount as int, rate);
    assert(net == net_of_fee(amount as int, rate));
    let needed = input_to_reach(current, target, liquidity as int);
    let step = step_result(current, target, liquidity as int, amount as int, rate);
    lemma_step_in_range(current, target, liquidity, amount as u128, fee_rate);
    law_downward_step_stays_on_its_way(current, target, liquidity, amount as u128, fee_rate);
    law_step_uses_up_input(current, target, liquidity, amount as u128, fee_rate);
    let next = step.sqrt_price_next;
    assert(next > 0) by {
        if target == 0 {
            assert(needed == u128::MAX);
            assert(amount_0_between(0, current, liquidity as int, true) == u128::MAX);
        }
    }
    lemma_amount_0(next, current, liquidity);
    lemma_amount_1(next, current, liquidity);
    assert(next * current == current * next) by (nonlinear_arith);
    let p = current as int;
    let l = liquidity as int;
    let t = target as int;
    let enough = l * (p - t) * Q64 <= net * (p * t);
    if target > 0 {
        lemma_amount_0(target, current, liquidity);
        assert(enough <==> net >= needed) by (nonlinear_arith)
            requires
                (needed - 1) * (t * p) < l * (p - t) * Q64,
                needed < u128::MAX ==> l * (p - t) * Q64 <= needed * (t * p),
                net < u128::MAX,
                0 <= needed <= u128::MAX,
                enough == (l * (p - t) * Q64 <= net * (p * t)),
                t > 0,
                p > 0,
        {
            let d = t * p;
            let m = l * (p - t) * Q64;
            assert(d > 0);
            assert(p * t == d);
            if net >= needed {
                assert(needed * d <= net * d);
            } else {
                assert(net * d <= (needed - 1) * d);
            }
        }
    } else {
        assert(!enough) by (nonlinear_arith)
            requires
                t == 0,
                l > 0,
                p > 0,
                enough == (l * (p - t) * Q64 <= net * (p * t)),
        ;
    }
    if !enough {
        let d = l * Q64 + net * p;
        let x = l * p * Q64;
        assert(d > 0 && x >= 0) by (nonlinear_arith)
            requires
                l > 0,
                net >= 0,
                p >= 0,
                d == l * Q64 + net * p,
                x == l * p * Q64,
        ;
        lemma_quotient(x, d);
        let f = price_after_adding_0(p, l, net);
        assert(d * f <= x < d * f + d) by {
            if net == 0 {
                assert(d * f == x) by (nonlinear_arith)
                    requires
                        f == p,
                        net == 0,
                        d == l * Q64 + net * p,
                        x == l * p * Q64,
                ;
            }
        }
        assert(net * (p * f) <= l * (p - f) * Q64) by (nonlinear_arith)
            requires
                d * f <= x,
                d == l * Q64 + net * p,
                x == l * p * Q64,
        ;
        assert(l * (p - f - 1) * Q64 <= net * (p * (f + 1))) by (nonlinear_arith)
            requires
                x < d * f + d,
                d == l * Q64 + net * p,
                x == l * p * Q64,
        ;
        let n = next as int;
        assert(n == f || n == f + 1);
        if n == f {
            assert(net * (p * (n - 1)) <= l * (p - n + 1) * Q64) by (nonlinear_arith)
                requires
                    net * (p * n) <= l * (p - n) * Q64,
                    net >= 0,
                    p >= 0,
                    l >= 0,
            ;
        } else {
            assert(l * (p - n - 1) * Q64 <= net * (p * (n + 1))) by (nonlinear_arith)
                requires
                    l * (p - n) * Q64 <= net * (p * n),
                    net >= 0,
                    p >= 0,
                    l >= 0,
            ;
        }
    }
}

/// A step towards a higher price takes all of its input, for the way and the fee together. What
/// the way takes of token 1 is rounded up, what it gives of token 0 down. The step gets to its
/// target just where the input less its fee pays for it; else its price is that to which the
/// input less its fee moves it, rounded down.
pub proof fn law_upward_step_pays_for_its_way(
    current: u128,
    target: u128,
    liquidity: u128,
    amount: u64,
    fee_rate: u128,
    net: int,
)
    requires
        0 < current < target,
        liquidity > 0,
        fee_rate <= 1_000_000,
        net * 1_000_000 <= amount * (1_000_000 - fee_rate) < (net + 1) * 1_000_000,
    ensures
        ({
            let step = step_result(
                current,
                target,
                liquidity as int,
                amount as int,
                fee_rate as int,
            );
            let next = step.sqrt_price_next as int;
            let moved = liquidity * (next - current);
            &&& current <= next <= target
            &&& step.amount_in + step.fee_amount == amount
            &&& (step.amount_in - 1) * 0x1_0000_0000_0000_0000 < moved <= step.amount_in
                * 0x1_0000_0000_0000_0000
            &&& step.amount_out * (current * next) <= moved * 0x1_0000_0000_0000_0000
            &&& step.amount_out < u128::MAX ==> moved * 0x1_0000_0000_0000_0000 < (step.amount_out
                + 1) * (current * next)
            &&& liquidity * (target - current) <= net * 0x1_0000_0000_0000_0000 ==> next == target
            &&& liquidity * (target - current) > net * 0x1_0000_0000_0000_0000 ==> moved <= net
                * 0x1_0000_0000_0000_0000 < liquidity * (next - current + 1)
        }),
{
    let rate = fee_rate as int;
    lemma_net_of_fee(amount as int, rate);
    assert(net == net_of_fee(amount as int, rate));
    let needed = input_to_reach(current, target, liquidity as int);
    let step = step_result(current, target, liquidity as int, amount as int, rate);
    lemma_step_in_range(current, target, liquidity, amount as u128, fee_rate);
    law_upward_step_stays_on_its_way(current, target, liquidity, amount as u128, fee_rate);
    law_step_uses_up_input(current, target, liquidity, amount as u128, fee_rate);
    let next = step.sqrt_price_next;
    lemma_amount_0(current, next, liquidity);
    lemma_amount_1(current, next, liquidity);
    lemma_amount_1(current, target, liquidity);
    let l = liquidity as int;
    let way = target - current;
    assert(net >= needed <==> l * way <= net * Q64);
    if net < needed {
        let x = net * Q64;
        lemma_quotient(x, l);
        let q = x / l;
        assert(q < way) by (nonlinear_arith)
            requires
                l * q <= x,
                x < l * way,
                l > 0,
        ;
        assert(q >= 0) by (nonlinear_arith)
            requires
                x < l * q + l,
                x >= 0,
                l > 0,
        ;
        assert(next == current + q);
        assert(l * (next - current + 1) == l * q + l) by (nonlinear_arith)
            requires
                next - current == q,
        ;
    }
}

/// The input of a segment is the least whose net pays for the way to its target, or all there
/// is where that does not. `needed` is what the way takes, and `net` what is left of the
/// remaining input after its fee.
pub proof fn law_segment_takes_least_input(
    current: u128,
    target: u128,
    liquidity: u128,
    amount: u64,
    fee_rate: u128,
    needed: int,
    net: int,
)
    requires
        liquidity > 0,
        fee_rate < 1_000_000,
        net * 1_000_000 <= amount * (1_000_000 - fee_rate) < (net + 1) * 1_000_000,
        current >= target ==> needed == amount_0_between(target, current, liquidity as int, true),
        current < target ==> needed == amount_1_between(current, target, liquidity as int, true),
    ensures
        ({
            let input = segment_input(
                current,
                target,
                liquidity as int,
                amount as int,
                fee_rate as int,
            );
            &&& needed > net ==> input == amount
            &&& needed <= net ==> {
                &&& needed * 1_000_000 <= input * (1_000_000 - fee_rate)
                &&& (input - 1) * (1_000_000 - fee_rate) < needed * 1_000_000
                &&& 0 <= input <= amount
            }
        }),
{
    let rate = fee_rate as int;
    lemma_net_of_fee(amount as int, rate);
    assert(net == net_of_fee(amount as int, rate));
    lemma_step_in_range(current, target, liquidity, amount as u128, fee_rate);
    let d = 1_000_000 - rate;
    let x = needed * 1_000_000;
    lemma_ceil_div(x, d);
    let input = segment_input(current, target, liquidity as int, amount as int, rate);
    if needed <= net {
        let c = ceil_div(x, d);
        assert(c * d >= x && (c - 1) * d < x && 0 <= c <= amount) by (nonlinear_arith)
            requires
                d * (c - 1) < x <= d * c,
                x == needed * 1_000_000,
                0 <= needed <= net,
                net * 1_000_000 <= amount * d,
                d > 0,
        ;
        if needed == 0 {
            assert(input == 0);
            assert((0 - 1) * d < 0);
        }
    }
}

/// A swap heads for the price of the first tick in use ahead of it.
pub proof fn law_first_tick_ahead_is_the_target(
    accounts: Seq<Vec<u8>>,
    tick: int,
    zero_for_one: bool,
    boundary: int,
    limit: u128,
)
    requires
        first_ahead(accounts, tick, zero_for_one, boundary),
    ensures
        boundary_ahead(accounts, tick, zero_for_one) == Some(boundary),
        price_target(accounts, tick, zero_for_one, limit) == Some(sqrt_price_at(boundary)),
{
    lemma_first_ahead(accounts, tick, zero_for_one, boundary);
}

/// A swap heads for its limit where no tick in use is ahead.
pub proof fn law_limit_is_the_target_without_ticks(
    accounts: Seq<Vec<u8>>,
    tick: int,
    zero_for_one: bool,
    limit: u128,
)
    requires
        nothing_ahead(accounts, tick, zero_for_one),
    ensures
        boundary_ahead(accounts, tick, zero_for_one) is None,
        price_target(accounts, tick, zero_for_one, limit) == Some(limit as int),
{
    lemma_nothing_ahead(accounts, tick, zero_for_one);
}

/// The tick of a price is the greatest one whose price is not above it.
pub proof fn law_tick_of_price_is_greatest_below(price: u128)
    ensures
        ({
            let tick = tick_of_price(price as int);
            &&& -443_636 <= tick <= 443_636
            &&& tick > -443_636 ==> sqrt_price_at(tick) <= price
            &&& tick < 443_636 ==> price < sqrt_price_at(tick + 1)
        }),
{
    law_price_has_one_tick(price as int, tick_of_price(price as int));
}

/// The net liquidity at a tick is what the first array that spans it records, upwards as it
/// stands and downwards its negative.
pub proof fn law_net_is_read_from_first_array(
    accounts: Seq<Vec<u8>>,
    zero_for_one: bool,
    i: int,
    slot: int,
)
    requires
        flagged(accounts, i, slot),
        le_i128(accounts[i]@, 56 + 80 * slot) > i128::MIN,
        forall|j: int|
            0 <= j < i ==> !(le_i32((#[trigger] accounts[j])@, 8) <= tick_held(accounts, i, slot)
                < le_i32(accounts[j]@, 8) + 5_632),
    ensures
        net_at_tick(accounts, tick_held(accounts, i, slot), zero_for_one) == Some(
            if zero_for_one {
                -le_i128(accounts[i]@, 56 + 80 * slot)
            } else {
                le_i128(accounts[i]@, 56 + 80 * slot)
            },
        ),
{
    let tick = tick_held(accounts, i, slot);
    assert(slot_of(accounts[i]@, tick) == slot);
    assert forall|j: int| 0 <= j < i implies !#[trigger] decides(accounts[j]@, tick) by {
        assert(accounts[j] == accounts[j]);
    }
    law_recorded_net_is_applied(accounts, tick, i, zero_for_one);
}

/// A tick that no array spans changes nothing.
pub proof fn law_net_is_zero_outside_the_arrays(
    accounts: Seq<Vec<u8>>,
    zero_for_one: bool,
    tick: int,
)
    requires
        forall|j: int|
            0 <= j < accounts.len() ==> !(le_i32((#[trigger] accounts[j])@, 8) <= tick < le_i32(
                accounts[j]@,
                8,
            ) + 5_632),
    ensures
        net_at_tick(accounts, tick, zero_for_one) == Some(0int),
{
    assert forall|j: int| 0 <= j < accounts.len() implies !#[trigger] decides(
        accounts[j]@,
        tick,
    ) by {
        assert(accounts[j] == accounts[j]);
    }
}

} // verus!
