//! Steps, segments and walks of a swap, multiplied out.

use vstd::prelude::*;

use crate::arith::{ceil_div, lemma_ceil_div, lemma_quotient, lemma_quotient_at_least, sat, Q64};
use crate::bytes::le_i128;
use crate::pool_core::{
    swap_outcome, swap_start, swapped, PoolError, Swap, SwapReceipt, MAX_TICK_CROSSINGS,
};
use crate::pool_core::laws::{
    law_segment_keeps_tick_fitting, lemma_boundary_is_ahead, lemma_boundary_price_is_ahead,
    lemma_segment_step, lemma_walk_accounts, lemma_walk_moves_price_its_way, on_grid,
    tick_fits_price,
};
use crate::pool_core::segments::{
    growth_of_fee, limit_beyond, segment, segment_step, state_after_step, walk, SwapState,
};
use crate::pool_core::swap_instruction_laws::{
    all_on_grid, ends_by, first_ahead, flagged, in_use, is_across, is_stretch, nothing_ahead,
    records_net, tick_held, Stretch,
};
use crate::pool_core::swap_laws::{
    law_downward_step_stays_on_its_way, law_fee_and_net_make_up_gross,
    law_full_segment_pays_fee_rate, law_no_liquidity_no_tokens, law_no_move_no_tokens,
    law_segment_input_suffices, law_segment_without_liquidity_is_free, law_step_uses_up_input,
    law_upward_step_stays_on_its_way, lemma_net_of_fee, lemma_step_in_range,
};
use crate::pool_core::swap_math::{
    amount_0_between, amount_1_between, fee_of, input_to_reach, net_of_fee, price_after_adding_0,
    segment_input, step_result,
};
use crate::pool_core::tick_loop::{
    boundary_ahead, boundary_at, decides, is_first_to_decide, is_next_boundary,
    law_price_has_one_tick, law_recorded_net_is_applied, law_tick_of_tick_price,
    law_tick_rises_with_price, lemma_next_boundary, net_at_tick, none_decides, not_after,
    price_target, slot_in_use, slot_of, tick_in_slot, tick_of_price,
};
use crate::tick_manager::math::tick_on_grid;
use crate::tick_manager::price::{law_price_rises_with_tick, lemma_price_in_range, sqrt_price_at};

verus! {

/// Token 0 between two prices, multiplied out.
pub proof fn lemma_amount_0(lower: u128, upper: u128, liquidity: u128)
    requires
        0 < lower <= upper,
    ensures
        ({
            let moved = liquidity * (upper - lower) * Q64;
            let up = amount_0_between(lower, upper, liquidity as int, true);
            let down = amount_0_between(lower, upper, liquidity as int, false);
            &&& 0 <= down <= up <= u128::MAX
            &&& (up - 1) * (lower * upper) < moved
            &&& up < u128::MAX ==> moved <= up * (lower * upper)
            &&& down * (lower * upper) <= moved
            &&& down < u128::MAX ==> moved < (down + 1) * (lower * upper)
        }),
{
    let moved = liquidity * (upper - lower) * Q64;
    let d = lower * upper;
    assert(d > 0) by (nonlinear_arith)
        requires
            0 < lower <= upper,
            d == lower * upper,
    ;
    assert(moved >= 0) by (nonlinear_arith)
        requires
            upper >= lower,
            moved == liquidity * (upper - lower) * Q64,
    ;
    lemma_ceil_div(moved, d);
    lemma_quotient(moved, d);
    let q = moved / d;
    let c = ceil_div(moved, d);
    let up = amount_0_between(lower, upper, liquidity as int, true);
    let down = amount_0_between(lower, upper, liquidity as int, false);
    assert(q >= 0 && c >= 0 && q <= c) by (nonlinear_arith)
        requires
            moved >= 0,
            d > 0,
            moved < d * q + d,
            d * q <= moved,
            c * d >= moved,
    ;
    assert((up - 1) * d <= (c - 1) * d) by (nonlinear_arith)
        requires
            up <= c,
            d > 0,
    ;
    assert(down * d <= q * d && q * d == d * q) by (nonlinear_arith)
        requires
            down <= q,
            d > 0,
    ;
    assert((q + 1) * d == d * q + d) by (nonlinear_arith);
}

/// Token 1 between two prices, multiplied out.
pub proof fn lemma_amount_1(lower: u128, upper: u128, liquidity: u128)
    requires
        lower <= upper,
    ensures
        ({
            let moved = liquidity * (upper - lower);
            let up = amount_1_between(lower, upper, liquidity as int, true);
            let down = amount_1_between(lower, upper, liquidity as int, false);
            &&& 0 <= down <= up <= u128::MAX
            &&& (up - 1) * Q64 < moved
            &&& up < u128::MAX ==> moved <= up * Q64
            &&& down * Q64 <= moved
            &&& down < u128::MAX ==> moved < (down + 1) * Q64
        }),
{
    let moved = liquidity * (upper - lower);
    assert(moved >= 0) by (nonlinear_arith)
        requires
            upper >= lower,
            moved == liquidity * (upper - lower),
    ;
    lemma_ceil_div(moved, Q64 as int);
    lemma_quotient(moved, Q64 as int);
}

/// The step of a downward segment with liquidity, multiplied out.
#[verifier::rlimit(30)]
pub proof fn lemma_downward_step(state: SwapState, target: u128, fee_rate: u128, net: int)
    requires
        target < state.sqrt_price,
        state.liquidity > 0,
        fee_rate < 1_000_000,
        state.amount_remaining <= u64::MAX,
        net * 1_000_000 <= state.amount_remaining * (1_000_000 - fee_rate) < (net + 1) * 1_000_000,
    ensures
        ({
            let step = segment_step(state, target, fee_rate as int);
            let price = state.sqrt_price as int;
            let next = step.sqrt_price_next as int;
            let moved = state.liquidity * (price - next);
            let gross = step.amount_in + step.fee_amount;
            &&& net == net_of_fee(state.amount_remaining as int, fee_rate as int)
            &&& 0 < next
            &&& target <= next <= price
            &&& gross <= state.amount_remaining
            &&& (step.amount_in - 1) * (price * next) < moved * Q64 <= step.amount_in * (price
                * next)
            &&& step.amount_out * Q64 <= moved
            &&& step.amount_out < u128::MAX ==> moved < (step.amount_out + 1) * Q64
            &&& next == target && step.amount_in <= net ==> {
                &&& gross * fee_rate <= step.fee_amount * 1_000_000
                &&& (step.fee_amount - 1) * 1_000_000 < gross * fee_rate
            }
            &&& next > target || step.amount_in > net ==> {
                &&& gross == state.amount_remaining
                &&& state.liquidity * (price - next - 1) * Q64 <= net * (price * (next + 1))
                &&& net * (price * (next - 1)) <= state.liquidity * (price - next + 1) * Q64
            }
        }),
{
    let current = state.sqrt_price;
    let liquidity = state.liquidity;
    let amount = state.amount_remaining;
    let rate = fee_rate as int;
    lemma_net_of_fee(amount as int, rate);
    assert(net == net_of_fee(amount as int, rate));
    let needed = input_to_reach(current, target, liquidity as int);
    let input = segment_input(current, target, liquidity as int, amount as int, rate);
    let step = segment_step(state, target, rate);
    law_segment_input_suffices(current, target, liquidity, amount, fee_rate);
    lemma_step_in_range(current, target, liquidity, input as u128, fee_rate);
    law_downward_step_stays_on_its_way(current, target, liquidity, input as u128, fee_rate);
    law_step_uses_up_input(current, target, liquidity, input as u128, fee_rate);
    let next = step.sqrt_price_next;
    assert(next > 0) by {
        if target == 0 {
            assert(needed == u128::MAX);
            assert(amount_0_between(0, current, liquidity as int, true) == u128::MAX);
        }
    }
    lemma_amount_0(next, current, liquidity);
    lemma_amount_1(next, current, liquidity);
    assert(next * current == current * next) by (nonlinear_arith);
    assert(liquidity * (current - next) * Q64 == (liquidity * (current - next)) * Q64);
    if net >= needed {
        law_full_segment_pays_fee_rate(current, target, liquidity, amount, fee_rate);
        assert(input * rate <= u128::MAX * 1_000_000) by (nonlinear_arith)
            requires
                0 <= input <= u64::MAX,
                0 <= rate < 1_000_000,
        ;
        assert(input * rate >= 0) by (nonlinear_arith)
            requires
                0 <= input,
                0 <= rate,
        ;
        lemma_ceil_div(input * rate, 1_000_000);
        assert(fee_of(input, rate) == ceil_div(input * rate, 1_000_000));
    } else {
        assert(input == amount);
        let floor = price_after_adding_0(current as int, liquidity as int, net);
        let d = liquidity * Q64 + net * current;
        let x = liquidity * current * Q64;
        let p = current as int;
        let l = liquidity as int;
        assert(net >= 0);
        assert(d > 0 && x >= 0) by (nonlinear_arith)
            requires
                l > 0,
                net >= 0,
                p >= 0,
                d == l * Q64 + net * p,
                x == l * p * Q64,
        ;
        lemma_quotient(x, d);
        let f = floor;
        assert(d * f <= x < d * f + d) by {
            if net == 0 {
                assert(d * f == x) by (nonlinear_arith)
                    requires
                        f == p,
                        net == 0,
                        d == l * Q64 + net * p,
                        x == l * p * Q64,
                ;
            }
        }
        assert(net * (p * f) <= l * (p - f) * Q64) by (nonlinear_arith)
            requires
                d * f <= x,
                d == l * Q64 + net * p,
                x == l * p * Q64,
        ;
        assert(l * (p - f - 1) * Q64 <= net * (p * (f + 1))) by (nonlinear_arith)
            requires
                x < d * f + d,
                d == l * Q64 + net * p,
                x == l * p * Q64,
        ;
        let n = next as int;
        assert(n == f || n == f + 1);
        if n == f {
            assert(net * (p * (n - 1)) <= l * (p - n + 1) * Q64) by (nonlinear_arith)
                requires
                    net * (p * n) <= l * (p - n) * Q64,
                    net >= 0,
                    p >= 0,
                    l >= 0,
            ;
        } else {
            assert(l * (p - n - 1) * Q64 <= net * (p * (n + 1))) by (nonlinear_arith)
                requires
                    l * (p - n) * Q64 <= net * (p * n),
                    net >= 0,
                    p >= 0,
                    l >= 0,
            ;
        }
    }
}

/// The step of an upward segment with liquidity, multiplied out.
pub proof fn lemma_upward_step(state: SwapState, target: u128, fee_rate: u128, net: int)
    requires
        0 < state.sqrt_price < target,
        state.liquidity > 0,
        fee_rate < 1_000_000,
        state.amount_remaining <= u64::MAX,
        net * 1_000_000 <= state.amount_remaining * (1_000_000 - fee_rate) < (net + 1) * 1_000_000,
    ensures
        ({
            let step = segment_step(state, target, fee_rate as int);
            let price = state.sqrt_price as int;
            let next = step.sqrt_price_next as int;
            let moved = state.liquidity * (next - price);
            let gross = step.amount_in + step.fee_amount;
            &&& net == net_of_fee(state.amount_remaining as int, fee_rate as int)
            &&& price <= next <= target
            &&& step.amount_in <= net
            &&& gross <= state.amount_remaining
            &&& (step.amount_in - 1) * Q64 < moved <= step.amount_in * Q64
            &&& step.amount_out * (price * next) <= moved * Q64
            &&& step.amount_out < u128::MAX ==> moved * Q64 < (step.amount_out + 1) * (price
                * next)
            &&& next == target ==> {
                &&& gross * fee_rate <= step.fee_amount * 1_000_000
                &&& (step.fee_amount - 1) * 1_000_000 < gross * fee_rate
            }
            &&& next < target ==> {
                &&& gross == state.amount_remaining
                &&& moved <= net * Q64 < state.liquidity * (next - price + 1)
            }
        }),
{
    let current = state.sqrt_price;
    let liquidity = state.liquidity;
    let amount = state.amount_remaining;
    let rate = fee_rate as int;
    lemma_net_of_fee(amount as int, rate);
    assert(net == net_of_fee(amount as int, rate));
    let needed = input_to_reach(current, target, liquidity as int);
    let input = segment_input(current, target, liquidity as int, amount as int, rate);
    let step = segment_step(state, target, rate);
    law_segment_input_suffices(current, target, liquidity, amount, fee_rate);
    lemma_step_in_range(current, target, liquidity, input as u128, fee_rate);
    law_upward_step_stays_on_its_way(current, target, liquidity, input as u128, fee_rate);
    law_step_uses_up_input(current, target, liquidity, input as u128, fee_rate);
    let next = step.sqrt_price_next;
    lemma_amount_0(current, next, liquidity);
    lemma_amount_1(current, next, liquidity);
    lemma_amount_1(current, target, liquidity);
    let l = liquidity as int;
    if net >= needed {
        law_full_segment_pays_fee_rate(current, target, liquidity, amount, fee_rate);
        assert(input * rate <= u128::MAX * 1_000_000) by (nonlinear_arith)
            requires
                0 <= input <= u64::MAX,
                0 <= rate < 1_000_000,
        ;
        assert(input * rate >= 0) by (nonlinear_arith)
            requires
                0 <= input,
                0 <= rate,
        ;
        lemma_ceil_div(input * rate, 1_000_000);
        assert(fee_of(input, rate) == ceil_div(input * rate, 1_000_000));
    } else {
        assert(input == amount);
        let x = net * Q64;
        lemma_quotient(x, l);
        let q = x / l;
        let way = target - current;
        assert(q < way) by (nonlinear_arith)
            requires
                l * q <= x,
                x == net * Q64,
                net <= needed - 1,
                (needed - 1) * Q64 < l * way,
                l > 0,
        ;
        assert(q >= 0) by (nonlinear_arith)
            requires
                x < l * q + l,
                x >= 0,
                l > 0,
        ;
        assert(next == current + q);
        assert(l * (next - current + 1) == l * q + l) by (nonlinear_arith)
            requires
                next - current == q,
        ;
        let a = step.amount_in as int;
        assert(a <= net) by (nonlinear_arith)
            requires
                (a - 1) * Q64 < l * q,
                l * q <= net * Q64,
        ;
    }
}

pub proof fn lemma_nothing_ahead(accounts: Seq<Vec<u8>>, tick: int, zero_for_one: bool)
    requires
        nothing_ahead(accounts, tick, zero_for_one),
    ensures
        boundary_ahead(accounts, tick, zero_for_one) is None,
{
    assert forall|i: int, slot: int| 0 <= i < accounts.len() implies !#[trigger] boundary_at(
        accounts[i]@,
        slot,
        tick,
        zero_for_one,
    ) by {
        if boundary_at(accounts[i]@, slot, tick, zero_for_one) {
            assert(flagged(accounts, i, slot));
        }
    }
}

pub proof fn lemma_first_ahead(
    accounts: Seq<Vec<u8>>,
    tick: int,
    zero_for_one: bool,
    boundary: int,
)
    requires
        first_ahead(accounts, tick, zero_for_one, boundary),
    ensures
        boundary_ahead(accounts, tick, zero_for_one) == Some(boundary),
        forall|limit: u128| #[trigger]
            price_target(accounts, tick, zero_for_one, limit) == Some(sqrt_price_at(boundary)),
        0 < sqrt_price_at(boundary) <= u128::MAX,
{
    lemma_nearest_ahead(accounts, tick, zero_for_one, boundary);
    lemma_price_in_range(boundary);
}

pub proof fn lemma_nearest_ahead(
    accounts: Seq<Vec<u8>>,
    tick: int,
    zero_for_one: bool,
    boundary: int,
)
    requires
        in_use(accounts, boundary),
        if zero_for_one {
            boundary <= tick
        } else {
            boundary > tick
        },
        forall|i: int, slot: int| #[trigger]
            flagged(accounts, i, slot) ==> if zero_for_one {
                tick_held(accounts, i, slot) <= boundary || tick_held(accounts, i, slot) > tick
            } else {
                tick_held(accounts, i, slot) >= boundary || tick_held(accounts, i, slot) <= tick
            },
    ensures
        boundary_ahead(accounts, tick, zero_for_one) == Some(boundary),
{
    let (i, slot) = choose|i: int, slot: int| #[trigger]
        flagged(accounts, i, slot) && tick_held(accounts, i, slot) == boundary;
    assert(boundary_at(accounts[i]@, slot, tick, zero_for_one));
    assert forall|i: int, slot: int|
        0 <= i < accounts.len() && #[trigger] boundary_at(
            accounts[i]@,
            slot,
            tick,
            zero_for_one,
        ) implies not_after(boundary, tick_in_slot(accounts[i]@, slot), zero_for_one) by {
        assert(flagged(accounts, i, slot));
    }
    assert(is_next_boundary(accounts, tick, zero_for_one, boundary));
    lemma_next_boundary(accounts, tick, zero_for_one, boundary);
}

pub proof fn lemma_on_grid(accounts: Seq<Vec<u8>>)
    requires
        all_on_grid(accounts),
    ensures
        on_grid(accounts),
{
    assert forall|i: int, slot: int|
        0 <= i < accounts.len() && #[trigger] slot_in_use(accounts[i]@, slot) implies
        tick_on_grid(tick_in_slot(accounts[i]@, slot)) by {
        assert(flagged(accounts, i, slot));
    }
}

/// A walk that crosses its first boundary gets to the boundary's price or beyond.
pub proof fn lemma_walk_behind_boundary(
    crossed: SwapState,
    accounts: Seq<Vec<u8>>,
    zero_for_one: bool,
    sqrt_price_limit: u128,
    fee_rate: u128,
    crossings: nat,
    boundary: int,
)
    requires
        -443_636 <= boundary <= 443_636,
        crossed.sqrt_price == sqrt_price_at(boundary),
        crossed.tick == if zero_for_one {
            boundary - 1
        } else {
            boundary
        },
        all_on_grid(accounts),
        limit_beyond(crossed.sqrt_price, sqrt_price_limit, zero_for_one),
        walk(
            crossed,
            accounts,
            zero_for_one,
            sqrt_price_limit,
            fee_rate as int,
            crossings,
        ) is Some,
    ensures
        ({
            let end = walk(
                crossed,
                accounts,
                zero_for_one,
                sqrt_price_limit,
                fee_rate as int,
                crossings,
            )->0;
            if zero_for_one {
                end.sqrt_price <= crossed.sqrt_price
            } else {
                end.sqrt_price >= crossed.sqrt_price
            }
        }),
{
    lemma_on_grid(accounts);
    law_tick_of_tick_price(boundary);
    lemma_walk_moves_price_its_way(
        crossed,
        accounts,
        zero_for_one,
        sqrt_price_limit,
        fee_rate,
        crossings,
    );
}

/// The first segment of a swap is its whole outcome, where the swap does not go on behind it.
#[verifier::rlimit(30)]
pub proof fn lemma_swap_ends_by(
    before: Swap,
    accounts: Seq<Vec<u8>>,
    amount: u64,
    zero_for_one: bool,
    sqrt_price_limit: u128,
    amount_out_minimum: u64,
    after: Swap,
    r: Result<SwapReceipt, PoolError>,
    stop: u128,
)
    requires
        swapped(
            before,
            accounts,
            amount,
            zero_for_one,
            sqrt_price_limit,
            amount_out_minimum,
            after,
            r,
        ),
        r is Ok,
        ends_by(
            accounts,
            before.pool.tick_current as int,
            zero_for_one,
            sqrt_price_limit,
            after.pool.sqrt_price,
            stop,
        ),
    ensures
        ({
            let start = swap_start(before.pool, amount);
            let step = segment_step(start, stop, before.pool.fee_rate as int);
            let end = swap_outcome(
                before.pool,
                accounts,
                amount,
                zero_for_one,
                sqrt_price_limit,
            )->0;
            &&& end.sqrt_price == step.sqrt_price_next
            &&& end.amount_in == step.amount_in
            &&& end.amount_out == step.amount_out
            &&& end.fee == step.fee_amount
            &&& end.fee_growth == sat(
                growth_of_fee(step.fee_amount as int, before.pool.liquidity as int),
            )
            &&& end.sqrt_price != stop || nothing_ahead(
                accounts,
                before.pool.tick_current as int,
                zero_for_one,
            ) ==> {
                &&& end.liquidity == before.pool.liquidity
                &&& end.sqrt_price == before.pool.sqrt_price ==> end.tick
                    == before.pool.tick_current
                &&& end.sqrt_price != before.pool.sqrt_price ==> end.tick == tick_of_price(
                    end.sqrt_price as int,
                )
            }
        }),
{
    let start = swap_start(before.pool, amount);
    let rate = before.pool.fee_rate as int;
    let tick = before.pool.tick_current as int;
    let step = segment_step(start, stop, rate);
    let moved = state_after_step(start, step);
    law_price_has_one_tick(
        moved.sqrt_price as int,
        tick_of_price(moved.sqrt_price as int),
    );
    assert(growth_of_fee(step.fee_amount as int, before.pool.liquidity as int) >= 0) by {
        if before.pool.liquidity > 0 {
            lemma_quotient(step.fee_amount * Q64, before.pool.liquidity as int);
            lemma_quotient_at_least(
                step.fee_amount * Q64,
                before.pool.liquidity as int,
                0,
            );
        }
    }
    if nothing_ahead(accounts, tick, zero_for_one) {
        lemma_nothing_ahead(accounts, tick, zero_for_one);
        if exists|boundary: int| #[trigger] first_ahead(accounts, tick, zero_for_one, boundary) {
            let boundary = choose|boundary: int| #[trigger]
                first_ahead(accounts, tick, zero_for_one, boundary);
            lemma_first_ahead(accounts, tick, zero_for_one, boundary);
        }
        assert(stop == sqrt_price_limit);
    } else {
        let boundary = choose|boundary: int| #[trigger]
            first_ahead(accounts, tick, zero_for_one, boundary) && stop == sqrt_price_at(boundary)
                && if zero_for_one {
                sqrt_price_limit >= stop || all_on_grid(accounts) && after.pool.sqrt_price > stop
            } else {
                sqrt_price_limit <= stop || all_on_grid(accounts) && after.pool.sqrt_price < stop
            };
        lemma_first_ahead(accounts, tick, zero_for_one, boundary);
        let (next, go_on) = segment(start, accounts, zero_for_one, sqrt_price_limit, rate)->0;
        assert(price_target(accounts, tick, zero_for_one, sqrt_price_limit) == Some(
            sqrt_price_at(boundary),
        ));
        if go_on {
            lemma_walk_behind_boundary(
                next,
                accounts,
                zero_for_one,
                sqrt_price_limit,
                rate as u128,
                (MAX_TICK_CROSSINGS - 1) as nat,
                boundary,
            );
        }
    }
}

/// Payment, fee and what remains make up the amount of a swap.
pub proof fn lemma_swap_accounts(
    before: Swap,
    accounts: Seq<Vec<u8>>,
    amount: u64,
    zero_for_one: bool,
    sqrt_price_limit: u128,
    amount_out_minimum: u64,
    after: Swap,
    r: Result<SwapReceipt, PoolError>,
)
    requires
        swapped(
            before,
            accounts,
            amount,
            zero_for_one,
            sqrt_price_limit,
            amount_out_minimum,
            after,
            r,
        ),
        r is Ok,
    ensures
        ({
            let end = swap_outcome(
                before.pool,
                accounts,
                amount,
                zero_for_one,
                sqrt_price_limit,
            )->0;
            end.fee == r->Ok_0.event.fee_amount && end.amount_in + end.fee
                + end.amount_remaining == amount
        }),
{
    lemma_walk_accounts(
        swap_start(before.pool, amount),
        accounts,
        zero_for_one,
        sqrt_price_limit,
        before.pool.fee_rate as u128,
        MAX_TICK_CROSSINGS as nat,
        amount as int,
    );
}

/// A swap that comes to the first tick in use ahead goes on from where a swap to that tick ends,
/// with what the latter has left.
#[verifier::rlimit(30)]
pub proof fn lemma_first_crossing(
    before: Swap,
    accounts: Seq<Vec<u8>>,
    amount: u64,
    zero_for_one: bool,
    sqrt_price_limit: u128,
    boundary: int,
    stop: u128,
    there: Swap,
    first: Result<SwapReceipt, PoolError>,
    rest: u64,
)
    requires
        first_ahead(accounts, before.pool.tick_current as int, zero_for_one, boundary),
        stop == sqrt_price_at(boundary),
        limit_beyond(stop, sqrt_price_limit, zero_for_one),
        swapped(before, accounts, amount, zero_for_one, stop, 0, there, first),
        first is Ok,
        there.pool.sqrt_price == stop,
        rest == amount - first->Ok_0.payment.amount - first->Ok_0.event.fee_amount,
    ensures
        ({
            let rate = before.pool.fee_rate as int;
            let crossed = swap_outcome(before.pool, accounts, amount, zero_for_one, stop)->0;
            let from = swap_start(there.pool, rest);
            &&& swap_outcome(before.pool, accounts, amount, zero_for_one, sqrt_price_limit) == walk(
                crossed,
                accounts,
                zero_for_one,
                sqrt_price_limit,
                rate,
                9,
            )
            &&& ahead_by(crossed, from, crossed)
            &&& there.pool.fee_rate == before.pool.fee_rate
            &&& from.sqrt_price == stop
            &&& from.tick == if zero_for_one {
                boundary - 1
            } else {
                boundary
            }
            &&& crossed.amount_in == first->Ok_0.payment.amount
            &&& crossed.amount_out == first->Ok_0.payout.transfer.amount
            &&& crossed.fee == first->Ok_0.event.fee_amount
        }),
{
    let start = swap_start(before.pool, amount);
    let rate = before.pool.fee_rate as int;
    let tick = before.pool.tick_current as int;
    lemma_first_ahead(accounts, tick, zero_for_one, boundary);
    assert(price_target(accounts, tick, zero_for_one, sqrt_price_limit) == Some(
        sqrt_price_at(boundary),
    ));
    assert(price_target(accounts, tick, zero_for_one, stop) == Some(sqrt_price_at(boundary)));
    lemma_swap_accounts(before, accounts, amount, zero_for_one, stop, 0, there, first);
    let crossed = swap_outcome(before.pool, accounts, amount, zero_for_one, stop)->0;
    assert(segment(start, accounts, zero_for_one, sqrt_price_limit, rate) == Some((crossed, true)));
}

/// One swap stands where another does, and has moved as much more as `lead` has.
pub open spec fn ahead_by(state: SwapState, other: SwapState, lead: SwapState) -> bool {
    &&& state.sqrt_price == other.sqrt_price
    &&& state.tick == other.tick
    &&& state.liquidity == other.liquidity
    &&& state.amount_remaining == other.amount_remaining
    &&& state.amount_in == sat(lead.amount_in + other.amount_in)
    &&& state.amount_out == sat(lead.amount_out + other.amount_out)
    &&& state.fee == sat(lead.fee + other.fee)
    &&& state.fee_growth == sat(lead.fee_growth + other.fee_growth)
}

/// Two walks from one place go the same way.
#[verifier::rlimit(30)]
pub proof fn lemma_walk_ahead_by(
    state: SwapState,
    other: SwapState,
    lead: SwapState,
    accounts: Seq<Vec<u8>>,
    zero_for_one: bool,
    sqrt_price_limit: u128,
    fee_rate: u128,
    crossings: nat,
)
    requires
        ahead_by(state, other, lead),
    ensures
        ({
            let rate = fee_rate as int;
            let a = walk(state, accounts, zero_for_one, sqrt_price_limit, rate, crossings);
            let b = walk(other, accounts, zero_for_one, sqrt_price_limit, rate, crossings);
            &&& a is Some <==> b is Some
            &&& a is Some ==> ahead_by(a->0, b->0, lead)
        }),
    decreases crossings,
{
    let rate = fee_rate as int;
    if state.amount_remaining > 0 && crossings > 0 {
        match price_target(accounts, state.tick as int, zero_for_one, sqrt_price_limit) {
            None => {},
            Some(target) => {
                let step = segment_step(state, target as u128, rate);
                assert(step == segment_step(other, target as u128, rate));
                lemma_growth_of_fee(step.fee_amount, state.liquidity);
                assert(ahead_by(
                    state_after_step(state, step),
                    state_after_step(other, step),
                    lead,
                ));
                let a = segment(state, accounts, zero_for_one, sqrt_price_limit, rate);
                let b = segment(other, accounts, zero_for_one, sqrt_price_limit, rate);
                if a is Some {
                    let (next_a, go_on) = a->0;
                    let (next_b, _) = b->0;
                    assert(ahead_by(next_a, next_b, lead));
                    if go_on {
                        lemma_walk_ahead_by(
                            next_a,
                            next_b,
                            lead,
                            accounts,
                            zero_for_one,
                            sqrt_price_limit,
                            fee_rate,
                            (crossings - 1) as nat,
                        );
                    }
                }
            },
        }
    }
}

pub proof fn lemma_growth_of_fee(fee: u128, liquidity: u128)
    ensures
        0 <= growth_of_fee(fee as int, liquidity as int) <= u128::MAX,
{
    if liquidity > 0 {
        lemma_quotient_at_least(fee * Q64, liquidity as int, 0);
    }
}

/// A walk that has used up its input or come to its limit does not change with the number of
/// crossings that it could still make.
pub proof fn lemma_walk_needs_no_more_crossings(
    state: SwapState,
    accounts: Seq<Vec<u8>>,
    zero_for_one: bool,
    sqrt_price_limit: u128,
    fee_rate: u128,
    crossings: nat,
)
    requires
        limit_beyond(state.sqrt_price, sqrt_price_limit, zero_for_one),
        ({
            let end = walk(
                state,
                accounts,
                zero_for_one,
                sqrt_price_limit,
                fee_rate as int,
                crossings,
            );
            &&& end is Some
            &&& end->0.amount_remaining == 0 || !limit_beyond(
                end->0.sqrt_price,
                sqrt_price_limit,
                zero_for_one,
            )
        }),
    ensures
        walk(
            state,
            accounts,
            zero_for_one,
            sqrt_price_limit,
            fee_rate as int,
            crossings + 1,
        ) == walk(state, accounts, zero_for_one, sqrt_price_limit, fee_rate as int, crossings),
    decreases crossings,
{
    if state.amount_remaining > 0 && crossings > 0 {
        let (next, go_on) = segment(
            state,
            accounts,
            zero_for_one,
            sqrt_price_limit,
            fee_rate as int,
        )->0;
        if go_on {
            lemma_walk_needs_no_more_crossings(
                next,
                accounts,
                zero_for_one,
                sqrt_price_limit,
                fee_rate,
                (crossings - 1) as nat,
            );
        }
    }
}

#[verifier::rlimit(30)]
pub proof fn lemma_upward_walk_fee(
    state: SwapState,
    accounts: Seq<Vec<u8>>,
    sqrt_price_limit: u128,
    fee_rate: u128,
    crossings: nat,
)
    requires
        0 < state.sqrt_price < sqrt_price_limit,
        fee_rate < 1_000_000,
        on_grid(accounts),
        tick_fits_price(state.tick as int, state.sqrt_price),
        state.amount_in + state.fee + state.amount_remaining <= u64::MAX,
        (state.amount_in + state.fee) * fee_rate <= state.fee * 1_000_000,
        walk(state, accounts, false, sqrt_price_limit, fee_rate as int, crossings) is Some,
    ensures
        ({
            let end = walk(
                state,
                accounts,
                false,
                sqrt_price_limit,
                fee_rate as int,
                crossings,
            )->0;
            (end.amount_in + end.fee) * fee_rate <= end.fee * 1_000_000
        }),
    decreases crossings,
{
    let rate = fee_rate as int;
    if state.amount_remaining > 0 && crossings > 0 {
        let target = price_target(accounts, state.tick as int, false, sqrt_price_limit)->0;
        let boundary = boundary_ahead(accounts, state.tick as int, false);
        if boundary is Some {
            lemma_boundary_is_ahead(accounts, state.tick as int, false);
            lemma_boundary_price_is_ahead(
                state.sqrt_price,
                state.tick as int,
                boundary->0,
                false,
            );
            lemma_price_in_range(boundary->0);
        }
        let goal = target as u128;
        assert(state.sqrt_price <= goal);
        let step = segment_step(state, goal, rate);
        let moved = state_after_step(state, step);
        let net = net_of_fee(state.amount_remaining as int, rate);
        lemma_segment_step(state, goal, fee_rate);
        let gross = step.amount_in + step.fee_amount;
        assert(gross * fee_rate <= step.fee_amount * 1_000_000) by {
            assert(gross == 0 ==> gross * fee_rate == 0) by (nonlinear_arith);
            if state.liquidity == 0 {
                law_segment_without_liquidity_is_free(
                    state.sqrt_price,
                    goal,
                    state.amount_remaining,
                    fee_rate,
                );
            } else if goal == state.sqrt_price {
                law_no_move_no_tokens(goal, state.liquidity as int, true);
            } else {
                lemma_net_of_fee(state.amount_remaining as int, rate);
                lemma_upward_step(state, goal, fee_rate, net);
                if step.sqrt_price_next < goal {
                    let amount = state.amount_remaining as int;
                    let fee = step.fee_amount as int;
                    assert(amount * rate <= fee * 1_000_000) by (nonlinear_arith)
                        requires
                            net * 1_000_000 <= amount * (1_000_000 - rate),
                            fee >= amount - net,
                    ;
                }
            }
        }
        assert(moved.amount_in == state.amount_in + step.amount_in);
        assert(moved.fee == state.fee + step.fee_amount);
        assert((moved.amount_in + moved.fee) * fee_rate == (state.amount_in + state.fee) * fee_rate
            + (step.amount_in + step.fee_amount) * fee_rate) by (nonlinear_arith)
            requires
                moved.amount_in == state.amount_in + step.amount_in,
                moved.fee == state.fee + step.fee_amount,
        ;
        let (next, go_on) = segment(state, accounts, false, sqrt_price_limit, rate)->0;
        if go_on {
            law_segment_keeps_tick_fitting(state, accounts, false, sqrt_price_limit, fee_rate);
            lemma_upward_walk_fee(
                next,
                accounts,
                sqrt_price_limit,
                fee_rate,
                (crossings - 1) as nat,
            );
        }
    }
}

#[verifier::rlimit(30)]
pub proof fn lemma_walk_goes_all_the_way(
    state: SwapState,
    accounts: Seq<Vec<u8>>,
    zero_for_one: bool,
    sqrt_price_limit: u128,
    fee_rate: u128,
    crossings: nat,
    ticks: Seq<int>,
)
    requires
        walk(
            state,
            accounts,
            zero_for_one,
            sqrt_price_limit,
            fee_rate as int,
            crossings,
        ) is Some,
        state.sqrt_price > 0,
        sqrt_price_limit > 0,
        ticks.len() < crossings,
        forall|i: int, slot: int| #[trigger]
            flagged(accounts, i, slot) && (if zero_for_one {
                tick_held(accounts, i, slot) <= state.tick
            } else {
                tick_held(accounts, i, slot) > state.tick
            }) ==> ticks.contains(tick_held(accounts, i, slot)),
    ensures
        ({
            let end = walk(
                state,
                accounts,
                zero_for_one,
                sqrt_price_limit,
                fee_rate as int,
                crossings,
            )->0;
            end.amount_remaining == 0 || !limit_beyond(
                end.sqrt_price,
                sqrt_price_limit,
                zero_for_one,
            )
        }),
    decreases crossings,
{
    let rate = fee_rate as int;
    if state.amount_remaining > 0 {
        let boundary = boundary_ahead(accounts, state.tick as int, zero_for_one);
        if boundary is Some {
            lemma_boundary_is_ahead(accounts, state.tick as int, zero_for_one);
            lemma_price_in_range(boundary->0);
        }
        let goal = price_target(accounts, state.tick as int, zero_for_one, sqrt_price_limit)->0;
        let target = goal as u128;
        let step = segment_step(state, target, rate);
        let moved = state_after_step(state, step);
        lemma_segment_step(state, target, fee_rate);
        lemma_step_in_range(
            state.sqrt_price,
            target,
            state.liquidity,
            state.amount_remaining,
            fee_rate,
        );
        assert(moved.sqrt_price == target || moved.amount_remaining == 0) by {
            if state.liquidity == 0 {
                law_no_liquidity_no_tokens(state.sqrt_price, target, true);
                law_no_liquidity_no_tokens(target, state.sqrt_price, true);
            }
            law_segment_input_suffices(
                state.sqrt_price,
                target,
                state.liquidity,
                state.amount_remaining,
                fee_rate,
            );
        }
        let (next, go_on) = segment(
            state,
            accounts,
            zero_for_one,
            sqrt_price_limit,
            rate,
        )->0;
        if go_on {
            let tick = boundary->0;
            let (i, slot) = choose|i: int, slot: int|
                0 <= i < accounts.len() && #[trigger] boundary_at(
                    accounts[i]@,
                    slot,
                    state.tick as int,
                    zero_for_one,
                ) && tick == tick_in_slot(accounts[i]@, slot);
            assert(flagged(accounts, i, slot));
            assert(ticks.contains(tick));
            let place = ticks.index_of(tick);
            let others = ticks.remove(place);
            assert forall|i: int, slot: int| #[trigger]
                flagged(accounts, i, slot) && (if zero_for_one {
                    tick_held(accounts, i, slot) <= next.tick
                } else {
                    tick_held(accounts, i, slot) > next.tick
                }) implies others.contains(tick_held(accounts, i, slot)) by {
                let held = tick_held(accounts, i, slot);
                assert(held != tick);
                assert(ticks.contains(held));
                let k = ticks.index_of(held);
                if k < place {
                    assert(others[k] == held);
                } else {
                    assert(others[k - 1] == held);
                }
            }
            lemma_walk_goes_all_the_way(
                next,
                accounts,
                zero_for_one,
                sqrt_price_limit,
                fee_rate,
                (crossings - 1) as nat,
                others,
            );
        }
    }
}

/// A tick in use ahead of a segment is still ahead after it, but for the nearest one.
pub proof fn lemma_segment_passes_nearest_only(
    state: SwapState,
    accounts: Seq<Vec<u8>>,
    zero_for_one: bool,
    sqrt_price_limit: u128,
    fee_rate: u128,
    held: int,
)
    requires
        tick_fits_price(state.tick as int, state.sqrt_price),
        on_grid(accounts),
        segment(state, accounts, zero_for_one, sqrt_price_limit, fee_rate as int) is Some,
        in_use(accounts, held),
        if zero_for_one {
            held <= state.tick
        } else {
            held > state.tick
        },
    ensures
        boundary_ahead(accounts, state.tick as int, zero_for_one) is Some,
        ({
            let (next, _) = segment(
                state,
                accounts,
                zero_for_one,
                sqrt_price_limit,
                fee_rate as int,
            )->0;
            held != boundary_ahead(accounts, state.tick as int, zero_for_one)->0
                ==> if zero_for_one {
                held <= next.tick
            } else {
                held > next.tick
            }
        }),
{
    let rate = fee_rate as int;
    let tick = state.tick as int;
    let (i, slot) = choose|i: int, slot: int| #[trigger]
        flagged(accounts, i, slot) && tick_held(accounts, i, slot) == held;
    assert(boundary_at(accounts[i]@, slot, tick, zero_for_one));
    let nearest = boundary_ahead(accounts, tick, zero_for_one)->0;
    lemma_boundary_is_ahead(accounts, tick, zero_for_one);
    lemma_price_in_range(nearest);
    let (k, other) = choose|i: int, slot: int|
        0 <= i < accounts.len() && #[trigger] boundary_at(
            accounts[i]@,
            slot,
            tick,
            zero_for_one,
        ) && nearest == tick_in_slot(accounts[i]@, slot);
    assert(slot_in_use(accounts[k]@, other));
    lemma_boundary_price_is_ahead(state.sqrt_price, tick, nearest, zero_for_one);
    let target = sqrt_price_at(nearest) as u128;
    let step = segment_step(state, target, rate);
    lemma_segment_step(state, target, fee_rate);
    if step.sqrt_price_next != target {
        let price = step.sqrt_price_next as int;
        law_price_has_one_tick(price, tick_of_price(price));
        law_tick_of_tick_price(nearest);
        if zero_for_one {
            law_tick_rises_with_price(target as int, price);
        } else if nearest < tick_of_price(price) {
            law_price_rises_with_tick(nearest, tick_of_price(price));
        }
    }
}

/// A list of numbers without one of them.
pub proof fn lemma_without(ticks: Seq<int>, tick: int) -> (others: Seq<int>)
    requires
        forall|k: int, m: int| 0 <= k < m < ticks.len() ==> ticks[k] != ticks[m],
    ensures
        ticks.len() <= others.len() + 1,
        forall|k: int, m: int| 0 <= k < m < others.len() ==> others[k] != others[m],
        forall|k: int|
            0 <= k < others.len() ==> #[trigger] others[k] != tick && ticks.contains(others[k]),
{
    if ticks.contains(tick) {
        let place = ticks.index_of(tick);
        let others = ticks.remove(place);
        assert forall|k: int| 0 <= k < others.len() implies #[trigger] others[k] != tick
            && ticks.contains(others[k]) by {
            if k < place {
                assert(others[k] == ticks[k]);
                assert(ticks[k] != ticks[place]);
            } else {
                assert(others[k] == ticks[k + 1]);
                assert(ticks[place] != ticks[k + 1]);
            }
        }
        others
    } else {
        assert forall|k: int| 0 <= k < ticks.len() implies #[trigger] ticks[k] != tick
            && ticks.contains(ticks[k]) by {
            assert(ticks.contains(ticks[k]));
        }
        ticks
    }
}

#[verifier::rlimit(30)]
pub proof fn lemma_walk_crossings(
    state: SwapState,
    accounts: Seq<Vec<u8>>,
    zero_for_one: bool,
    sqrt_price_limit: u128,
    fee_rate: u128,
    crossings: nat,
    ticks: Seq<int>,
)
    requires
        limit_beyond(state.sqrt_price, sqrt_price_limit, zero_for_one),
        tick_fits_price(state.tick as int, state.sqrt_price),
        on_grid(accounts),
        walk(
            state,
            accounts,
            zero_for_one,
            sqrt_price_limit,
            fee_rate as int,
            crossings,
        ) is Some,
        forall|k: int, m: int| 0 <= k < m < ticks.len() ==> ticks[k] != ticks[m],
        ({
            let end = walk(
                state,
                accounts,
                zero_for_one,
                sqrt_price_limit,
                fee_rate as int,
                crossings,
            )->0;
            forall|k: int|
                0 <= k < ticks.len() ==> if zero_for_one {
                    end.tick < #[trigger] ticks[k] <= state.tick
                } else {
                    state.tick < ticks[k] <= end.tick
                }
        }),
        forall|k: int| 0 <= k < ticks.len() ==> in_use(accounts, #[trigger] ticks[k]),
    ensures
        ticks.len() <= crossings,
    decreases crossings,
{
    let rate = fee_rate as int;
    if ticks.len() > 0 {
        assert(in_use(accounts, ticks[0]));
        assert(state.amount_remaining > 0 && crossings > 0);
        let nearest = boundary_ahead(accounts, state.tick as int, zero_for_one)->0;
        let (next, go_on) = segment(state, accounts, zero_for_one, sqrt_price_limit, rate)->0;
        let others = lemma_without(ticks, nearest);
        assert forall|k: int| 0 <= k < others.len() implies in_use(accounts, #[trigger] others[k])
            && if zero_for_one {
            others[k] <= next.tick
        } else {
            others[k] > next.tick
        } by {
            lemma_segment_passes_nearest_only(
                state,
                accounts,
                zero_for_one,
                sqrt_price_limit,
                fee_rate,
                others[k],
            );
        }
        if go_on {
            law_segment_keeps_tick_fitting(
                state,
                accounts,
                zero_for_one,
                sqrt_price_limit,
                fee_rate,
            );
            lemma_walk_crossings(
                next,
                accounts,
                zero_for_one,
                sqrt_price_limit,
                fee_rate,
                (crossings - 1) as nat,
                others,
            );
        } else if others.len() > 0 {
            assert(ticks.contains(others[0]));
        }
    }
}

/// A downward segment gets at least as far as any price whose way its net input pays for.
pub proof fn lemma_downward_reach(
    state: SwapState,
    target: u128,
    fee_rate: u128,
    net: int,
    price: u128,
)
    requires
        target <= price < state.sqrt_price,
        state.liquidity > 0,
        fee_rate < 1_000_000,
        state.amount_remaining <= u64::MAX,
        net == net_of_fee(state.amount_remaining as int, fee_rate as int),
        state.liquidity * (state.sqrt_price - price) * Q64 <= net * (state.sqrt_price * price),
    ensures
        segment_step(state, target, fee_rate as int).sqrt_price_next <= price,
{
    let current = state.sqrt_price;
    let liquidity = state.liquidity;
    let amount = state.amount_remaining;
    let rate = fee_rate as int;
    let needed = input_to_reach(current, target, liquidity as int);
    law_segment_input_suffices(current, target, liquidity, amount, fee_rate);
    lemma_net_of_fee(amount as int, rate);
    law_fee_and_net_make_up_gross(amount as int, rate);
    lemma_step_in_range(current, target, liquidity, amount, fee_rate);
    law_downward_step_stays_on_its_way(current, target, liquidity, amount, fee_rate);
    if net < needed {
        let l = liquidity as int;
        let p = current as int;
        let there = price as int;
        let d = l * Q64 + net * p;
        let x = l * p * Q64;
        assert(d > 0 && net > 0) by (nonlinear_arith)
            requires
                l > 0,
                net >= 0,
                p > there >= 0,
                l * (p - there) * Q64 <= net * (p * there),
                d == l * Q64 + net * p,
        ;
        lemma_quotient(x, d);
        let f = price_after_adding_0(p, l, net);
        assert(f == x / d);
        assert(f <= there) by (nonlinear_arith)
            requires
                d * f <= x,
                l * (p - there) * Q64 <= net * (p * there),
                d == l * Q64 + net * p,
                x == l * p * Q64,
                d > 0,
        ;
        assert(f >= 0) by (nonlinear_arith)
            requires
                x < d * f + d,
                x == l * p * Q64,
                l >= 0,
                p >= 0,
                d > 0,
        ;
        if f == there && f > 0 {
            lemma_amount_0(price, current, liquidity);
            let cost = amount_0_between(price, current, liquidity as int, true);
            assert(cost <= net) by (nonlinear_arith)
                requires
                    (cost - 1) * (there * p) < l * (p - there) * Q64,
                    l * (p - there) * Q64 <= net * (p * there),
                    there > 0,
                    p > 0,
            ;
        }
        assert(there > 0) by (nonlinear_arith)
            requires
                l > 0,
                p > there >= 0,
                l * (p - there) * Q64 <= net * (p * there),
        ;
    }
}

pub proof fn lemma_walk_reads_whole_arrays(
    state: SwapState,
    accounts: Seq<Vec<u8>>,
    zero_for_one: bool,
    sqrt_price_limit: u128,
    fee_rate: int,
    crossings: nat,
)
    requires
        forall|i: int| 0 <= i < accounts.len() ==> (#[trigger] accounts[i])@.len() == 7_096,
        forall|i: int, slot: int| #[trigger]
            flagged(accounts, i, slot) ==> {
                &&& -443_636 <= tick_held(accounts, i, slot) <= 443_636
                &&& le_i128(accounts[i]@, 56 + 80 * slot) > i128::MIN
            },
    ensures
        walk(state, accounts, zero_for_one, sqrt_price_limit, fee_rate, crossings) is Some,
    decreases crossings,
{
    if state.amount_remaining > 0 && crossings > 0 {
        let boundary = boundary_ahead(accounts, state.tick as int, zero_for_one);
        if boundary is Some {
            let tick = boundary->0;
            lemma_boundary_is_ahead(accounts, state.tick as int, zero_for_one);
            let (i, slot) = choose|i: int, slot: int|
                0 <= i < accounts.len() && #[trigger] boundary_at(
                    accounts[i]@,
                    slot,
                    state.tick as int,
                    zero_for_one,
                ) && tick == tick_in_slot(accounts[i]@, slot);
            assert(flagged(accounts, i, slot));
            lemma_whole_arrays_tell_net(accounts, tick, zero_for_one);
        }
        let next = segment(state, accounts, zero_for_one, sqrt_price_limit, fee_rate);
        assert(next is Some);
        let (after, go_on) = next->0;
        if go_on {
            lemma_walk_reads_whole_arrays(
                after,
                accounts,
                zero_for_one,
                sqrt_price_limit,
                fee_rate,
                (crossings - 1) as nat,
            );
        }
    }
}

pub proof fn lemma_whole_arrays_tell_net(accounts: Seq<Vec<u8>>, tick: int, zero_for_one: bool)
    requires
        forall|i: int| 0 <= i < accounts.len() ==> (#[trigger] accounts[i])@.len() == 7_096,
        forall|i: int, slot: int| #[trigger]
            flagged(accounts, i, slot) ==> le_i128(accounts[i]@, 56 + 80 * slot) > i128::MIN,
    ensures
        net_at_tick(accounts, tick, zero_for_one) is Some,
{
    if !none_decides(accounts, tick) {
        let k = choose|k: int| 0 <= k < accounts.len() && #[trigger] decides(accounts[k]@, tick);
        lemma_some_first_to_decide(accounts, tick, k);
        let i = choose|i: int| is_first_to_decide(accounts, tick, i);
        let slot = slot_of(accounts[i]@, tick);
        assert(accounts[i]@.len() == 7_096);
        assert(decides(accounts[i]@, tick));
        assert(flagged(accounts, i, slot));
    }
}

pub proof fn lemma_some_first_to_decide(accounts: Seq<Vec<u8>>, tick: int, k: int)
    requires
        0 <= k < accounts.len(),
        decides(accounts[k]@, tick),
    ensures
        exists|i: int| is_first_to_decide(accounts, tick, i),
    decreases k,
{
    if exists|j: int| 0 <= j < k && #[trigger] decides(accounts[j]@, tick) {
        let j = choose|j: int| 0 <= j < k && #[trigger] decides(accounts[j]@, tick);
        lemma_some_first_to_decide(accounts, tick, j);
    } else {
        assert(is_first_to_decide(accounts, tick, k));
    }
}

/// Where a walk gets anywhere, one of fewer crossings does.
pub proof fn lemma_shorter_walk(
    state: SwapState,
    accounts: Seq<Vec<u8>>,
    zero_for_one: bool,
    sqrt_price_limit: u128,
    fee_rate: u128,
    crossings: nat,
)
    requires
        walk(
            state,
            accounts,
            zero_for_one,
            sqrt_price_limit,
            fee_rate as int,
            crossings + 1,
        ) is Some,
    ensures
        walk(
            state,
            accounts,
            zero_for_one,
            sqrt_price_limit,
            fee_rate as int,
            crossings,
        ) is Some,
    decreases crossings,
{
    if state.amount_remaining > 0 && crossings > 0 {
        let (next, go_on) = segment(
            state,
            accounts,
            zero_for_one,
            sqrt_price_limit,
            fee_rate as int,
        )->0;
        if go_on {
            lemma_shorter_walk(
                next,
                accounts,
                zero_for_one,
                sqrt_price_limit,
                fee_rate,
                (crossings - 1) as nat,
            );
        }
    }
}

/// The walk of a swap after its first two segments.
pub proof fn lemma_two_segments(
    start: SwapState,
    crossed: SwapState,
    beyond: SwapState,
    accounts: Seq<Vec<u8>>,
    zero_for_one: bool,
    sqrt_price_limit: u128,
    fee_rate: u128,
)
    requires
        start.amount_remaining > 0,
        crossed.amount_remaining > 0,
        segment(start, accounts, zero_for_one, sqrt_price_limit, fee_rate as int) == Some(
            (crossed, true),
        ),
        segment(crossed, accounts, zero_for_one, sqrt_price_limit, fee_rate as int) == Some(
            (beyond, true),
        ),
    ensures
        walk(start, accounts, zero_for_one, sqrt_price_limit, fee_rate as int, 10) == walk(
            beyond,
            accounts,
            zero_for_one,
            sqrt_price_limit,
            fee_rate as int,
            8,
        ),
{
    let rate = fee_rate as int;
    assert(walk(start, accounts, zero_for_one, sqrt_price_limit, rate, 10) == walk(
        crossed,
        accounts,
        zero_for_one,
        sqrt_price_limit,
        rate,
        9,
    ));
    assert(walk(crossed, accounts, zero_for_one, sqrt_price_limit, rate, 9) == walk(
        beyond,
        accounts,
        zero_for_one,
        sqrt_price_limit,
        rate,
        8,
    ));
}

pub proof fn lemma_gap_is_nothing(from: u128, to: u128, fee_rate: u32)
    requires
        0 < from,
        0 < to,
        fee_rate < 1_000_000,
    ensures
        is_stretch(
            from,
            to,
            0,
            fee_rate,
            (Stretch { paid: 0, fee: 0, received: 0, growth: 0 }),
        ),
{
    let none = 0int;
    let liquidity = 0u128;
    let d = from * to;
    let part = 1_000_000 - fee_rate;
    assert(d > 0) by (nonlinear_arith)
        requires
            d == from * to,
            0 < from,
            0 < to,
    ;
    assert((none - 1) * d < 0 && none * d == 0 && (none + 1) * d > 0) by (nonlinear_arith)
        requires
            none == 0,
            d > 0,
    ;
    assert((none - 1) * part < 0 && none * part == 0) by (nonlinear_arith)
        requires
            none == 0,
            part > 0,
    ;
    assert(liquidity * (from - to) == 0 && liquidity * (to - from) == 0) by (nonlinear_arith)
        requires
            liquidity == 0,
    ;
}

/// A segment that can pay for the way to the first tick in use ahead is that way and the
/// crossing of the tick.
#[verifier::rlimit(30)]
pub proof fn lemma_segment_is_stretch(
    state: SwapState,
    accounts: Seq<Vec<u8>>,
    zero_for_one: bool,
    sqrt_price_limit: u128,
    fee_rate: u32,
    boundary: int,
    stop: u128,
    i: int,
    slot: int,
    way: Stretch,
)
    requires
        first_ahead(accounts, state.tick as int, zero_for_one, boundary),
        stop == sqrt_price_at(boundary),
        state.sqrt_price > 0,
        fee_rate < 1_000_000,
        state.amount_remaining <= u64::MAX,
        records_net(accounts, boundary, i, slot),
        is_stretch(state.sqrt_price, stop, state.liquidity, fee_rate, way),
        way.received <= u64::MAX,
        way.paid * 1_000_000 <= state.amount_remaining * (1_000_000 - fee_rate),
    ensures
        ({
            let next = segment(
                state,
                accounts,
                zero_for_one,
                sqrt_price_limit,
                fee_rate as int,
            );
            &&& next is Some
            &&& ({
                let (after, go_on) = next->0;
                &&& go_on == limit_beyond(stop, sqrt_price_limit, zero_for_one)
                &&& after.sqrt_price == stop
                &&& after.tick == if zero_for_one {
                    boundary - 1
                } else {
                    boundary
                }
                &&& is_across(
                    state.liquidity,
                    le_i128(accounts[i]@, 56 + 80 * slot),
                    zero_for_one,
                    after.liquidity,
                )
                &&& after.amount_remaining == state.amount_remaining - way.paid - way.fee
                &&& after.amount_in == sat(state.amount_in + way.paid)
                &&& after.amount_out == sat(state.amount_out + way.received)
                &&& after.fee == sat(state.fee + way.fee)
                &&& after.fee_growth == sat(state.fee_growth + way.growth)
            })
        }),
{
    let tick = state.tick as int;
    let rate = fee_rate as int;
    let current = state.sqrt_price;
    let liquidity = state.liquidity;
    let amount = state.amount_remaining;
    lemma_first_ahead(accounts, tick, zero_for_one, boundary);
    assert(price_target(accounts, tick, zero_for_one, sqrt_price_limit) == Some(
        sqrt_price_at(boundary),
    ));
    assert(slot_of(accounts[i]@, boundary) == slot);
    assert forall|j: int| 0 <= j < i implies !#[trigger] decides(accounts[j]@, boundary) by {
        assert(accounts[j] == accounts[j]);
    }
    law_recorded_net_is_applied(accounts, boundary, i, zero_for_one);
    lemma_way_is_step(current, stop, liquidity, amount, fee_rate, way);
    let step = segment_step(state, stop, rate);
    assert(growth_of_fee(step.fee_amount as int, liquidity as int) == way.growth) by {
        if liquidity > 0 {
            let l = liquidity as int;
            let x = way.fee * Q64;
            lemma_quotient(x, l);
            let q = x / l;
            let g = way.growth;
            assert(q == g) by (nonlinear_arith)
                requires
                    l * q <= x < l * q + l,
                    g * l <= x < (g + 1) * l,
                    l > 0,
            ;
            assert(g <= u128::MAX) by (nonlinear_arith)
                requires
                    g * l <= x,
                    x <= u64::MAX * Q64,
                    l >= 1,
                    g >= 0,
            ;
        }
    }
}

/// The step of a segment that can pay for its way moves what the way takes and gives.
#[verifier::rlimit(30)]
pub proof fn lemma_way_is_step(
    current: u128,
    stop: u128,
    liquidity: u128,
    amount: u128,
    fee_rate: u32,
    way: Stretch,
)
    requires
        current > 0,
        stop > 0,
        fee_rate < 1_000_000,
        amount <= u64::MAX,
        is_stretch(current, stop, liquidity, fee_rate, way),
        way.received <= u64::MAX,
        way.paid * 1_000_000 <= amount * (1_000_000 - fee_rate),
    ensures
        ({
            let rate = fee_rate as int;
            let input = segment_input(current, stop, liquidity as int, amount as int, rate);
            let step = step_result(current, stop, liquidity as int, input, rate);
            &&& step.sqrt_price_next == stop
            &&& step.amount_in == way.paid
            &&& step.amount_out == way.received
            &&& step.fee_amount == way.fee
            &&& way.paid + way.fee <= amount
        }),
{
    let rate = fee_rate as int;
    let l = liquidity as int;
    let needed = input_to_reach(current, stop, l);
    let a = amount as int;
    let paid = way.paid;
    let net = net_of_fee(a, rate);
    lemma_net_of_fee(a, rate);
    lemma_step_in_range(current, stop, liquidity, amount, fee_rate as u128);
    assert(paid <= a) by (nonlinear_arith)
        requires
            paid * 1_000_000 <= a * (1_000_000 - rate),
            a >= 0,
            rate >= 0,
    ;
    if stop == current {
        law_no_move_no_tokens(stop, l, true);
        law_no_move_no_tokens(stop, l, false);
    } else if stop < current {
        lemma_amount_0(stop, current, liquidity);
        lemma_amount_1(stop, current, liquidity);
        let d = stop * current;
        let moved = l * (current - stop) * Q64;
        let out = amount_1_between(stop, current, l, false);
        assert(current * stop == d) by (nonlinear_arith)
            requires
                d == stop * current,
        ;
        assert(d > 0) by (nonlinear_arith)
            requires
                d == stop * current,
                stop > 0,
                current > 0,
        ;
        assert(needed == paid) by (nonlinear_arith)
            requires
                (needed - 1) * d < moved,
                needed < u128::MAX ==> moved <= needed * d,
                (paid - 1) * d < moved <= paid * d,
                paid <= u64::MAX,
                0 <= needed <= u128::MAX,
                d > 0,
        ;
    } else {
        lemma_amount_0(current, stop, liquidity);
        lemma_amount_1(current, stop, liquidity);
        let d = current * stop;
        let moved = l * (stop - current) * Q64;
        let out = amount_0_between(current, stop, l, false);
        let received = way.received;
        assert(d > 0) by (nonlinear_arith)
            requires
                d == current * stop,
                stop > 0,
                current > 0,
        ;
        assert(out == received) by (nonlinear_arith)
            requires
                out * d <= moved,
                out < u128::MAX ==> moved < (out + 1) * d,
                received * d <= moved < (received + 1) * d,
                received <= u64::MAX,
                0 <= out <= u128::MAX,
                d > 0,
        ;
    }
    assert(needed == paid);
    assert(net >= paid) by (nonlinear_arith)
        requires
            paid * 1_000_000 <= a * (1_000_000 - rate),
            a * (1_000_000 - rate) < (net + 1) * 1_000_000,
    ;
    law_full_segment_pays_fee_rate(current, stop, liquidity, amount, fee_rate as u128);
    let input = segment_input(current, stop, l, a, rate);
    let gross = way.paid + way.fee;
    let d = 1_000_000 - rate;
    let x = paid * 1_000_000;
    lemma_ceil_div(x, d);
    let c = ceil_div(x, d);
    assert(c == gross && gross <= a) by (nonlinear_arith)
        requires
            d * (c - 1) < x <= d * c,
            (gross - 1) * d < x <= gross * d,
            x <= a * d,
            d > 0,
    ;
    if paid == 0 {
        assert(gross == 0) by (nonlinear_arith)
            requires
                (gross - 1) * d < 0,
                gross >= 0,
                d > 0,
        ;
    }
    assert(input == gross);
}

/// The ticks ahead without the first one are those ahead of a swap behind it.
pub proof fn lemma_ticks_behind(
    accounts: Seq<Vec<u8>>,
    tick: int,
    zero_for_one: bool,
    boundary: int,
    ticks: Seq<int>,
) -> (others: Seq<int>)
    requires
        first_ahead(accounts, tick, zero_for_one, boundary),
        forall|i: int, slot: int| #[trigger]
            flagged(accounts, i, slot) && (if zero_for_one {
                tick_held(accounts, i, slot) <= tick
            } else {
                tick_held(accounts, i, slot) > tick
            }) ==> ticks.contains(tick_held(accounts, i, slot)),
    ensures
        others.len() == ticks.len() - 1,
        forall|i: int, slot: int| #[trigger]
            flagged(accounts, i, slot) && (if zero_for_one {
                tick_held(accounts, i, slot) <= boundary - 1
            } else {
                tick_held(accounts, i, slot) > boundary
            }) ==> others.contains(tick_held(accounts, i, slot)),
{
    let (i, slot) = choose|i: int, slot: int| #[trigger]
        flagged(accounts, i, slot) && tick_held(accounts, i, slot) == boundary;
    assert(ticks.contains(boundary));
    let place = ticks.index_of(boundary);
    let others = ticks.remove(place);
    assert forall|i: int, slot: int| #[trigger]
        flagged(accounts, i, slot) && (if zero_for_one {
            tick_held(accounts, i, slot) <= boundary - 1
        } else {
            tick_held(accounts, i, slot) > boundary
        }) implies others.contains(tick_held(accounts, i, slot)) by {
        let held = tick_held(accounts, i, slot);
        assert(held != boundary);
        assert(ticks.contains(held));
        let k = ticks.index_of(held);
        if k < place {
            assert(others[k] == held);
        } else {
            assert(others[k - 1] == held);
        }
    }
    others
}

} // verus!
