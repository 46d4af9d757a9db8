//! The tick loop: a swap as a walk from one tick boundary to the next.
//!
//! Between two boundaries the active liquidity stays the same. A segment moves the price
//! towards the next boundary, or towards the price limit where no boundary is ahead. Where it
//! gets to a boundary with input left, the boundary is crossed and the walk goes on with the
//! liquidity behind it, unless it has come to the limit.

use vstd::prelude::*;

use crate::arith::{clamp_u128, mul_div, sat, Q64};
use crate::pool_core::swap_laws::lemma_step_sum;
use crate::pool_core::swap_math::{
    compute_swap_step, get_segment_input, segment_input, step_result, SwapStepResult,
};
use crate::pool_core::tick_loop::{
    apply_liquidity_delta, boundary_ahead, find_next_boundary, find_next_sqrt_price_target,
    law_tick_of_tick_price, net_at_tick, price_target, read_liquidity_net_at_tick,
    tick_at_sqrt_price, tick_of_price,
};
use crate::pool_core::{PoolError, MAX_TICK_CROSSINGS};

verus! {

/// Where a swap stands, and what it has moved so far.
#[derive(Clone, Copy, Debug, PartialEq, Eq)]
pub struct SwapState {
    pub sqrt_price: u128,
    pub tick: i32,
    pub liquidity: u128,
    pub amount_remaining: u128,
    pub amount_in: u128,
    pub amount_out: u128,
    pub fee: u128,
    /// Fee growth per unit of liquidity, in Q64.64.
    pub fee_growth: u128,
}

/// The limit lies strictly on the side that the swap moves to.
pub open spec fn limit_beyond(
    sqrt_price: u128,
    sqrt_price_limit: u128,
    zero_for_one: bool,
) -> bool {
    if zero_for_one {
        sqrt_price_limit < sqrt_price
    } else {
        sqrt_price_limit > sqrt_price
    }
}

/// Fee growth per unit of liquidity that a fee brings, in Q64.64 and clamped to 128 bits.
/// Without liquidity there is nobody to credit.
pub open spec fn growth_of_fee(fee: int, liquidity: int) -> int {
    if liquidity == 0 {
        0
    } else {
        sat((fee * Q64) / liquidity)
    }
}

/// The step of a segment towards `target`, with just the input that the segment takes.
pub open spec fn segment_step(state: SwapState, target: u128, fee_rate: int) -> SwapStepResult {
    step_result(
        state.sqrt_price,
        target,
        state.liquidity as int,
        segment_input(
            state.sqrt_price,
            target,
            state.liquidity as int,
            state.amount_remaining as int,
            fee_rate,
        ),
        fee_rate,
    )
}

/// The state after the tokens and the fee of a step have moved, at the same tick.
pub open spec fn state_after_step(state: SwapState, step: SwapStepResult) -> SwapState {
    let used = step.amount_in + step.fee_amount;
    SwapState {
        sqrt_price: step.sqrt_price_next,
        amount_remaining: (if used <= state.amount_remaining {
            state.amount_remaining - used
        } else {
            0
        }) as u128,
        amount_in: sat(state.amount_in + step.amount_in) as u128,
        amount_out: sat(state.amount_out + step.amount_out) as u128,
        fee: sat(state.fee + step.fee_amount) as u128,
        fee_growth: sat(
            state.fee_growth + growth_of_fee(step.fee_amount as int, state.liquidity as int),
        ) as u128,
        ..state
    }
}

/// The state after the price has crossed a tick at which the active liquidity changes by
/// `net`. Downwards the pool is then below the tick.
pub open spec fn state_across(
    state: SwapState,
    tick: int,
    net: int,
    zero_for_one: bool,
) -> SwapState {
    SwapState {
        liquidity: clamp_u128(state.liquidity + net) as u128,
        tick: (if zero_for_one {
            tick - 1
        } else {
            tick
        }) as i32,
        ..state
    }
}

/// The state at the tick of its price. A price that has not moved keeps its tick.
pub open spec fn state_settled(before: SwapState, state: SwapState) -> SwapState {
    if state.sqrt_price == before.sqrt_price {
        state
    } else {
        SwapState { tick: tick_of_price(state.sqrt_price as int) as i32, ..state }
    }
}

/// One segment: the state after it, and whether the walk may go on from there. It heads for
/// the next boundary, or for the price limit where there is none ahead. It goes on after a
/// crossing that has not come to the limit. There is no such segment where the tick arrays
/// cannot be read.
pub open spec fn segment(
    state: SwapState,
    accounts: Seq<Vec<u8>>,
    zero_for_one: bool,
    sqrt_price_limit: u128,
    fee_rate: int,
) -> Option<(SwapState, bool)> {
    match price_target(accounts, state.tick as int, zero_for_one, sqrt_price_limit) {
        None => None,
        Some(target) => {
            let step = segment_step(state, target as u128, fee_rate);
            let moved = state_after_step(state, step);
            match boundary_ahead(accounts, state.tick as int, zero_for_one) {
                Some(tick) => if moved.sqrt_price == target {
                    match net_at_tick(accounts, tick, zero_for_one) {
                        Some(net) => Some(
                            (
                                state_across(moved, tick, net, zero_for_one),
                                limit_beyond(moved.sqrt_price, sqrt_price_limit, zero_for_one),
                            ),
                        ),
                        None => None,
                    }
                } else {
                    Some((state_settled(state, moved), false))
                },
                None => Some((state_settled(state, moved), false)),
            }
        },
    }
}

/// The walk of at most `crossings` crossings: segment after segment while input remains.
pub open spec fn walk(
    state: SwapState,
    accounts: Seq<Vec<u8>>,
    zero_for_one: bool,
    sqrt_price_limit: u128,
    fee_rate: int,
    crossings: nat,
) -> Option<SwapState>
    decreases crossings,
{
    if state.amount_remaining == 0 || crossings == 0 {
        Some(state)
    } else {
        match segment(state, accounts, zero_for_one, sqrt_price_limit, fee_rate) {
            None => None,
            Some((next, true)) => walk(
                next,
                accounts,
                zero_for_one,
                sqrt_price_limit,
                fee_rate,
                (crossings - 1) as nat,
            ),
            Some((next, false)) => Some(next),
        }
    }
}

/// Runs one segment of a swap.
pub fn run_segment(
    state: &SwapState,
    remaining_accounts: &[Vec<u8>],
    zero_for_one: bool,
    sqrt_price_limit: u128,
    fee_rate: u128,
) -> (r: Result<(SwapState, bool), PoolError>)
    requires
        state.fee + state.amount_remaining <= u128::MAX,
    ensures
        match segment(
            *state,
            remaining_accounts@,
            zero_for_one,
            sqrt_price_limit,
            fee_rate as int,
        ) {
            Some(next) => r == Ok::<(SwapState, bool), PoolError>(next),
            None => r == Err::<(SwapState, bool), PoolError>(PoolError::InvalidTickArray),
        },
        r is Ok ==> r->Ok_0.0.fee + r->Ok_0.0.amount_remaining <= state.fee
            + state.amount_remaining,
{
    let target: u128 = match find_next_sqrt_price_target(
        remaining_accounts,
        state.tick,
        zero_for_one,
        sqrt_price_limit,
    ) {
        Ok(price) => price,
        Err(e) => {
            return Err(e);
        },
    };
    let input: u128 = get_segment_input(
        state.sqrt_price,
        target,
        state.liquidity,
        state.amount_remaining,
        fee_rate,
    );
    let step: SwapStepResult = compute_swap_step(
        state.sqrt_price,
        target,
        state.liquidity,
        input,
        fee_rate,
    );
    proof {
        lemma_step_sum(state.sqrt_price, target, state.liquidity, input, fee_rate);
    }
    let fee_growth: u128 = if state.liquidity == 0 {
        0
    } else {
        mul_div(step.fee_amount, Q64, state.liquidity)
    };
    let moved: SwapState = SwapState {
        sqrt_price: step.sqrt_price_next,
        tick: state.tick,
        liquidity: state.liquidity,
        amount_remaining: state.amount_remaining.saturating_sub(step.amount_in + step.fee_amount),
        amount_in: state.amount_in.saturating_add(step.amount_in),
        amount_out: state.amount_out.saturating_add(step.amount_out),
        fee: state.fee.saturating_add(step.fee_amount),
        fee_growth: state.fee_growth.saturating_add(fee_growth),
    };
    assert(moved == state_after_step(*state, segment_step(*state, target, fee_rate as int)));
    if moved.sqrt_price == target {
        let boundary: Option<i32> = match find_next_boundary(
            remaining_accounts,
            state.tick,
            zero_for_one,
        ) {
            Ok(boundary) => boundary,
            Err(e) => {
                return Err(e);
            },
        };
        match boundary {
            Some(tick) => {
                proof {
                    law_tick_of_tick_price(tick as int);
                }
                let net: i128 = match read_liquidity_net_at_tick(
                    remaining_accounts,
                    target,
                    zero_for_one,
                ) {
                    Ok(net) => net,
                    Err(e) => {
                        return Err(e);
                    },
                };
                return Ok(
                    (
                        SwapState {
                            liquidity: apply_liquidity_delta(moved.liquidity, net),
                            tick: if zero_for_one {
                                tick - 1
                            } else {
                                tick
                            },
                            ..moved
                        },
                        if zero_for_one {
                            moved.sqrt_price > sqrt_price_limit
                        } else {
                            moved.sqrt_price < sqrt_price_limit
                        },
                    ),
                );
            },
            None => {},
        }
    }
    if moved.sqrt_price == state.sqrt_price {
        Ok((moved, false))
    } else {
        Ok((SwapState { tick: tick_at_sqrt_price(moved.sqrt_price), ..moved }, false))
    }
}

/// Runs a swap segment by segment, until its input is used up, it comes to a stop between
/// two boundaries or at the price limit, or it has crossed as many boundaries as it may.
pub fn run_walk(
    start: SwapState,
    remaining_accounts: &[Vec<u8>],
    zero_for_one: bool,
    sqrt_price_limit: u128,
    fee_rate: u128,
) -> (r: Result<SwapState, PoolError>)
    requires
        start.fee + start.amount_remaining <= u128::MAX,
    ensures
        match walk(
            start,
            remaining_accounts@,
            zero_for_one,
            sqrt_price_limit,
            fee_rate as int,
            MAX_TICK_CROSSINGS as nat,
        ) {
            Some(end) => r == Ok::<SwapState, PoolError>(end),
            None => r == Err::<SwapState, PoolError>(PoolError::InvalidTickArray),
        },
        r is Ok ==> r->Ok_0.fee <= start.fee + start.amount_remaining,
{
    let mut state: SwapState = start;
    let mut crossings: u32 = 0;
    while state.amount_remaining > 0 && crossings < MAX_TICK_CROSSINGS
        invariant
            crossings <= MAX_TICK_CROSSINGS,
            start.fee + start.amount_remaining <= u128::MAX,
            state.fee + state.amount_remaining <= start.fee + start.amount_remaining,
            walk(
                start,
                remaining_accounts@,
                zero_for_one,
                sqrt_price_limit,
                fee_rate as int,
                MAX_TICK_CROSSINGS as nat,
            ) == walk(
                state,
                remaining_accounts@,
                zero_for_one,
                sqrt_price_limit,
                fee_rate as int,
                (MAX_TICK_CROSSINGS - crossings) as nat,
            ),
        decreases MAX_TICK_CROSSINGS - crossings,
    {
        let (next, go_on) = match run_segment(
            &state,
            remaining_accounts,
            zero_for_one,
            sqrt_price_limit,
            fee_rate,
        ) {
            Ok(next) => next,
            Err(e) => {
                return Err(e);
            },
        };
        if !go_on {
            return Ok(next);
        }
        state = next;
        crossings = crossings + 1;
    }
    Ok(state)
}

} // verus!
