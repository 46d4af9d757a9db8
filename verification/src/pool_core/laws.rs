//! What holds of a pool across its instructions.

use vstd::prelude::*;

use crate::arith::{clamp_u128, is_u128};
use crate::pool_core::segments::{limit_beyond, segment, segment_step, walk, SwapState};
use crate::pool_core::state::Pool;
use crate::pool_core::swap_laws::{
    law_downward_step_stays_on_its_way, law_segment_input_suffices, law_step_uses_up_input,
    law_upward_step_stays_on_its_way, lemma_step_in_range,
};
use crate::pool_core::swap_math::segment_input;
use crate::pool_core::tick_loop::{
    boundary_ahead, boundary_at, is_next_boundary, law_price_has_one_tick, law_tick_of_tick_price,
    lemma_next_boundary_exists, net_at_tick, net_in, price_target, slot_in_use, tick_in_slot,
    tick_of_price,
};
use crate::pool_core::{
    in_range, initialize_pool_failure, initialized_pool, is_swap_receipt, pool_after_change,
    pool_after_swap, swap_failure, swap_outcome, swap_start, InitializePool, PoolError, Swap,
    SwapReceipt, MAX_TICK_CROSSINGS,
};
use crate::pubkey::{law_order_is_antisymmetric, lex_less};
use crate::tick_manager::math::{tick_in_range, tick_on_grid, MAX_TICK, MIN_TICK};
use crate::tick_manager::price::{law_price_rises_with_tick, lemma_price_in_range, sqrt_price_at};

verus! {

/// What every instruction keeps of an initialized pool: its mints are sorted, and its fee
/// rate is a proper part of a million.
pub open spec fn pool_valid(pool: Pool) -> bool {
    pool.initialized ==> {
        &&& lex_less(pool.token_mint_0.bytes@, pool.token_mint_1.bytes@)
        &&& 0 < pool.fee_rate < 1_000_000
    }
}

/// Two states of one pool agree in everything that is fixed when the pool is set up.
pub open spec fn same_pool(before: Pool, after: Pool) -> bool {
    &&& after.token_mint_0 == before.token_mint_0
    &&& after.token_mint_1 == before.token_mint_1
    &&& after.token_vault_0 == before.token_vault_0
    &&& after.token_vault_1 == before.token_vault_1
    &&& after.tick_manager_program == before.tick_manager_program
    &&& after.fee_rate == before.fee_rate
    &&& after.bump == before.bump
    &&& after.initialized == before.initialized
}

/// A pool that is set up is valid.
pub proof fn law_initialized_pool_is_valid(
    ctx: InitializePool,
    initial_sqrt_price: u128,
    fee_rate: u32,
    initial_tick: i32,
)
    requires
        initialize_pool_failure(ctx, initial_sqrt_price, fee_rate) is None,
    ensures
        pool_valid(initialized_pool(ctx, initial_sqrt_price, fee_rate, initial_tick)),
        initialized_pool(ctx, initial_sqrt_price, fee_rate, initial_tick).initialized,
        initialized_pool(ctx, initial_sqrt_price, fee_rate, initial_tick).sqrt_price > 0,
{
}

/// A pair of mints has one canonical pool: where one order is accepted, the other is
/// refused.
pub proof fn law_one_order_per_pair(
    ctx: InitializePool,
    other: InitializePool,
    initial_sqrt_price: u128,
    fee_rate: u32,
)
    requires
        other.token_mint_0 == ctx.token_mint_1,
        other.token_mint_1 == ctx.token_mint_0,
        initialize_pool_failure(ctx, initial_sqrt_price, fee_rate) is None,
    ensures
        initialize_pool_failure(other, initial_sqrt_price, fee_rate) == Some(
            PoolError::InvalidTokenOrder,
        ),
{
    law_order_is_antisymmetric(ctx.token_mint_0.bytes@, ctx.token_mint_1.bytes@);
}

/// A change of liquidity keeps the pool valid, and changes nothing but the active
/// liquidity, and that only where the range holds the current tick.
pub proof fn law_change_touches_active_liquidity_only(
    pool: Pool,
    delta: int,
    tick_lower: i32,
    tick_upper: i32,
)
    requires
        pool_valid(pool),
    ensures
        pool_valid(pool_after_change(pool, delta, tick_lower, tick_upper)),
        pool_after_change(pool, delta, tick_lower, tick_upper) == (Pool {
            liquidity: pool_after_change(pool, delta, tick_lower, tick_upper).liquidity,
            ..pool
        }),
        !in_range(pool, tick_lower, tick_upper) ==> pool_after_change(
            pool,
            delta,
            tick_lower,
            tick_upper,
        ) == pool,
{
}

/// Removing the liquidity that was added restores the pool, as long as the sum fits 128
/// bits.
pub proof fn law_removing_undoes_adding(pool: Pool, delta: int, tick_lower: i32, tick_upper: i32)
    requires
        delta >= 0,
        is_u128(pool.liquidity + delta),
    ensures
        pool_after_change(
            pool_after_change(pool, delta, tick_lower, tick_upper),
            -delta,
            tick_lower,
            tick_upper,
        ) == pool,
{
}

/// A swap leaves alone what is fixed when the pool is set up.
pub proof fn law_swap_keeps_pool(pool: Pool, zero_for_one: bool, outcome: SwapState)
    requires
        pool_valid(pool),
    ensures
        same_pool(pool, pool_after_swap(pool, zero_for_one, outcome)),
        pool_valid(pool_after_swap(pool, zero_for_one, outcome)),
{
}

/// The fee accumulators only ever increase, and only that of the input token moves.
pub proof fn law_fee_growth_never_decreases(pool: Pool, zero_for_one: bool, outcome: SwapState)
    ensures
        ({
            let after = pool_after_swap(pool, zero_for_one, outcome);
            &&& after.fee_growth_global_0 >= pool.fee_growth_global_0
            &&& after.fee_growth_global_1 >= pool.fee_growth_global_1
            &&& after.protocol_fee_0 >= pool.protocol_fee_0
            &&& after.protocol_fee_1 >= pool.protocol_fee_1
            &&& zero_for_one ==> after.fee_growth_global_1 == pool.fee_growth_global_1
                && after.protocol_fee_1 == pool.protocol_fee_1
            &&& !zero_for_one ==> after.fee_growth_global_0 == pool.fee_growth_global_0
                && after.protocol_fee_0 == pool.protocol_fee_0
        }),
{
}

/// A pool that is not initialized refuses every swap.
pub proof fn law_uninitialized_pool_refuses_swaps(
    ctx: Swap,
    accounts: Seq<Vec<u8>>,
    amount: u64,
    zero_for_one: bool,
    sqrt_price_limit: u128,
    amount_out_minimum: u64,
)
    requires
        !ctx.pool.initialized,
    ensures
        swap_failure(
            ctx,
            accounts,
            amount,
            zero_for_one,
            sqrt_price_limit,
            amount_out_minimum,
        ) is Some,
{
}

/// A swap that goes through pays out something, and no less than the minimum that the user
/// asked for.
pub proof fn law_payout_meets_minimum(
    ctx: Swap,
    accounts: Seq<Vec<u8>>,
    amount: u64,
    zero_for_one: bool,
    sqrt_price_limit: u128,
    amount_out_minimum: u64,
    receipt: SwapReceipt,
)
    requires
        swap_failure(
            ctx,
            accounts,
            amount,
            zero_for_one,
            sqrt_price_limit,
            amount_out_minimum,
        ) is None,
        is_swap_receipt(
            ctx,
            zero_for_one,
            swap_outcome(ctx.pool, accounts, amount, zero_for_one, sqrt_price_limit)->0,
            receipt,
        ),
    ensures
        receipt.payout.transfer.amount > 0,
        receipt.payout.transfer.amount >= amount_out_minimum,
        receipt.event.amount_out == receipt.payout.transfer.amount,
        receipt.event.amount_in == receipt.payment.amount,
{
}

/// The tick is that of the price, or one below it right after a downward crossing.
pub open spec fn tick_fits_price(tick: int, sqrt_price: u128) -> bool {
    let exact = tick_of_price(sqrt_price as int);
    tick == exact || tick == exact - 1 && sqrt_price <= sqrt_price_at(exact)
}

/// All initialized ticks of the accounts are multiples of the spacing.
pub open spec fn on_grid(accounts: Seq<Vec<u8>>) -> bool {
    forall|i: int, slot: int|
        0 <= i < accounts.len() && #[trigger] slot_in_use(accounts[i]@, slot) ==> tick_on_grid(
            tick_in_slot(accounts[i]@, slot),
        )
}

/// The nearest boundary lies ahead of the swap.
pub proof fn lemma_boundary_is_ahead(
    accounts: Seq<Vec<u8>>,
    current_tick: int,
    zero_for_one: bool,
)
    requires
        boundary_ahead(accounts, current_tick, zero_for_one) is Some,
    ensures
        ({
            let tick = boundary_ahead(accounts, current_tick, zero_for_one)->0;
            &&& is_next_boundary(accounts, current_tick, zero_for_one, tick)
            &&& zero_for_one ==> tick <= current_tick
            &&& !zero_for_one ==> tick > current_tick
        }),
{
    lemma_next_boundary_exists(accounts, current_tick, zero_for_one);
}

/// Where the tick fits the price, the price of a boundary above the lowest tick lies on the
/// side that the swap moves to.
pub proof fn lemma_boundary_price_is_ahead(
    sqrt_price: u128,
    tick: int,
    boundary: int,
    zero_for_one: bool,
)
    requires
        tick_fits_price(tick, sqrt_price),
        tick_in_range(boundary),
        if zero_for_one {
            MIN_TICK < boundary <= tick
        } else {
            boundary > tick
        },
    ensures
        if zero_for_one {
            sqrt_price_at(boundary) <= sqrt_price
        } else {
            sqrt_price_at(boundary) >= sqrt_price
        },
{
    let exact = tick_of_price(sqrt_price as int);
    law_price_has_one_tick(sqrt_price as int, exact);
    if zero_for_one {
        if boundary < exact {
            law_price_rises_with_tick(boundary, exact);
        }
    } else if tick == exact {
        if exact + 1 < boundary {
            law_price_rises_with_tick(exact + 1, boundary);
        }
    } else if exact < boundary {
        law_price_rises_with_tick(exact, boundary);
    }
}

/// The way from one price to another is the swap's: down for token 0, up for token 1.
pub open spec fn moved_its_way(from: u128, to: u128, zero_for_one: bool) -> bool {
    if zero_for_one {
        to <= from
    } else {
        to >= from
    }
}

/// A segment moves the price the swap's way.
pub proof fn law_segment_moves_price_its_way(
    state: SwapState,
    accounts: Seq<Vec<u8>>,
    zero_for_one: bool,
    sqrt_price_limit: u128,
    fee_rate: u128,
)
    requires
        limit_beyond(state.sqrt_price, sqrt_price_limit, zero_for_one),
        tick_fits_price(state.tick as int, state.sqrt_price),
        on_grid(accounts),
        segment(state, accounts, zero_for_one, sqrt_price_limit, fee_rate as int) is Some,
    ensures
        ({
            let (next, _) = segment(
                state,
                accounts,
                zero_for_one,
                sqrt_price_limit,
                fee_rate as int,
            )->0;
            moved_its_way(state.sqrt_price, next.sqrt_price, zero_for_one)
        }),
{
    let target = price_target(accounts, state.tick as int, zero_for_one, sqrt_price_limit)->0;
    match boundary_ahead(accounts, state.tick as int, zero_for_one) {
        Some(boundary) => {
            lemma_boundary_is_ahead(accounts, state.tick as int, zero_for_one);
            lemma_price_in_range(boundary);
            assert(tick_on_grid(boundary));
            lemma_boundary_price_is_ahead(
                state.sqrt_price,
                state.tick as int,
                boundary,
                zero_for_one,
            );
        },
        None => {},
    }
    lemma_segment_step(state, target as u128, fee_rate);
}

/// A segment keeps the tick in step with the price.
pub proof fn law_segment_keeps_tick_fitting(
    state: SwapState,
    accounts: Seq<Vec<u8>>,
    zero_for_one: bool,
    sqrt_price_limit: u128,
    fee_rate: u128,
)
    requires
        tick_fits_price(state.tick as int, state.sqrt_price),
        segment(state, accounts, zero_for_one, sqrt_price_limit, fee_rate as int) is Some,
    ensures
        ({
            let (next, _) = segment(
                state,
                accounts,
                zero_for_one,
                sqrt_price_limit,
                fee_rate as int,
            )->0;
            tick_fits_price(next.tick as int, next.sqrt_price)
        }),
{
    let (next, _) = segment(state, accounts, zero_for_one, sqrt_price_limit, fee_rate as int)->0;
    law_price_has_one_tick(next.sqrt_price as int, tick_of_price(next.sqrt_price as int));
    match boundary_ahead(accounts, state.tick as int, zero_for_one) {
        Some(boundary) => {
            lemma_price_in_range(boundary);
            law_tick_of_tick_price(boundary);
        },
        None => {},
    }
}

/// A segment's step stays on the way to its target, uses up its input, and its input is part
/// of what remains.
pub proof fn lemma_segment_step(state: SwapState, target: u128, fee_rate: u128)
    ensures
        ({
            let step = segment_step(state, target, fee_rate as int);
            let input = segment_input(
                state.sqrt_price,
                target,
                state.liquidity as int,
                state.amount_remaining as int,
                fee_rate as int,
            );
            &&& 0 <= input <= state.amount_remaining
            &&& target <= state.sqrt_price ==> target <= step.sqrt_price_next <= state.sqrt_price
            &&& target >= state.sqrt_price ==> state.sqrt_price <= step.sqrt_price_next <= target
            &&& state.sqrt_price > 0 || target > 0 ==> step.amount_in + step.fee_amount == input
        }),
{
    law_segment_input_suffices(
        state.sqrt_price,
        target,
        state.liquidity,
        state.amount_remaining,
        fee_rate,
    );
    let input = segment_input(
        state.sqrt_price,
        target,
        state.liquidity as int,
        state.amount_remaining as int,
        fee_rate as int,
    ) as u128;
    lemma_step_in_range(state.sqrt_price, target, state.liquidity, input, fee_rate);
    if state.sqrt_price > 0 || target > 0 {
        law_step_uses_up_input(state.sqrt_price, target, state.liquidity, input, fee_rate);
    }
    if target <= state.sqrt_price {
        law_downward_step_stays_on_its_way(
            state.sqrt_price,
            target,
            state.liquidity,
            input,
            fee_rate,
        );
    } else {
        law_upward_step_stays_on_its_way(
            state.sqrt_price,
            target,
            state.liquidity,
            input,
            fee_rate,
        );
    }
}

pub proof fn lemma_walk_moves_price_its_way(
    state: SwapState,
    accounts: Seq<Vec<u8>>,
    zero_for_one: bool,
    sqrt_price_limit: u128,
    fee_rate: u128,
    crossings: nat,
)
    requires
        limit_beyond(state.sqrt_price, sqrt_price_limit, zero_for_one),
        tick_fits_price(state.tick as int, state.sqrt_price),
        on_grid(accounts),
        walk(state, accounts, zero_for_one, sqrt_price_limit, fee_rate as int, crossings) is Some,
    ensures
        moved_its_way(
            state.sqrt_price,
            walk(
                state,
                accounts,
                zero_for_one,
                sqrt_price_limit,
                fee_rate as int,
                crossings,
            )->0.sqrt_price,
            zero_for_one,
        ),
    decreases crossings,
{
    if state.amount_remaining > 0 && crossings > 0 {
        law_segment_moves_price_its_way(state, accounts, zero_for_one, sqrt_price_limit, fee_rate);
        law_segment_keeps_tick_fitting(state, accounts, zero_for_one, sqrt_price_limit, fee_rate);
        let (next, go_on) = segment(
            state,
            accounts,
            zero_for_one,
            sqrt_price_limit,
            fee_rate as int,
        )->0;
        if go_on {
            lemma_walk_moves_price_its_way(
                next,
                accounts,
                zero_for_one,
                sqrt_price_limit,
                fee_rate,
                (crossings - 1) as nat,
            );
        }
    }
}

/// Token 0 never raises the price and token 1 never lowers it, in a pool whose tick fits its
/// price.
pub proof fn law_swap_moves_price_its_way(
    ctx: Swap,
    accounts: Seq<Vec<u8>>,
    amount: u64,
    zero_for_one: bool,
    sqrt_price_limit: u128,
    amount_out_minimum: u64,
)
    requires
        swap_failure(
            ctx,
            accounts,
            amount,
            zero_for_one,
            sqrt_price_limit,
            amount_out_minimum,
        ) is None,
        tick_fits_price(ctx.pool.tick_current as int, ctx.pool.sqrt_price),
        on_grid(accounts),
    ensures
        ({
            let after = pool_after_swap(
                ctx.pool,
                zero_for_one,
                swap_outcome(ctx.pool, accounts, amount, zero_for_one, sqrt_price_limit)->0,
            );
            &&& zero_for_one ==> after.sqrt_price <= ctx.pool.sqrt_price
            &&& !zero_for_one ==> after.sqrt_price >= ctx.pool.sqrt_price
        }),
{
    lemma_walk_moves_price_its_way(
        swap_start(ctx.pool, amount),
        accounts,
        zero_for_one,
        sqrt_price_limit,
        ctx.pool.fee_rate as u128,
        MAX_TICK_CROSSINGS as nat,
    );
}

/// The price is strictly past the limit.
pub open spec fn past_limit(
    sqrt_price: u128,
    sqrt_price_limit: u128,
    zero_for_one: bool,
) -> bool {
    if zero_for_one {
        sqrt_price < sqrt_price_limit
    } else {
        sqrt_price > sqrt_price_limit
    }
}

/// An initialized tick of the accounts has a price at least as far on the swap's way.
pub open spec fn boundary_at_or_beyond(
    accounts: Seq<Vec<u8>>,
    sqrt_price: u128,
    zero_for_one: bool,
) -> bool {
    exists|i: int, slot: int|
        0 <= i < accounts.len() && #[trigger] slot_in_use(accounts[i]@, slot) && if zero_for_one {
            sqrt_price_at(tick_in_slot(accounts[i]@, slot)) <= sqrt_price
        } else {
            sqrt_price_at(tick_in_slot(accounts[i]@, slot)) >= sqrt_price
        }
}

proof fn lemma_walk_past_limit(
    state: SwapState,
    accounts: Seq<Vec<u8>>,
    zero_for_one: bool,
    sqrt_price_limit: u128,
    fee_rate: u128,
    crossings: nat,
)
    requires
        limit_beyond(state.sqrt_price, sqrt_price_limit, zero_for_one),
        walk(state, accounts, zero_for_one, sqrt_price_limit, fee_rate as int, crossings) is Some,
    ensures
        ({
            let end = walk(
                state,
                accounts,
                zero_for_one,
                sqrt_price_limit,
                fee_rate as int,
                crossings,
            )->0;
            past_limit(end.sqrt_price, sqrt_price_limit, zero_for_one) ==> boundary_at_or_beyond(
                accounts,
                end.sqrt_price,
                zero_for_one,
            )
        }),
    decreases crossings,
{
    if state.amount_remaining > 0 && crossings > 0 {
        let target = price_target(accounts, state.tick as int, zero_for_one, sqrt_price_limit)->0;
        let (next, go_on) = segment(
            state,
            accounts,
            zero_for_one,
            sqrt_price_limit,
            fee_rate as int,
        )->0;
        match boundary_ahead(accounts, state.tick as int, zero_for_one) {
            Some(boundary) => {
                lemma_boundary_is_ahead(accounts, state.tick as int, zero_for_one);
                lemma_price_in_range(boundary);
                let (i, slot) = choose|i: int, slot: int|
                    0 <= i < accounts.len() && #[trigger] boundary_at(
                        accounts[i]@,
                        slot,
                        state.tick as int,
                        zero_for_one,
                    ) && boundary == tick_in_slot(accounts[i]@, slot);
                assert(slot_in_use(accounts[i]@, slot));
            },
            None => {},
        }
        lemma_segment_step(state, target as u128, fee_rate);
        if go_on {
            lemma_walk_past_limit(
                next,
                accounts,
                zero_for_one,
                sqrt_price_limit,
                fee_rate,
                (crossings - 1) as nat,
            );
        }
    }
}

/// A swap goes past its price limit only on the way to an initialized tick, and no further
/// than to that tick. Where no initialized tick lies beyond the limit, the limit holds.
pub proof fn law_swap_passes_limit_only_towards_boundary(
    ctx: Swap,
    accounts: Seq<Vec<u8>>,
    amount: u64,
    zero_for_one: bool,
    sqrt_price_limit: u128,
    amount_out_minimum: u64,
)
    requires
        swap_failure(
            ctx,
            accounts,
            amount,
            zero_for_one,
            sqrt_price_limit,
            amount_out_minimum,
        ) is None,
    ensures
        ({
            let after = pool_after_swap(
                ctx.pool,
                zero_for_one,
                swap_outcome(ctx.pool, accounts, amount, zero_for_one, sqrt_price_limit)->0,
            );
            past_limit(after.sqrt_price, sqrt_price_limit, zero_for_one) ==> boundary_at_or_beyond(
                accounts,
                after.sqrt_price,
                zero_for_one,
            )
        }),
{
    lemma_walk_past_limit(
        swap_start(ctx.pool, amount),
        accounts,
        zero_for_one,
        sqrt_price_limit,
        ctx.pool.fee_rate as u128,
        MAX_TICK_CROSSINGS as nat,
    );
}

/// A segment that has come to the limit or past it is the last one.
pub proof fn law_swap_stops_at_limit(
    state: SwapState,
    accounts: Seq<Vec<u8>>,
    zero_for_one: bool,
    sqrt_price_limit: u128,
    fee_rate: u128,
    crossings: nat,
)
    requires
        state.amount_remaining > 0,
        crossings > 0,
        segment(state, accounts, zero_for_one, sqrt_price_limit, fee_rate as int) is Some,
        ({
            let (next, _) = segment(
                state,
                accounts,
                zero_for_one,
                sqrt_price_limit,
                fee_rate as int,
            )->0;
            !limit_beyond(next.sqrt_price, sqrt_price_limit, zero_for_one)
        }),
    ensures
        ({
            let (next, _) = segment(
                state,
                accounts,
                zero_for_one,
                sqrt_price_limit,
                fee_rate as int,
            )->0;
            walk(state, accounts, zero_for_one, sqrt_price_limit, fee_rate as int, crossings)
                == Some(next)
        }),
{
}

pub proof fn lemma_walk_accounts(
    state: SwapState,
    accounts: Seq<Vec<u8>>,
    zero_for_one: bool,
    sqrt_price_limit: u128,
    fee_rate: u128,
    crossings: nat,
    amount: int,
)
    requires
        limit_beyond(state.sqrt_price, sqrt_price_limit, zero_for_one),
        walk(state, accounts, zero_for_one, sqrt_price_limit, fee_rate as int, crossings) is Some,
        state.amount_in + state.fee + state.amount_remaining == amount <= u64::MAX,
    ensures
        ({
            let end = walk(
                state,
                accounts,
                zero_for_one,
                sqrt_price_limit,
                fee_rate as int,
                crossings,
            )->0;
            end.amount_in + end.fee + end.amount_remaining == amount
        }),
    decreases crossings,
{
    if state.amount_remaining > 0 && crossings > 0 {
        let target = price_target(accounts, state.tick as int, zero_for_one, sqrt_price_limit)->0;
        if boundary_ahead(accounts, state.tick as int, zero_for_one) is Some {
            lemma_price_in_range(boundary_ahead(accounts, state.tick as int, zero_for_one)->0);
        }
        lemma_segment_step(state, target as u128, fee_rate);
        let (next, go_on) = segment(
            state,
            accounts,
            zero_for_one,
            sqrt_price_limit,
            fee_rate as int,
        )->0;
        if go_on {
            lemma_walk_accounts(
                next,
                accounts,
                zero_for_one,
                sqrt_price_limit,
                fee_rate,
                (crossings - 1) as nat,
                amount,
            );
        }
    }
}

/// A swap takes no more than the amount offered: the payment, the fee and what remains make
/// it up.
pub proof fn law_swap_accounts_for_amount(
    ctx: Swap,
    accounts: Seq<Vec<u8>>,
    amount: u64,
    zero_for_one: bool,
    sqrt_price_limit: u128,
    amount_out_minimum: u64,
    receipt: SwapReceipt,
)
    requires
        swap_failure(
            ctx,
            accounts,
            amount,
            zero_for_one,
            sqrt_price_limit,
            amount_out_minimum,
        ) is None,
        is_swap_receipt(
            ctx,
            zero_for_one,
            swap_outcome(ctx.pool, accounts, amount, zero_for_one, sqrt_price_limit)->0,
            receipt,
        ),
    ensures
        ({
            let end = swap_outcome(ctx.pool, accounts, amount, zero_for_one, sqrt_price_limit)->0;
            receipt.payment.amount + receipt.event.fee_amount + end.amount_remaining == amount
        }),
{
    lemma_walk_accounts(
        swap_start(ctx.pool, amount),
        accounts,
        zero_for_one,
        sqrt_price_limit,
        ctx.pool.fee_rate as u128,
        MAX_TICK_CROSSINGS as nat,
        amount as int,
    );
}

/// A swap that crosses a boundary with input left goes on from there, with the liquidity
/// behind the boundary.
pub proof fn law_swap_goes_on_after_crossing(
    state: SwapState,
    next: SwapState,
    accounts: Seq<Vec<u8>>,
    zero_for_one: bool,
    sqrt_price_limit: u128,
    fee_rate: int,
    crossings: nat,
)
    requires
        state.amount_remaining > 0,
        crossings > 0,
        segment(state, accounts, zero_for_one, sqrt_price_limit, fee_rate) == Some((next, true)),
    ensures
        walk(state, accounts, zero_for_one, sqrt_price_limit, fee_rate, crossings) == walk(
            next,
            accounts,
            zero_for_one,
            sqrt_price_limit,
            fee_rate,
            (crossings - 1) as nat,
        ),
{
}

/// A segment changes the active liquidity only by crossing the next boundary, and then by
/// what is recorded for that boundary's tick.
pub proof fn law_liquidity_changes_at_boundaries_only(
    state: SwapState,
    accounts: Seq<Vec<u8>>,
    zero_for_one: bool,
    sqrt_price_limit: u128,
    fee_rate: int,
)
    requires
        segment(state, accounts, zero_for_one, sqrt_price_limit, fee_rate) is Some,
    ensures
        ({
            let (next, go_on) = segment(
                state,
                accounts,
                zero_for_one,
                sqrt_price_limit,
                fee_rate,
            )->0;
            let boundary = boundary_ahead(accounts, state.tick as int, zero_for_one);
            ||| !go_on && next.liquidity == state.liquidity
            ||| {
                &&& boundary is Some
                &&& net_at_tick(accounts, boundary->0, zero_for_one) is Some
                &&& next.liquidity == clamp_u128(
                    state.liquidity + net_at_tick(accounts, boundary->0, zero_for_one)->0,
                )
                &&& next.tick == if zero_for_one {
                    boundary->0 - 1
                } else {
                    boundary->0
                }
            }
        }),
{
    if boundary_ahead(accounts, state.tick as int, zero_for_one) is Some {
        let tick = boundary_ahead(accounts, state.tick as int, zero_for_one)->0;
        assert(tick_in_range(tick));
    }
}

/// A segment that comes to the price of the next initialized tick applies what is recorded
/// for that tick: its net liquidity upwards, the negative of it downwards.
pub proof fn law_coming_to_tick_applies_its_net(
    state: SwapState,
    accounts: Seq<Vec<u8>>,
    zero_for_one: bool,
    sqrt_price_limit: u128,
    fee_rate: u128,
    tick: int,
)
    requires
        segment(state, accounts, zero_for_one, sqrt_price_limit, fee_rate as int) is Some,
        boundary_ahead(accounts, state.tick as int, zero_for_one) == Some(tick),
        ({
            let (next, _) = segment(
                state,
                accounts,
                zero_for_one,
                sqrt_price_limit,
                fee_rate as int,
            )->0;
            next.sqrt_price == sqrt_price_at(tick)
        }),
    ensures
        ({
            let (next, _) = segment(
                state,
                accounts,
                zero_for_one,
                sqrt_price_limit,
                fee_rate as int,
            )->0;
            &&& net_at_tick(accounts, tick, zero_for_one) is Some
            &&& next.liquidity == clamp_u128(
                state.liquidity + net_at_tick(accounts, tick, zero_for_one)->0,
            )
        }),
{
    lemma_price_in_range(tick);
}

/// A swap that ends at the price of the first initialized tick ahead has crossed that tick
/// and no other: the active liquidity has changed by what is recorded for the tick.
pub proof fn law_swap_onto_tick_applies_its_net(
    ctx: Swap,
    accounts: Seq<Vec<u8>>,
    amount: u64,
    zero_for_one: bool,
    sqrt_price_limit: u128,
    amount_out_minimum: u64,
    tick: int,
)
    requires
        swap_failure(
            ctx,
            accounts,
            amount,
            zero_for_one,
            sqrt_price_limit,
            amount_out_minimum,
        ) is None,
        tick_fits_price(ctx.pool.tick_current as int, ctx.pool.sqrt_price),
        on_grid(accounts),
        boundary_ahead(accounts, ctx.pool.tick_current as int, zero_for_one) == Some(tick),
        swap_outcome(
            ctx.pool,
            accounts,
            amount,
            zero_for_one,
            sqrt_price_limit,
        )->0.sqrt_price == sqrt_price_at(tick),
    ensures
        ({
            let after = pool_after_swap(
                ctx.pool,
                zero_for_one,
                swap_outcome(ctx.pool, accounts, amount, zero_for_one, sqrt_price_limit)->0,
            );
            &&& net_at_tick(accounts, tick, zero_for_one) is Some
            &&& after.liquidity == clamp_u128(
                ctx.pool.liquidity + net_at_tick(accounts, tick, zero_for_one)->0,
            )
        }),
{
    let state = swap_start(ctx.pool, amount);
    let fee_rate = ctx.pool.fee_rate as u128;
    let most = MAX_TICK_CROSSINGS as nat;
    lemma_price_in_range(tick);
    law_segment_keeps_tick_fitting(state, accounts, zero_for_one, sqrt_price_limit, fee_rate);
    let (next, go_on) = segment(
        state,
        accounts,
        zero_for_one,
        sqrt_price_limit,
        fee_rate as int,
    )->0;
    if go_on {
        lemma_further_crossing_moves_price(
            next,
            accounts,
            zero_for_one,
            sqrt_price_limit,
            fee_rate,
            (most - 1) as nat,
            tick,
        );
    }
    law_coming_to_tick_applies_its_net(
        state,
        accounts,
        zero_for_one,
        sqrt_price_limit,
        fee_rate,
        tick,
    );
}

/// From right behind a tick, a walk that ends at the price of that tick has kept its
/// liquidity.
proof fn lemma_further_crossing_moves_price(
    state: SwapState,
    accounts: Seq<Vec<u8>>,
    zero_for_one: bool,
    sqrt_price_limit: u128,
    fee_rate: u128,
    crossings: nat,
    tick: int,
)
    requires
        limit_beyond(state.sqrt_price, sqrt_price_limit, zero_for_one),
        tick_fits_price(state.tick as int, state.sqrt_price),
        on_grid(accounts),
        walk(state, accounts, zero_for_one, sqrt_price_limit, fee_rate as int, crossings) is Some,
        tick_in_range(tick),
        state.sqrt_price == sqrt_price_at(tick),
        state.tick == if zero_for_one {
            tick - 1
        } else {
            tick
        },
        walk(
            state,
            accounts,
            zero_for_one,
            sqrt_price_limit,
            fee_rate as int,
            crossings,
        )->0.sqrt_price == sqrt_price_at(tick),
    ensures
        walk(
            state,
            accounts,
            zero_for_one,
            sqrt_price_limit,
            fee_rate as int,
            crossings,
        )->0.liquidity == state.liquidity,
{
    if state.amount_remaining > 0 && crossings > 0 {
        law_segment_keeps_tick_fitting(state, accounts, zero_for_one, sqrt_price_limit, fee_rate);
        let (next, go_on) = segment(
            state,
            accounts,
            zero_for_one,
            sqrt_price_limit,
            fee_rate as int,
        )->0;
        match boundary_ahead(accounts, state.tick as int, zero_for_one) {
            Some(other) => {
                lemma_boundary_is_ahead(accounts, state.tick as int, zero_for_one);
                lemma_price_in_range(other);
                if zero_for_one {
                    law_price_rises_with_tick(other, tick);
                } else {
                    law_price_rises_with_tick(tick, other);
                }
            },
            None => {},
        }
        if go_on {
            lemma_walk_moves_price_its_way(
                next,
                accounts,
                zero_for_one,
                sqrt_price_limit,
                fee_rate,
                (crossings - 1) as nat,
            );
        }
    }
}

proof fn lemma_walk_keeps_tick_fitting(
    state: SwapState,
    accounts: Seq<Vec<u8>>,
    zero_for_one: bool,
    sqrt_price_limit: u128,
    fee_rate: u128,
    crossings: nat,
)
    requires
        tick_fits_price(state.tick as int, state.sqrt_price),
        walk(state, accounts, zero_for_one, sqrt_price_limit, fee_rate as int, crossings) is Some,
    ensures
        ({
            let end = walk(
                state,
                accounts,
                zero_for_one,
                sqrt_price_limit,
                fee_rate as int,
                crossings,
            )->0;
            tick_fits_price(end.tick as int, end.sqrt_price)
        }),
    decreases crossings,
{
    if state.amount_remaining > 0 && crossings > 0 {
        law_segment_keeps_tick_fitting(state, accounts, zero_for_one, sqrt_price_limit, fee_rate);
        let (next, go_on) = segment(
            state,
            accounts,
            zero_for_one,
            sqrt_price_limit,
            fee_rate as int,
        )->0;
        if go_on {
            lemma_walk_keeps_tick_fitting(
                next,
                accounts,
                zero_for_one,
                sqrt_price_limit,
                fee_rate,
                (crossings - 1) as nat,
            );
        }
    }
}

/// A swap keeps the pool's tick that of its price, or one below it right after a downward
/// crossing.
pub proof fn law_swap_keeps_tick_of_price(
    ctx: Swap,
    accounts: Seq<Vec<u8>>,
    amount: u64,
    zero_for_one: bool,
    sqrt_price_limit: u128,
    amount_out_minimum: u64,
)
    requires
        tick_fits_price(ctx.pool.tick_current as int, ctx.pool.sqrt_price),
        swap_failure(
            ctx,
            accounts,
            amount,
            zero_for_one,
            sqrt_price_limit,
            amount_out_minimum,
        ) is None,
    ensures
        ({
            let after = pool_after_swap(
                ctx.pool,
                zero_for_one,
                swap_outcome(ctx.pool, accounts, amount, zero_for_one, sqrt_price_limit)->0,
            );
            &&& tick_fits_price(after.tick_current as int, after.sqrt_price)
            &&& MIN_TICK - 1 <= after.tick_current <= MAX_TICK
        }),
{
    lemma_walk_keeps_tick_fitting(
        swap_start(ctx.pool, amount),
        accounts,
        zero_for_one,
        sqrt_price_limit,
        ctx.pool.fee_rate as u128,
        MAX_TICK_CROSSINGS as nat,
    );
    let end = swap_outcome(ctx.pool, accounts, amount, zero_for_one, sqrt_price_limit)->0;
    law_price_has_one_tick(end.sqrt_price as int, tick_of_price(end.sqrt_price as int));
}

/// Crossing a tick downwards takes back what crossing it upwards brought.
pub proof fn law_crossing_back_is_opposite(data: Seq<u8>, tick: int)
    requires
        net_in(data, tick, true) is Some,
    ensures
        net_in(data, tick, false) is Some,
        net_in(data, tick, true)->0 == -(net_in(data, tick, false)->0),
{
}

/// Upwards a swap heads for the nearest initialized tick above the current one.
pub proof fn law_upward_boundary_is_nearest(accounts: Seq<Vec<u8>>, current_tick: int, tick: int)
    requires
        boundary_ahead(accounts, current_tick, false) == Some(tick),
    ensures
        tick > current_tick,
        exists|i: int, slot: int|
            0 <= i < accounts.len() && #[trigger] slot_in_use(accounts[i]@, slot) && tick
                == tick_in_slot(accounts[i]@, slot),
        forall|i: int, slot: int|
            0 <= i < accounts.len() && #[trigger] slot_in_use(accounts[i]@, slot) && tick_in_slot(
                accounts[i]@,
                slot,
            ) > current_tick ==> tick <= tick_in_slot(accounts[i]@, slot),
{
    lemma_boundary_is_ahead(accounts, current_tick, false);
    assert forall|i: int, slot: int|
        0 <= i < accounts.len() && #[trigger] slot_in_use(accounts[i]@, slot) && tick_in_slot(
            accounts[i]@,
            slot,
        ) > current_tick implies tick <= tick_in_slot(accounts[i]@, slot) by {
        assert(boundary_at(accounts[i]@, slot, current_tick, false));
    }
}

/// Downwards a swap heads for the nearest initialized tick at or below the current one.
pub proof fn law_downward_boundary_is_nearest(accounts: Seq<Vec<u8>>, current_tick: int, tick: int)
    requires
        boundary_ahead(accounts, current_tick, true) == Some(tick),
    ensures
        tick <= current_tick,
        exists|i: int, slot: int|
            0 <= i < accounts.len() && #[trigger] slot_in_use(accounts[i]@, slot) && tick
                == tick_in_slot(accounts[i]@, slot),
        forall|i: int, slot: int|
            0 <= i < accounts.len() && #[trigger] slot_in_use(accounts[i]@, slot) && tick_in_slot(
                accounts[i]@,
                slot,
            ) <= current_tick ==> tick >= tick_in_slot(accounts[i]@, slot),
{
    lemma_boundary_is_ahead(accounts, current_tick, true);
    assert forall|i: int, slot: int|
        0 <= i < accounts.len() && #[trigger] slot_in_use(accounts[i]@, slot) && tick_in_slot(
            accounts[i]@,
            slot,
        ) <= current_tick implies tick >= tick_in_slot(accounts[i]@, slot) by {
        assert(boundary_at(accounts[i]@, slot, current_tick, true));
    }
}

/// Where a swap finds no boundary, no initialized tick lies ahead of it.
pub proof fn law_no_boundary_ahead(
    accounts: Seq<Vec<u8>>,
    current_tick: int,
    zero_for_one: bool,
)
    requires
        boundary_ahead(accounts, current_tick, zero_for_one) is None,
    ensures
        forall|i: int, slot: int|
            0 <= i < accounts.len() && #[trigger] slot_in_use(
                accounts[i]@,
                slot,
            ) ==> if zero_for_one {
                tick_in_slot(accounts[i]@, slot) > current_tick
            } else {
                tick_in_slot(accounts[i]@, slot) <= current_tick
            },
{
    assert forall|i: int, slot: int|
        0 <= i < accounts.len() && #[trigger] slot_in_use(
            accounts[i]@,
            slot,
        ) implies if zero_for_one {
        tick_in_slot(accounts[i]@, slot) > current_tick
    } else {
        tick_in_slot(accounts[i]@, slot) <= current_tick
    } by {
        assert(!boundary_at(accounts[i]@, slot, current_tick, zero_for_one));
    }
}

} // verus!
