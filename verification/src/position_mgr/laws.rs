//! What holds of positions across the instructions of all three programs.

use vstd::prelude::*;

use crate::arith::{
    is_i128, is_u128, two_pow_128, wrapping_difference, Q64,
};
use crate::pool_core::state::Pool;
use crate::pool_core::{mint_of_vault, pool_after_change};
use crate::position_mgr::liquidity_laws::{law_token_0_round_trip, law_token_1_round_trip};
use crate::position_mgr::liquidity_math::clamp_u64;
use crate::position_mgr::state::{fees_since, Position};
use crate::position_mgr::{
    accounts_failure, close_position_failure, close_receipt, closing_total_0, closing_total_1,
    collect_fees_failure, collected_position, collecting_total_0, collecting_total_1, holds_nft,
    is_open_receipt, liquidity_to_open, open_position_failure, opened_position, pool_amount_0,
    pool_amount_1, presents_nft, range_valid, ClosePosition, CollectFees, OpenPosition, OpenReceipt,
    PoolAccounts, PositionError,
};
use crate::pubkey::Pubkey;
use crate::tick_manager::price::sqrt_price_at;
use crate::tick_manager::state::TickData;
use crate::tick_manager::{gross_after, net_after, tick_after, tick_consistent};

verus! {

/// What every instruction keeps of a position: its range is valid, and it has liquidity.
pub open spec fn position_valid(position: Position) -> bool {
    range_valid(position.tick_lower as int, position.tick_upper as int) && position.liquidity > 0
}

/// An opened position is valid, and has earned and is owed nothing yet.
pub proof fn law_opened_position_is_valid(
    ctx: OpenPosition,
    amount_0_desired: u64,
    amount_1_desired: u64,
    amount_0_minimum: u64,
    amount_1_minimum: u64,
    tick_lower: i32,
    tick_upper: i32,
    liquidity: u128,
)
    requires
        open_position_failure(
            ctx,
            amount_0_desired,
            amount_1_desired,
            amount_0_minimum,
            amount_1_minimum,
            tick_lower,
            tick_upper,
        ) is None,
        liquidity == liquidity_to_open(
            ctx.accounts.pool,
            amount_0_desired,
            amount_1_desired,
            tick_lower,
            tick_upper,
        ),
    ensures
        ({
            let position = opened_position(ctx, liquidity, tick_lower, tick_upper);
            &&& position_valid(position)
            &&& collecting_total_0(position, ctx.accounts.pool) == 0
            &&& collecting_total_1(position, ctx.accounts.pool) == 0
        }),
{
    law_no_growth_no_fees(ctx.accounts.pool.fee_growth_global_0, liquidity);
    law_no_growth_no_fees(ctx.accounts.pool.fee_growth_global_1, liquidity);
}

/// An open position deposits no less than the minimum amounts.
pub proof fn law_deposit_meets_minimum(
    ctx: OpenPosition,
    amount_0_desired: u64,
    amount_1_desired: u64,
    amount_0_minimum: u64,
    amount_1_minimum: u64,
    tick_lower: i32,
    tick_upper: i32,
    liquidity: u128,
    receipt: OpenReceipt,
)
    requires
        open_position_failure(
            ctx,
            amount_0_desired,
            amount_1_desired,
            amount_0_minimum,
            amount_1_minimum,
            tick_lower,
            tick_upper,
        ) is None,
        liquidity == liquidity_to_open(
            ctx.accounts.pool,
            amount_0_desired,
            amount_1_desired,
            tick_lower,
            tick_upper,
        ),
        is_open_receipt(ctx, liquidity, tick_lower, tick_upper, receipt),
    ensures
        receipt.event.amount_0 >= amount_0_minimum,
        receipt.event.amount_1 >= amount_1_minimum,
{
}

/// A deposit takes no more of token 1 than is desired.
pub proof fn law_deposit_1_within_desired(
    pool: Pool,
    amount_0_desired: u64,
    amount_1_desired: u64,
    tick_lower: i32,
    tick_upper: i32,
)
    ensures
        pool_amount_1(
            pool,
            tick_lower,
            tick_upper,
            liquidity_to_open(pool, amount_0_desired, amount_1_desired, tick_lower, tick_upper),
        ) <= amount_1_desired,
{
    law_token_1_round_trip(
        pool.sqrt_price,
        sqrt_price_at(tick_lower as int) as u128,
        sqrt_price_at(tick_upper as int) as u128,
        amount_0_desired,
        amount_1_desired,
    );
}

/// A deposit takes no more of token 0 than is desired.
pub proof fn law_deposit_0_within_desired(
    pool: Pool,
    amount_0_desired: u64,
    amount_1_desired: u64,
    tick_lower: i32,
    tick_upper: i32,
)
    ensures
        pool_amount_0(
            pool,
            tick_lower,
            tick_upper,
            liquidity_to_open(pool, amount_0_desired, amount_1_desired, tick_lower, tick_upper),
        ) <= amount_0_desired,
{
    law_token_0_round_trip(
        pool.sqrt_price,
        sqrt_price_at(tick_lower as int) as u128,
        sqrt_price_at(tick_upper as int) as u128,
        amount_0_desired,
        amount_1_desired,
    );
}

/// Closing a position right after it was opened pays back exactly the deposit.
pub proof fn law_closing_returns_deposit(
    ctx: OpenPosition,
    liquidity: u128,
    tick_lower: i32,
    tick_upper: i32,
    receipt: OpenReceipt,
)
    requires
        is_open_receipt(ctx, liquidity, tick_lower, tick_upper, receipt),
    ensures
        ({
            let position = opened_position(ctx, liquidity, tick_lower, tick_upper);
            &&& closing_total_0(position, ctx.accounts.pool) == receipt.event.amount_0
            &&& closing_total_1(position, ctx.accounts.pool) == receipt.event.amount_1
        }),
{
    law_no_growth_no_fees(ctx.accounts.pool.fee_growth_global_0, liquidity);
    law_no_growth_no_fees(ctx.accounts.pool.fee_growth_global_1, liquidity);
}

/// Closing a position undoes to both ticks and to the pool what opening it did, where
/// nothing else has touched them in between.
pub proof fn law_closing_undoes_opening(
    ctx: OpenPosition,
    liquidity: u128,
    tick_lower: i32,
    tick_upper: i32,
    receipt: OpenReceipt,
    closing: ClosePosition,
    lower: TickData,
    upper: TickData,
    pool: Pool,
)
    requires
        liquidity <= i128::MAX,
        is_open_receipt(ctx, liquidity, tick_lower, tick_upper, receipt),
        closing.position == opened_position(ctx, liquidity, tick_lower, tick_upper),
        tick_consistent(lower),
        tick_consistent(upper),
        is_u128(gross_after(lower, liquidity as int)),
        is_i128(net_after(lower, liquidity as int, false)),
        is_u128(gross_after(upper, liquidity as int)),
        is_i128(net_after(upper, liquidity as int, true)),
        is_u128(pool.liquidity + liquidity),
    ensures
        ({
            let closed = close_receipt(closing);
            &&& closed.lower_tick.tick_index == receipt.lower_tick.tick_index
            &&& closed.upper_tick.tick_index == receipt.upper_tick.tick_index
            &&& tick_after(
                tick_after(lower, receipt.lower_tick.liquidity_delta as int, false),
                closed.lower_tick.liquidity_delta as int,
                false,
            ) == lower
            &&& tick_after(
                tick_after(upper, receipt.upper_tick.liquidity_delta as int, true),
                closed.upper_tick.liquidity_delta as int,
                true,
            ) == upper
            &&& pool_after_change(
                pool_after_change(
                    pool,
                    receipt.liquidity.liquidity_delta as int,
                    receipt.liquidity.tick_lower,
                    receipt.liquidity.tick_upper,
                ),
                closed.liquidity.liquidity_delta as int,
                closed.liquidity.tick_lower,
                closed.liquidity.tick_upper,
            ) == pool
        }),
{
}

/// The two ticks of a range and the pool are told of the same liquidity.
pub proof fn law_orders_agree(
    ctx: OpenPosition,
    liquidity: u128,
    tick_lower: i32,
    tick_upper: i32,
    receipt: OpenReceipt,
)
    requires
        is_open_receipt(ctx, liquidity, tick_lower, tick_upper, receipt),
    ensures
        receipt.lower_tick.liquidity_delta == receipt.upper_tick.liquidity_delta,
        receipt.liquidity.liquidity_delta == receipt.lower_tick.liquidity_delta,
        receipt.liquidity.tick_lower == receipt.lower_tick.tick_index,
        receipt.liquidity.tick_upper == receipt.upper_tick.tick_index,
        !receipt.lower_tick.is_upper_tick,
        receipt.upper_tick.is_upper_tick,
{
}

/// A position is closed only for the holder of its NFT, and pays no less than the minimum
/// amounts.
pub proof fn law_closing_takes_nft(
    ctx: ClosePosition,
    amount_0_minimum: u64,
    amount_1_minimum: u64,
)
    requires
        close_position_failure(ctx, amount_0_minimum, amount_1_minimum) is None,
    ensures
        presents_nft(ctx),
        closing_total_0(ctx.position, ctx.accounts.pool) >= amount_0_minimum,
        closing_total_1(ctx.position, ctx.accounts.pool) >= amount_1_minimum,
{
}

/// Whoever holds the NFT closes the position, whatever owner is recorded: two positions that
/// differ in their recorded owner alone are answered alike.
pub proof fn law_holder_closes_whoever_is_recorded(
    ctx: ClosePosition,
    recorded: Pubkey,
    amount_0_minimum: u64,
    amount_1_minimum: u64,
)
    requires
        presents_nft(ctx),
    ensures
        ({
            let other = ClosePosition {
                position: Position { owner: recorded, ..ctx.position },
                ..ctx
            };
            close_position_failure(other, amount_0_minimum, amount_1_minimum)
                == close_position_failure(ctx, amount_0_minimum, amount_1_minimum)
        }),
        close_position_failure(ctx, amount_0_minimum, amount_1_minimum) != Some(
            PositionError::Unauthorized,
        ),
        close_position_failure(ctx, amount_0_minimum, amount_1_minimum) != Some(
            PositionError::InvalidNft,
        ),
{
}

/// Fees are collected only for the holder of the position's NFT.
pub proof fn law_collecting_takes_nft(ctx: CollectFees)
    requires
        collect_fees_failure(ctx) is None,
    ensures
        holds_nft(ctx.position, ctx.nft_token_account, ctx.accounts.owner),
{
}

/// Whoever holds the NFT collects the fees, whatever owner is recorded.
pub proof fn law_holder_collects_whoever_is_recorded(ctx: CollectFees, recorded: Pubkey)
    requires
        holds_nft(ctx.position, ctx.nft_token_account, ctx.accounts.owner),
    ensures
        ({
            let other = CollectFees {
                position: Position { owner: recorded, ..ctx.position },
                ..ctx
            };
            collect_fees_failure(other) == collect_fees_failure(ctx)
        }),
        collect_fees_failure(ctx) != Some(PositionError::Unauthorized),
        collect_fees_failure(ctx) != Some(PositionError::InvalidNft),
{
}

/// A stranger, who neither holds the NFT nor is the recorded owner, is refused.
pub proof fn law_strangers_are_refused(
    closing: ClosePosition,
    collecting: CollectFees,
    amount_0_minimum: u64,
    amount_1_minimum: u64,
)
    ensures
        closing.position.owner != closing.accounts.owner && !presents_nft(closing)
            ==> close_position_failure(closing, amount_0_minimum, amount_1_minimum) == Some(
            PositionError::Unauthorized,
        ),
        collecting.position.owner != collecting.accounts.owner && !holds_nft(
            collecting.position,
            collecting.nft_token_account,
            collecting.accounts.owner,
        ) ==> collect_fees_failure(collecting) == Some(PositionError::Unauthorized),
{
}

/// The vaults of accounts that are accepted are those that the pool pays from.
pub proof fn law_accepted_vaults_pay(accounts: PoolAccounts)
    requires
        accounts_failure(accounts) is None,
    ensures
        accounts.token_vault_0.mint == mint_of_vault(accounts.pool, 0),
        accounts.token_vault_1.mint == mint_of_vault(accounts.pool, 1),
{
}

/// A position whose fees have just been collected has nothing left to collect, and is
/// otherwise as it was.
pub proof fn law_collecting_twice_pays_nothing(position: Position, pool: Pool)
    ensures
        collecting_total_0(collected_position(position, pool), pool) == 0,
        collecting_total_1(collected_position(position, pool), pool) == 0,
        collected_position(collected_position(position, pool), pool) == collected_position(
            position,
            pool,
        ),
        position_valid(position) ==> position_valid(collected_position(position, pool)),
{
    law_no_growth_no_fees(pool.fee_growth_global_0, position.liquidity);
    law_no_growth_no_fees(pool.fee_growth_global_1, position.liquidity);
}

/// No fees without growth.
pub proof fn law_no_growth_no_fees(growth: u128, liquidity: u128)
    ensures
        fees_since(growth, growth, liquidity) == 0,
{
    assert(0 * liquidity == 0);
}

/// Fees are `(growth - checkpoint) * liquidity / 2^64`, clamped to 64 bits.
pub proof fn law_fees_follow_growth(growth: u128, checkpoint: u128, liquidity: u128)
    requires
        checkpoint <= growth,
    ensures
        fees_since(growth, checkpoint, liquidity) == clamp_u64(
            ((growth - checkpoint) * liquidity) / Q64 as int,
        ),
{
}

/// Fees survive the accumulator's wrapping around.
pub proof fn law_fees_survive_wraparound(checkpoint: u128, growth: u128, increase: u128)
    requires
        growth == (checkpoint + increase) % two_pow_128(),
    ensures
        wrapping_difference(growth, checkpoint) == increase,
        forall|liquidity: u128| #[trigger]
            fees_since(growth, checkpoint, liquidity) == clamp_u64(
                (increase * liquidity) / Q64 as int,
            ),
{
}

/// Further growth never takes fees away.
pub proof fn law_fees_rise_with_growth(
    checkpoint: u128,
    growth: u128,
    later: u128,
    liquidity: u128,
)
    requires
        checkpoint <= growth <= later,
    ensures
        0 <= fees_since(growth, checkpoint, liquidity) <= fees_since(later, checkpoint, liquidity),
{
    let less = (growth - checkpoint) * liquidity;
    let more = (later - checkpoint) * liquidity;
    assert(0 <= less <= more) by (nonlinear_arith)
        requires
            checkpoint <= growth <= later,
            less == (growth - checkpoint) * liquidity,
            more == (later - checkpoint) * liquidity,
    ;
}

} // verus!
