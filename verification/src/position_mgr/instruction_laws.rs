//! What opening, closing and collecting promise, in terms of the accounts and the orders.

use vstd::prelude::*;

use crate::arith::{lemma_quotient, lemma_quotient_at_least, lemma_quotient_at_most, Q64};
use crate::position_mgr::laws::{law_deposit_0_within_desired, law_deposit_1_within_desired};
use crate::position_mgr::liquidity_math::{
    amount_0_of, amount_1_of, liquidity_of_0, liquidity_of_1,
};
use crate::position_mgr::state::fees_since;
use crate::position_mgr::{
    fees_collected, liquidity_to_open, position_closed, position_opened, ClosePosition,
    CloseReceipt, CollectFees, CollectReceipt, OpenPosition, OpenReceipt, PositionError,
};
use crate::tick_manager::laws::law_fresh_arrays_take_liquidity;
use crate::tick_manager::math::TickManagerError;
use crate::tick_manager::price::{law_price_rises_with_tick, lemma_price_in_range, sqrt_price_at};
use crate::tick_manager::{tick_update_done, UpdateTick};

verus! {

/// What an opening orders into the vaults is what it reports: of each token the owner pays the
/// amount of the event into the pool's vault, and there is no transfer of nothing.
pub proof fn law_opening_orders_what_it_reports(
    before: OpenPosition,
    amount_0_desired: u64,
    amount_1_desired: u64,
    amount_0_minimum: u64,
    amount_1_minimum: u64,
    tick_lower: i32,
    tick_upper: i32,
    after: OpenPosition,
    r: Result<OpenReceipt, PositionError>,
)
    requires
        position_opened(
            before,
            amount_0_desired,
            amount_1_desired,
            amount_0_minimum,
            amount_1_minimum,
            tick_lower,
            tick_upper,
            after,
            r,
        ),
        r is Ok,
    ensures
        ({
            let receipt = r->Ok_0;
            &&& receipt.event.amount_0 == (match receipt.deposit_0 {
                Some(transfer) => transfer.amount as int,
                None => 0,
            })
            &&& receipt.event.amount_1 == (match receipt.deposit_1 {
                Some(transfer) => transfer.amount as int,
                None => 0,
            })
            &&& receipt.deposit_0 matches Some(transfer) ==> {
                &&& transfer.from == before.accounts.user_token_account_0.key
                &&& transfer.to == before.accounts.token_vault_0.key
                &&& transfer.authority == before.accounts.owner
                &&& transfer.amount > 0
            }
            &&& receipt.deposit_1 matches Some(transfer) ==> {
                &&& transfer.from == before.accounts.user_token_account_1.key
                &&& transfer.to == before.accounts.token_vault_1.key
                &&& transfer.authority == before.accounts.owner
                &&& transfer.amount > 0
            }
            &&& amount_0_minimum <= receipt.event.amount_0 <= amount_0_desired
            &&& amount_1_minimum <= receipt.event.amount_1 <= amount_1_desired
        }),
{
    let pool = before.accounts.pool;
    law_deposit_0_within_desired(
        pool,
        amount_0_desired,
        amount_1_desired,
        tick_lower,
        tick_upper,
    );
    law_deposit_1_within_desired(
        pool,
        amount_0_desired,
        amount_1_desired,
        tick_lower,
        tick_upper,
    );
    let lower = sqrt_price_at(tick_lower as int);
    let upper = sqrt_price_at(tick_upper as int);
    lemma_price_in_range(tick_lower as int);
    lemma_price_in_range(tick_upper as int);
    law_price_rises_with_tick(tick_lower as int, tick_upper as int);
    lemma_liquidity(lower as u128, upper as u128, amount_0_desired, amount_1_desired);
}

/// Closing a position at the pool that it was just opened in pays back, of each token, just
/// what the opening ordered into the vault.
pub proof fn law_closing_pays_back_the_deposit(
    before: OpenPosition,
    amount_0_desired: u64,
    amount_1_desired: u64,
    amount_0_minimum: u64,
    amount_1_minimum: u64,
    tick_lower: i32,
    tick_upper: i32,
    after: OpenPosition,
    r: Result<OpenReceipt, PositionError>,
    closing: ClosePosition,
    closed_0_minimum: u64,
    closed_1_minimum: u64,
    closed: Result<CloseReceipt, PositionError>,
)
    requires
        position_opened(
            before,
            amount_0_desired,
            amount_1_desired,
            amount_0_minimum,
            amount_1_minimum,
            tick_lower,
            tick_upper,
            after,
            r,
        ),
        r is Ok,
        closing.position == after.position,
        closing.accounts.pool == before.accounts.pool,
        position_closed(closing, closed_0_minimum, closed_1_minimum, closed),
        closed is Ok,
    ensures
        (match closed->Ok_0.payout_0 {
            Some(payout) => payout.amount as int,
            None => 0,
        }) == (match r->Ok_0.deposit_0 {
            Some(transfer) => transfer.amount as int,
            None => 0,
        }),
        (match closed->Ok_0.payout_1 {
            Some(payout) => payout.amount as int,
            None => 0,
        }) == (match r->Ok_0.deposit_1 {
            Some(transfer) => transfer.amount as int,
            None => 0,
        }),
{
    let liquidity = after.position.liquidity;
    lemma_fees(
        before.accounts.pool.fee_growth_global_0,
        before.accounts.pool.fee_growth_global_0,
        liquidity,
    );
    lemma_fees(
        before.accounts.pool.fee_growth_global_1,
        before.accounts.pool.fee_growth_global_1,
        liquidity,
    );
}

/// What an opening reports of each token is what its liquidity stands for over the range:
/// `L / lower - L / upper` of token 0 unless the price is above the range, `L * upper - L *
/// lower` of token 1 unless it is below, both rounded down.
pub proof fn law_opening_reports_what_liquidity_stands_for(
    before: OpenPosition,
    amount_0_desired: u64,
    amount_1_desired: u64,
    amount_0_minimum: u64,
    amount_1_minimum: u64,
    tick_lower: i32,
    tick_upper: i32,
    after: OpenPosition,
    r: Result<OpenReceipt, PositionError>,
)
    requires
        position_opened(
            before,
            amount_0_desired,
            amount_1_desired,
            amount_0_minimum,
            amount_1_minimum,
            tick_lower,
            tick_upper,
            after,
            r,
        ),
        r is Ok,
    ensures
        ({
            let lower = sqrt_price_at(tick_lower as int);
            let upper = sqrt_price_at(tick_upper as int);
            let price = before.accounts.pool.sqrt_price as int;
            let event = r->Ok_0.event;
            let liquidity = event.liquidity as int;
            &&& price < upper ==> event.amount_0 * lower * upper <= liquidity * (upper - lower)
                * 0x1_0000_0000_0000_0000
            &&& price < upper && event.amount_0 < u64::MAX ==> liquidity * (upper - lower)
                * 0x1_0000_0000_0000_0000 < (event.amount_0 + 1) * lower * upper
            &&& price >= upper ==> event.amount_0 == 0
            &&& price > lower ==> event.amount_1 * 0x1_0000_0000_0000_0000 <= liquidity * (upper
                - lower)
            &&& price > lower && event.amount_1 < u64::MAX ==> liquidity * (upper - lower) < (
            event.amount_1 + 1) * 0x1_0000_0000_0000_0000
            &&& price <= lower ==> event.amount_1 == 0
        }),
{
    lemma_amounts(tick_lower as int, tick_upper as int, r->Ok_0.event.liquidity);
}

/// The liquidity of an opening is the most that the desired amounts pay for: it takes no more
/// of either token, and one unit more would.
pub proof fn law_opened_liquidity_is_the_most(
    before: OpenPosition,
    amount_0_desired: u64,
    amount_1_desired: u64,
    amount_0_minimum: u64,
    amount_1_minimum: u64,
    tick_lower: i32,
    tick_upper: i32,
    after: OpenPosition,
    r: Result<OpenReceipt, PositionError>,
)
    requires
        position_opened(
            before,
            amount_0_desired,
            amount_1_desired,
            amount_0_minimum,
            amount_1_minimum,
            tick_lower,
            tick_upper,
            after,
            r,
        ),
        r is Ok,
    ensures
        ({
            let lower = sqrt_price_at(tick_lower as int);
            let upper = sqrt_price_at(tick_upper as int);
            let price = before.accounts.pool.sqrt_price as int;
            let liquidity = r->Ok_0.event.liquidity as int;
            let more = liquidity + 1;
            &&& liquidity > 0
            &&& price < upper ==> liquidity * ((upper - lower) * 0x1_0000_0000_0000_0000)
                <= amount_0_desired * lower * upper
            &&& price > lower ==> liquidity * (upper - lower) <= amount_1_desired
                * 0x1_0000_0000_0000_0000
            &&& liquidity < u128::MAX ==> {
                ||| price < upper && more * ((upper - lower) * 0x1_0000_0000_0000_0000)
                    > amount_0_desired * lower * upper
                ||| price > lower && more * (upper - lower) > amount_1_desired
                    * 0x1_0000_0000_0000_0000
            }
        }),
{
    let lower = sqrt_price_at(tick_lower as int);
    let upper = sqrt_price_at(tick_upper as int);
    lemma_price_in_range(tick_lower as int);
    lemma_price_in_range(tick_upper as int);
    law_price_rises_with_tick(tick_lower as int, tick_upper as int);
    lemma_liquidity(lower as u128, upper as u128, amount_0_desired, amount_1_desired);
    let liquidity = r->Ok_0.event.liquidity as int;
    assert(liquidity == liquidity_to_open(
        before.accounts.pool,
        amount_0_desired,
        amount_1_desired,
        tick_lower,
        tick_upper,
    ));
}

/// An opening is accepted whenever it should be: the pool is set up and belongs to the pool
/// program, the token accounts fit, the ticks are valid and in order, the desired amounts pay
/// for some liquidity, and no minimum is asked for.
pub proof fn law_openings_are_accepted(
    before: OpenPosition,
    amount_0_desired: u64,
    amount_1_desired: u64,
    amount_0_minimum: u64,
    amount_1_minimum: u64,
    tick_lower: i32,
    tick_upper: i32,
    after: OpenPosition,
    r: Result<OpenReceipt, PositionError>,
)
    requires
        position_opened(
            before,
            amount_0_desired,
            amount_1_desired,
            amount_0_minimum,
            amount_1_minimum,
            tick_lower,
            tick_upper,
            after,
            r,
        ),
        before.accounts.pool.initialized,
        before.accounts.pool_owner == before.accounts.pool_core_program,
        before.accounts.token_vault_0.mint == before.accounts.pool.token_mint_0,
        before.accounts.token_vault_1.mint == before.accounts.pool.token_mint_1,
        before.accounts.user_token_account_0.mint == before.accounts.pool.token_mint_0,
        before.accounts.user_token_account_1.mint == before.accounts.pool.token_mint_1,
        before.accounts.user_token_account_0.owner == before.accounts.owner,
        before.accounts.user_token_account_1.owner == before.accounts.owner,
        -443_636 <= tick_lower < tick_upper <= 443_636,
        tick_lower as int % 64 == 0,
        tick_upper as int % 64 == 0,
        amount_0_minimum == 0,
        amount_1_minimum == 0,
        ({
            let lower = sqrt_price_at(tick_lower as int);
            let upper = sqrt_price_at(tick_upper as int);
            let price = before.accounts.pool.sqrt_price as int;
            &&& price < upper ==> (upper - lower) * 0x1_0000_0000_0000_0000 <= amount_0_desired
                * lower * upper
            &&& price > lower ==> upper - lower <= amount_1_desired * 0x1_0000_0000_0000_0000
        }),
    ensures
        r is Ok,
{
    let lower = sqrt_price_at(tick_lower as int);
    let upper = sqrt_price_at(tick_upper as int);
    lemma_price_in_range(tick_lower as int);
    lemma_price_in_range(tick_upper as int);
    law_price_rises_with_tick(tick_lower as int, tick_upper as int);
    lemma_liquidity(lower as u128, upper as u128, amount_0_desired, amount_1_desired);
    lemma_liquidity_is_positive(lower as u128, upper as u128, amount_0_desired, amount_1_desired);
}

/// An opening is refused for the first of these that holds: the pool is not set up, it belongs
/// to another program, a vault or a token account of the user does not fit, the range is not
/// valid, the amounts pay for no liquidity, or a minimum is not met. It then changes nothing.
pub proof fn law_refused_openings_change_nothing(
    before: OpenPosition,
    amount_0_desired: u64,
    amount_1_desired: u64,
    amount_0_minimum: u64,
    amount_1_minimum: u64,
    tick_lower: i32,
    tick_upper: i32,
    after: OpenPosition,
    r: Result<OpenReceipt, PositionError>,
)
    requires
        position_opened(
            before,
            amount_0_desired,
            amount_1_desired,
            amount_0_minimum,
            amount_1_minimum,
            tick_lower,
            tick_upper,
            after,
            r,
        ),
        r is Err,
    ensures
        after == before,
        ({
            let accounts = before.accounts;
            let vaults_fit = accounts.token_vault_0.mint == accounts.pool.token_mint_0
                && accounts.token_vault_1.mint == accounts.pool.token_mint_1;
            let user_fits = {
                &&& accounts.user_token_account_0.mint == accounts.pool.token_mint_0
                &&& accounts.user_token_account_1.mint == accounts.pool.token_mint_1
                &&& accounts.user_token_account_0.owner == accounts.owner
                &&& accounts.user_token_account_1.owner == accounts.owner
            };
            let range_fits = {
                &&& -443_636 <= tick_lower < tick_upper <= 443_636
                &&& tick_lower as int % 64 == 0
                &&& tick_upper as int % 64 == 0
            };
            let lower = sqrt_price_at(tick_lower as int);
            let upper = sqrt_price_at(tick_upper as int);
            let price = accounts.pool.sqrt_price as int;
            let pays = {
                &&& price < upper ==> (upper - lower) * 0x1_0000_0000_0000_0000
                    <= amount_0_desired * lower * upper
                &&& price > lower ==> upper - lower <= amount_1_desired
                    * 0x1_0000_0000_0000_0000
            };
            r->Err_0 == if !accounts.pool.initialized {
                PositionError::PoolNotInitialized
            } else if accounts.pool_owner != accounts.pool_core_program {
                PositionError::InvalidPool
            } else if !vaults_fit || !user_fits {
                PositionError::InvalidTokenAccount
            } else if !range_fits {
                PositionError::InvalidTickRange
            } else if !pays {
                PositionError::ZeroLiquidity
            } else {
                PositionError::SlippageExceeded
            }
        }),
{
    if -443_636 <= tick_lower < tick_upper <= 443_636 {
        let lower = sqrt_price_at(tick_lower as int);
        let upper = sqrt_price_at(tick_upper as int);
        lemma_price_in_range(tick_lower as int);
        lemma_price_in_range(tick_upper as int);
        law_price_rises_with_tick(tick_lower as int, tick_upper as int);
        lemma_liquidity(lower as u128, upper as u128, amount_0_desired, amount_1_desired);
        lemma_liquidity_is_positive(
            lower as u128,
            upper as u128,
            amount_0_desired,
            amount_1_desired,
        );
    }
}

/// The minimums decide about an opening as they should: one that goes through without them goes
/// through with them, to the same end, just where what it reports meets both. Else it is
/// refused and changes nothing.
pub proof fn law_minimums_decide_openings(
    before: OpenPosition,
    amount_0_desired: u64,
    amount_1_desired: u64,
    amount_0_minimum: u64,
    amount_1_minimum: u64,
    tick_lower: i32,
    tick_upper: i32,
    unbound_after: OpenPosition,
    unbound: Result<OpenReceipt, PositionError>,
    after: OpenPosition,
    r: Result<OpenReceipt, PositionError>,
)
    requires
        position_opened(
            before,
            amount_0_desired,
            amount_1_desired,
            0,
            0,
            tick_lower,
            tick_upper,
            unbound_after,
            unbound,
        ),
        unbound is Ok,
        position_opened(
            before,
            amount_0_desired,
            amount_1_desired,
            amount_0_minimum,
            amount_1_minimum,
            tick_lower,
            tick_upper,
            after,
            r,
        ),
    ensures
        ({
            let event = unbound->Ok_0.event;
            let met = event.amount_0 >= amount_0_minimum && event.amount_1 >= amount_1_minimum;
            &&& met ==> r is Ok && after == unbound_after && r->Ok_0.event == event
            &&& !met ==> r == Err::<OpenReceipt, PositionError>(PositionError::SlippageExceeded)
                && after == before
        }),
{
}

/// The minimums decide about a closing as they should: one that goes through without them goes
/// through with them, with the same orders, just where both payouts meet them.
pub proof fn law_minimums_decide_closings(
    ctx: ClosePosition,
    amount_0_minimum: u64,
    amount_1_minimum: u64,
    unbound: Result<CloseReceipt, PositionError>,
    r: Result<CloseReceipt, PositionError>,
)
    requires
        position_closed(ctx, 0, 0, unbound),
        unbound is Ok,
        position_closed(ctx, amount_0_minimum, amount_1_minimum, r),
    ensures
        ({
            let paid_0 = match unbound->Ok_0.payout_0 {
                Some(payout) => payout.amount as int,
                None => 0,
            };
            let paid_1 = match unbound->Ok_0.payout_1 {
                Some(payout) => payout.amount as int,
                None => 0,
            };
            let met = paid_0 >= amount_0_minimum && paid_1 >= amount_1_minimum;
            &&& met ==> r == unbound
            &&& !met ==> r == Err::<CloseReceipt, PositionError>(PositionError::SlippageExceeded)
        }),
{
}

/// A closing is refused for the first of these that holds: the signer neither presents the NFT
/// nor is the recorded owner, the pool is not set up, it belongs to another program, a vault
/// does not fit, the NFT is not presented, a token account of the user does not fit, a tick is
/// out of range, or a minimum is not met.
pub proof fn law_refused_closings_say_why(
    ctx: ClosePosition,
    amount_0_minimum: u64,
    amount_1_minimum: u64,
    r: Result<CloseReceipt, PositionError>,
)
    requires
        position_closed(ctx, amount_0_minimum, amount_1_minimum, r),
        r is Err,
    ensures
        ({
            let accounts = ctx.accounts;
            let position = ctx.position;
            let holder = {
                &&& ctx.nft_mint == position.nft_mint
                &&& ctx.nft_token_account.mint == position.nft_mint
                &&& ctx.nft_token_account.owner == accounts.owner
                &&& ctx.nft_token_account.amount == 1
            };
            let vaults_fit = accounts.token_vault_0.mint == accounts.pool.token_mint_0
                && accounts.token_vault_1.mint == accounts.pool.token_mint_1;
            let user_fits = {
                &&& accounts.user_token_account_0.mint == accounts.pool.token_mint_0
                &&& accounts.user_token_account_1.mint == accounts.pool.token_mint_1
                &&& accounts.user_token_account_0.owner == accounts.owner
                &&& accounts.user_token_account_1.owner == accounts.owner
            };
            let range_fits = {
                &&& -443_636 <= position.tick_lower <= 443_636
                &&& -443_636 <= position.tick_upper <= 443_636
            };
            r->Err_0 == if !holder && position.owner != accounts.owner {
                PositionError::Unauthorized
            } else if !accounts.pool.initialized {
                PositionError::PoolNotInitialized
            } else if accounts.pool_owner != accounts.pool_core_program {
                PositionError::InvalidPool
            } else if !vaults_fit {
                PositionError::InvalidTokenAccount
            } else if !holder {
                PositionError::InvalidNft
            } else if !user_fits {
                PositionError::InvalidTokenAccount
            } else if !range_fits {
                PositionError::InvalidTickRange
            } else {
                PositionError::SlippageExceeded
            }
        }),
{
}

/// A collection is refused for the first of these that holds: the signer neither holds the NFT
/// nor is the recorded owner, the pool is not set up, it belongs to another program, a vault
/// does not fit, the NFT is not held, or a token account of the user does not fit.
pub proof fn law_refused_collections_say_why(
    before: CollectFees,
    after: CollectFees,
    r: Result<CollectReceipt, PositionError>,
)
    requires
        fees_collected(before, after, r),
        r is Err,
    ensures
        ({
            let accounts = before.accounts;
            let position = before.position;
            let holder = {
                &&& before.nft_token_account.mint == position.nft_mint
                &&& before.nft_token_account.owner == accounts.owner
                &&& before.nft_token_account.amount == 1
            };
            let vaults_fit = accounts.token_vault_0.mint == accounts.pool.token_mint_0
                && accounts.token_vault_1.mint == accounts.pool.token_mint_1;
            r->Err_0 == if !holder && position.owner != accounts.owner {
                PositionError::Unauthorized
            } else if !accounts.pool.initialized {
                PositionError::PoolNotInitialized
            } else if accounts.pool_owner != accounts.pool_core_program {
                PositionError::InvalidPool
            } else if !vaults_fit {
                PositionError::InvalidTokenAccount
            } else if !holder {
                PositionError::InvalidNft
            } else {
                PositionError::InvalidTokenAccount
            }
        }),
{
}

/// An opening that goes through was of a pool that is set up, by the owner of both token
/// accounts, over a valid range.
pub proof fn law_accepted_openings_were_valid(
    before: OpenPosition,
    amount_0_desired: u64,
    amount_1_desired: u64,
    amount_0_minimum: u64,
    amount_1_minimum: u64,
    tick_lower: i32,
    tick_upper: i32,
    after: OpenPosition,
    r: Result<OpenReceipt, PositionError>,
)
    requires
        position_opened(
            before,
            amount_0_desired,
            amount_1_desired,
            amount_0_minimum,
            amount_1_minimum,
            tick_lower,
            tick_upper,
            after,
            r,
        ),
        r is Ok,
    ensures
        before.accounts.pool.initialized,
        before.accounts.pool_owner == before.accounts.pool_core_program,
        before.accounts.token_vault_0.mint == before.accounts.pool.token_mint_0,
        before.accounts.token_vault_1.mint == before.accounts.pool.token_mint_1,
        before.accounts.user_token_account_0.mint == before.accounts.pool.token_mint_0,
        before.accounts.user_token_account_1.mint == before.accounts.pool.token_mint_1,
        before.accounts.user_token_account_0.owner == before.accounts.owner,
        before.accounts.user_token_account_1.owner == before.accounts.owner,
        -443_636 <= tick_lower < tick_upper <= 443_636,
        tick_lower as int % 64 == 0,
        tick_upper as int % 64 == 0,
{
}

/// An opening records the position for the owner at the pool's present fee growth, with
/// nothing owed, tells both ticks and the pool of its liquidity, and mints one NFT to the owner.
pub proof fn law_opening_records_the_position(
    before: OpenPosition,
    amount_0_desired: u64,
    amount_1_desired: u64,
    amount_0_minimum: u64,
    amount_1_minimum: u64,
    tick_lower: i32,
    tick_upper: i32,
    after: OpenPosition,
    r: Result<OpenReceipt, PositionError>,
)
    requires
        position_opened(
            before,
            amount_0_desired,
            amount_1_desired,
            amount_0_minimum,
            amount_1_minimum,
            tick_lower,
            tick_upper,
            after,
            r,
        ),
        r is Ok,
    ensures
        ({
            let position = after.position;
            let pool = before.accounts.pool;
            let event = r->Ok_0.event;
            &&& position.pool == before.accounts.pool_key
            &&& position.owner == before.accounts.owner
            &&& position.nft_mint == before.nft_mint
            &&& position.tick_lower == tick_lower
            &&& position.tick_upper == tick_upper
            &&& position.liquidity == event.liquidity
            &&& position.fee_growth_checkpoint_0 == pool.fee_growth_global_0
            &&& position.fee_growth_checkpoint_1 == pool.fee_growth_global_1
            &&& position.tokens_owed_0 == 0
            &&& position.tokens_owed_1 == 0
            &&& position.bump == before.position_bump
            &&& position._padding == before.position._padding
            &&& after.accounts == before.accounts
            &&& after.position_key == before.position_key
            &&& after.position_bump == before.position_bump
            &&& after.nft_mint == before.nft_mint
            &&& after.nft_token_account == before.nft_token_account
            &&& event.position == before.position_key
            &&& event.pool == before.accounts.pool_key
            &&& event.owner == before.accounts.owner
            &&& event.nft_mint == before.nft_mint
            &&& event.tick_lower == tick_lower
            &&& event.tick_upper == tick_upper
        }),
        ({
            let receipt = r->Ok_0;
            let liquidity = receipt.event.liquidity as int;
            &&& receipt.lower_tick.tick_index == tick_lower
            &&& receipt.upper_tick.tick_index == tick_upper
            &&& !receipt.lower_tick.is_upper_tick
            &&& receipt.upper_tick.is_upper_tick
            &&& receipt.lower_tick.bitmap_word_index == (tick_lower as int / 5_632 + 79) / 8
            &&& receipt.upper_tick.bitmap_word_index == (tick_upper as int / 5_632 + 79) / 8
            &&& receipt.liquidity.tick_lower == tick_lower
            &&& receipt.liquidity.tick_upper == tick_upper
            &&& liquidity <= i128::MAX ==> {
                &&& receipt.lower_tick.liquidity_delta == liquidity
                &&& receipt.upper_tick.liquidity_delta == liquidity
                &&& receipt.liquidity.liquidity_delta == liquidity
            }
            &&& liquidity > i128::MAX ==> {
                let wrapped = liquidity - 0x1_0000_0000_0000_0000_0000_0000_0000_0000int;
                &&& receipt.lower_tick.liquidity_delta == wrapped
                &&& receipt.upper_tick.liquidity_delta == wrapped
                &&& receipt.liquidity.liquidity_delta == wrapped
            }
            &&& receipt.lower_tick.fee_growth_global_0 == before.accounts.pool.fee_growth_global_0
            &&& receipt.lower_tick.fee_growth_global_1 == before.accounts.pool.fee_growth_global_1
            &&& receipt.upper_tick.fee_growth_global_0 == before.accounts.pool.fee_growth_global_0
            &&& receipt.upper_tick.fee_growth_global_1 == before.accounts.pool.fee_growth_global_1
            &&& receipt.nft.mint == before.nft_mint
            &&& receipt.nft.to == before.nft_token_account
            &&& receipt.nft.authority == before.position_key
            &&& receipt.nft.amount == 1
            &&& receipt.nft.seeds.label@ == seq![0x70u8, 0x6f, 0x73, 0x69, 0x74, 0x69, 0x6f, 0x6e]
            &&& receipt.nft.seeds.nft_mint == before.nft_mint
            &&& receipt.nft.seeds.bump@[0] == before.position_bump
        }),
{
}

/// Both tick orders of an opening are accepted by fresh tick arrays that span the ticks.
pub proof fn law_opening_orders_fit_fresh_arrays(
    before: OpenPosition,
    amount_0_desired: u64,
    amount_1_desired: u64,
    amount_0_minimum: u64,
    amount_1_minimum: u64,
    tick_lower: i32,
    tick_upper: i32,
    after: OpenPosition,
    r: Result<OpenReceipt, PositionError>,
    lower: UpdateTick,
    lower_after: UpdateTick,
    lower_r: Result<(), TickManagerError>,
    upper: UpdateTick,
    upper_after: UpdateTick,
    upper_r: Result<(), TickManagerError>,
)
    requires
        position_opened(
            before,
            amount_0_desired,
            amount_1_desired,
            amount_0_minimum,
            amount_1_minimum,
            tick_lower,
            tick_upper,
            after,
            r,
        ),
        r is Ok,
        r->Ok_0.event.liquidity <= i128::MAX,
        lower.tick_array.start_tick_index <= tick_lower < lower.tick_array.start_tick_index
            + 5_632,
        upper.tick_array.start_tick_index <= tick_upper < upper.tick_array.start_tick_index
            + 5_632,
        forall|c: int, p: int|
            0 <= c < 8 && 0 <= p < 11 ==> (#[trigger] lower.tick_array.ticks@[c]@[p])
                .liquidity_gross == 0 && lower.tick_array.ticks@[c]@[p].liquidity_net == 0,
        forall|c: int, p: int|
            0 <= c < 8 && 0 <= p < 11 ==> (#[trigger] upper.tick_array.ticks@[c]@[p])
                .liquidity_gross == 0 && upper.tick_array.ticks@[c]@[p].liquidity_net == 0,
        forall|i: int| 0 <= i < 32 ==> lower.tick_bitmap.pool.bytes@[i] == 0,
        forall|i: int| 0 <= i < 32 ==> upper.tick_bitmap.pool.bytes@[i] == 0,
        ({
            let order = r->Ok_0.lower_tick;
            tick_update_done(
                lower,
                order.tick_index,
                order.bitmap_word_index,
                order.liquidity_delta,
                order.is_upper_tick,
                lower_after,
                lower_r,
            )
        }),
        ({
            let order = r->Ok_0.upper_tick;
            tick_update_done(
                upper,
                order.tick_index,
                order.bitmap_word_index,
                order.liquidity_delta,
                order.is_upper_tick,
                upper_after,
                upper_r,
            )
        }),
    ensures
        lower_r is Ok,
        upper_r is Ok,
{
    let order = r->Ok_0.lower_tick;
    law_fresh_arrays_take_liquidity(
        lower,
        order.tick_index,
        order.bitmap_word_index,
        order.liquidity_delta,
        order.is_upper_tick,
        lower_after,
        lower_r,
    );
    let order = r->Ok_0.upper_tick;
    law_fresh_arrays_take_liquidity(
        upper,
        order.tick_index,
        order.bitmap_word_index,
        order.liquidity_delta,
        order.is_upper_tick,
        upper_after,
        upper_r,
    );
}

/// Closing pays, of each token, what it reports for the liquidity, what it reports as fees and
/// what was owed, together up to 64 bits. The owner gets it from the pool's vault.
pub proof fn law_closing_pays_all_that_is_due(
    ctx: ClosePosition,
    amount_0_minimum: u64,
    amount_1_minimum: u64,
    r: Result<CloseReceipt, PositionError>,
)
    requires
        position_closed(ctx, amount_0_minimum, amount_1_minimum, r),
        r is Ok,
    ensures
        ({
            let receipt = r->Ok_0;
            let due_0 = receipt.event.amount_0 + receipt.event.fees_0 + ctx.position.tokens_owed_0;
            let due_1 = receipt.event.amount_1 + receipt.event.fees_1 + ctx.position.tokens_owed_1;
            let paid_0 = match receipt.payout_0 {
                Some(payout) => payout.amount as int,
                None => 0,
            };
            let paid_1 = match receipt.payout_1 {
                Some(payout) => payout.amount as int,
                None => 0,
            };
            &&& due_0 <= u64::MAX ==> paid_0 == due_0
            &&& due_1 <= u64::MAX ==> paid_1 == due_1
            &&& due_0 > u64::MAX ==> paid_0 == u64::MAX
            &&& due_1 > u64::MAX ==> paid_1 == u64::MAX
            &&& paid_0 >= amount_0_minimum
            &&& paid_1 >= amount_1_minimum
            &&& receipt.payout_0 matches Some(payout) ==> {
                &&& payout.vault_index == 0
                &&& payout.vault == ctx.accounts.token_vault_0.key
                &&& payout.destination == ctx.accounts.user_token_account_0.key
                &&& payout.amount > 0
            }
            &&& receipt.payout_1 matches Some(payout) ==> {
                &&& payout.vault_index == 1
                &&& payout.vault == ctx.accounts.token_vault_1.key
                &&& payout.destination == ctx.accounts.user_token_account_1.key
                &&& payout.amount > 0
            }
        }),
{
}

/// What closing reports as fees is `(growth - checkpoint) * liquidity / 2^64`, rounded down and
/// clamped at 64 bits, for both tokens. The growth is counted modulo `2^128`.
pub proof fn law_closing_reports_fees_since_checkpoint(
    ctx: ClosePosition,
    amount_0_minimum: u64,
    amount_1_minimum: u64,
    r: Result<CloseReceipt, PositionError>,
)
    requires
        position_closed(ctx, amount_0_minimum, amount_1_minimum, r),
        r is Ok,
    ensures
        ({
            let event = r->Ok_0.event;
            let pool = ctx.accounts.pool;
            let position = ctx.position;
            let growth_0 = if pool.fee_growth_global_0 >= position.fee_growth_checkpoint_0 {
                pool.fee_growth_global_0 - position.fee_growth_checkpoint_0
            } else {
                pool.fee_growth_global_0 - position.fee_growth_checkpoint_0
                    + 0x1_0000_0000_0000_0000_0000_0000_0000_0000int
            };
            let growth_1 = if pool.fee_growth_global_1 >= position.fee_growth_checkpoint_1 {
                pool.fee_growth_global_1 - position.fee_growth_checkpoint_1
            } else {
                pool.fee_growth_global_1 - position.fee_growth_checkpoint_1
                    + 0x1_0000_0000_0000_0000_0000_0000_0000_0000int
            };
            let liquidity = position.liquidity;
            &&& event.fees_0 * 0x1_0000_0000_0000_0000 <= growth_0 * liquidity
            &&& event.fees_1 * 0x1_0000_0000_0000_0000 <= growth_1 * liquidity
            &&& event.fees_0 < u64::MAX ==> growth_0 * liquidity < (event.fees_0 + 1)
                * 0x1_0000_0000_0000_0000
            &&& event.fees_1 < u64::MAX ==> growth_1 * liquidity < (event.fees_1 + 1)
                * 0x1_0000_0000_0000_0000
        }),
{
    let pool = ctx.accounts.pool;
    let position = ctx.position;
    lemma_fees(pool.fee_growth_global_0, position.fee_growth_checkpoint_0, position.liquidity);
    lemma_fees(pool.fee_growth_global_1, position.fee_growth_checkpoint_1, position.liquidity);
}

/// What closing reports of each token is what the position's liquidity stands for over its
/// range at the pool's price.
pub proof fn law_closing_reports_what_liquidity_stands_for(
    ctx: ClosePosition,
    amount_0_minimum: u64,
    amount_1_minimum: u64,
    r: Result<CloseReceipt, PositionError>,
)
    requires
        position_closed(ctx, amount_0_minimum, amount_1_minimum, r),
        r is Ok,
        ctx.position.tick_lower < ctx.position.tick_upper,
    ensures
        r->Ok_0.event.liquidity == ctx.position.liquidity,
        ({
            let lower = sqrt_price_at(ctx.position.tick_lower as int);
            let upper = sqrt_price_at(ctx.position.tick_upper as int);
            let price = ctx.accounts.pool.sqrt_price as int;
            let event = r->Ok_0.event;
            let liquidity = event.liquidity as int;
            &&& price < upper ==> event.amount_0 * lower * upper <= liquidity * (upper - lower)
                * 0x1_0000_0000_0000_0000
            &&& price < upper && event.amount_0 < u64::MAX ==> liquidity * (upper - lower)
                * 0x1_0000_0000_0000_0000 < (event.amount_0 + 1) * lower * upper
            &&& price >= upper ==> event.amount_0 == 0
            &&& price > lower ==> event.amount_1 * 0x1_0000_0000_0000_0000 <= liquidity * (upper
                - lower)
            &&& price > lower && event.amount_1 < u64::MAX ==> liquidity * (upper - lower) < (
            event.amount_1 + 1) * 0x1_0000_0000_0000_0000
            &&& price <= lower ==> event.amount_1 == 0
        }),
{
    lemma_amounts(
        ctx.position.tick_lower as int,
        ctx.position.tick_upper as int,
        ctx.position.liquidity,
    );
}

/// Closing takes the position's liquidity back out of both ticks and the pool, and burns the
/// NFT of the signer.
pub proof fn law_closing_takes_liquidity_out(
    ctx: ClosePosition,
    amount_0_minimum: u64,
    amount_1_minimum: u64,
    r: Result<CloseReceipt, PositionError>,
)
    requires
        position_closed(ctx, amount_0_minimum, amount_1_minimum, r),
        r is Ok,
    ensures
        ({
            let receipt = r->Ok_0;
            let position = ctx.position;
            &&& receipt.lower_tick.tick_index == position.tick_lower
            &&& receipt.upper_tick.tick_index == position.tick_upper
            &&& !receipt.lower_tick.is_upper_tick
            &&& receipt.upper_tick.is_upper_tick
            &&& receipt.lower_tick.bitmap_word_index == (position.tick_lower as int / 5_632 + 79)
                / 8
            &&& receipt.upper_tick.bitmap_word_index == (position.tick_upper as int / 5_632 + 79)
                / 8
            &&& receipt.liquidity.tick_lower == position.tick_lower
            &&& receipt.liquidity.tick_upper == position.tick_upper
            &&& position.liquidity <= i128::MAX ==> {
                &&& receipt.lower_tick.liquidity_delta == -position.liquidity
                &&& receipt.upper_tick.liquidity_delta == -position.liquidity
                &&& receipt.liquidity.liquidity_delta == -position.liquidity
            }
            &&& receipt.lower_tick.fee_growth_global_0 == ctx.accounts.pool.fee_growth_global_0
            &&& receipt.lower_tick.fee_growth_global_1 == ctx.accounts.pool.fee_growth_global_1
            &&& receipt.upper_tick.fee_growth_global_0 == ctx.accounts.pool.fee_growth_global_0
            &&& receipt.upper_tick.fee_growth_global_1 == ctx.accounts.pool.fee_growth_global_1
            &&& receipt.nft.mint == position.nft_mint
            &&& receipt.nft.from == ctx.nft_token_account.key
            &&& receipt.nft.authority == ctx.accounts.owner
            &&& receipt.nft.amount == 1
            &&& receipt.event.position == ctx.position_key
            &&& receipt.event.pool == ctx.accounts.pool_key
            &&& receipt.event.owner == ctx.accounts.owner
        }),
{
}

/// The holder of the NFT can always close, with token accounts that fit, a position whose
/// ticks are valid, where no minimum is asked for.
pub proof fn law_closings_are_accepted(
    ctx: ClosePosition,
    amount_0_minimum: u64,
    amount_1_minimum: u64,
    r: Result<CloseReceipt, PositionError>,
)
    requires
        position_closed(ctx, amount_0_minimum, amount_1_minimum, r),
        ctx.accounts.pool.initialized,
        ctx.accounts.pool_owner == ctx.accounts.pool_core_program,
        ctx.accounts.token_vault_0.mint == ctx.accounts.pool.token_mint_0,
        ctx.accounts.token_vault_1.mint == ctx.accounts.pool.token_mint_1,
        ctx.accounts.user_token_account_0.mint == ctx.accounts.pool.token_mint_0,
        ctx.accounts.user_token_account_1.mint == ctx.accounts.pool.token_mint_1,
        ctx.accounts.user_token_account_0.owner == ctx.accounts.owner,
        ctx.accounts.user_token_account_1.owner == ctx.accounts.owner,
        ctx.nft_mint == ctx.position.nft_mint,
        ctx.nft_token_account.mint == ctx.position.nft_mint,
        ctx.nft_token_account.owner == ctx.accounts.owner,
        ctx.nft_token_account.amount == 1,
        -443_636 <= ctx.position.tick_lower <= 443_636,
        -443_636 <= ctx.position.tick_upper <= 443_636,
        amount_0_minimum == 0,
        amount_1_minimum == 0,
    ensures
        r is Ok,
{
    let pool = ctx.accounts.pool;
    let position = ctx.position;
    lemma_fees(pool.fee_growth_global_0, position.fee_growth_checkpoint_0, position.liquidity);
    lemma_fees(pool.fee_growth_global_1, position.fee_growth_checkpoint_1, position.liquidity);
}

/// A closing that goes through was by the holder of the position's NFT, and all its accounts
/// fit.
pub proof fn law_accepted_closings_were_valid(
    ctx: ClosePosition,
    amount_0_minimum: u64,
    amount_1_minimum: u64,
    r: Result<CloseReceipt, PositionError>,
)
    requires
        position_closed(ctx, amount_0_minimum, amount_1_minimum, r),
        r is Ok,
    ensures
        ctx.accounts.pool.initialized,
        ctx.accounts.pool_owner == ctx.accounts.pool_core_program,
        ctx.accounts.token_vault_0.mint == ctx.accounts.pool.token_mint_0,
        ctx.accounts.token_vault_1.mint == ctx.accounts.pool.token_mint_1,
        ctx.accounts.user_token_account_0.mint == ctx.accounts.pool.token_mint_0,
        ctx.accounts.user_token_account_1.mint == ctx.accounts.pool.token_mint_1,
        ctx.accounts.user_token_account_0.owner == ctx.accounts.owner,
        ctx.accounts.user_token_account_1.owner == ctx.accounts.owner,
        ctx.nft_mint == ctx.position.nft_mint,
        ctx.nft_token_account.mint == ctx.position.nft_mint,
        ctx.nft_token_account.owner == ctx.accounts.owner,
        ctx.nft_token_account.amount == 1,
        -443_636 <= ctx.position.tick_lower <= 443_636,
        -443_636 <= ctx.position.tick_upper <= 443_636,
{
}

/// A collection pays, of each token, `(growth - checkpoint) * liquidity / 2^64` and what was
/// owed, together up to 64 bits, and reports just that. The owner gets it from the pool's
/// vault.
pub proof fn law_collecting_pays_fees_and_what_is_owed(
    before: CollectFees,
    after: CollectFees,
    r: Result<CollectReceipt, PositionError>,
    earned_0: int,
    earned_1: int,
)
    requires
        fees_collected(before, after, r),
        r is Ok,
        0 <= earned_0,
        0 <= earned_1,
        ({
            let pool = before.accounts.pool;
            let position = before.position;
            let growth_0 = if pool.fee_growth_global_0 >= position.fee_growth_checkpoint_0 {
                pool.fee_growth_global_0 - position.fee_growth_checkpoint_0
            } else {
                pool.fee_growth_global_0 - position.fee_growth_checkpoint_0
                    + 0x1_0000_0000_0000_0000_0000_0000_0000_0000int
            };
            let growth_1 = if pool.fee_growth_global_1 >= position.fee_growth_checkpoint_1 {
                pool.fee_growth_global_1 - position.fee_growth_checkpoint_1
            } else {
                pool.fee_growth_global_1 - position.fee_growth_checkpoint_1
                    + 0x1_0000_0000_0000_0000_0000_0000_0000_0000int
            };
            let liquidity = position.liquidity;
            &&& earned_0 * 0x1_0000_0000_0000_0000 <= growth_0 * liquidity < (earned_0 + 1)
                * 0x1_0000_0000_0000_0000
            &&& earned_1 * 0x1_0000_0000_0000_0000 <= growth_1 * liquidity < (earned_1 + 1)
                * 0x1_0000_0000_0000_0000
        }),
    ensures
        ({
            let receipt = r->Ok_0;
            let due_0 = earned_0 + before.position.tokens_owed_0;
            let due_1 = earned_1 + before.position.tokens_owed_1;
            let paid_0 = match receipt.payout_0 {
                Some(payout) => payout.amount as int,
                None => 0,
            };
            let paid_1 = match receipt.payout_1 {
                Some(payout) => payout.amount as int,
                None => 0,
            };
            &&& due_0 <= u64::MAX ==> paid_0 == due_0
            &&& due_1 <= u64::MAX ==> paid_1 == due_1
            &&& due_0 > u64::MAX ==> paid_0 == u64::MAX
            &&& due_1 > u64::MAX ==> paid_1 == u64::MAX
            &&& receipt.event.fees_0 == paid_0
            &&& receipt.event.fees_1 == paid_1
            &&& receipt.event.position == before.position_key
            &&& receipt.event.owner == before.accounts.owner
            &&& receipt.payout_0 matches Some(payout) ==> {
                &&& payout.vault_index == 0
                &&& payout.vault == before.accounts.token_vault_0.key
                &&& payout.destination == before.accounts.user_token_account_0.key
                &&& payout.amount > 0
            }
            &&& receipt.payout_1 matches Some(payout) ==> {
                &&& payout.vault_index == 1
                &&& payout.vault == before.accounts.token_vault_1.key
                &&& payout.destination == before.accounts.user_token_account_1.key
                &&& payout.amount > 0
            }
        }),
{
    let pool = before.accounts.pool;
    let position = before.position;
    lemma_fees_are(
        pool.fee_growth_global_0,
        position.fee_growth_checkpoint_0,
        position.liquidity,
        earned_0,
    );
    lemma_fees_are(
        pool.fee_growth_global_1,
        position.fee_growth_checkpoint_1,
        position.liquidity,
        earned_1,
    );
}

/// A collection moves both checkpoints to the pool's fee growth and leaves nothing owed.
/// Everything else of the position stays, and a refused collection changes nothing at all.
pub proof fn law_collecting_settles_the_position(
    before: CollectFees,
    after: CollectFees,
    r: Result<CollectReceipt, PositionError>,
)
    requires
        fees_collected(before, after, r),
    ensures
        r is Err ==> after == before,
        r is Ok ==> {
            let pool = before.accounts.pool;
            &&& after.position.fee_growth_checkpoint_0 == pool.fee_growth_global_0
            &&& after.position.fee_growth_checkpoint_1 == pool.fee_growth_global_1
            &&& after.position.tokens_owed_0 == 0
            &&& after.position.tokens_owed_1 == 0
        },
        after.position.pool == before.position.pool,
        after.position.owner == before.position.owner,
        after.position.nft_mint == before.position.nft_mint,
        after.position.tick_lower == before.position.tick_lower,
        after.position.tick_upper == before.position.tick_upper,
        after.position.liquidity == before.position.liquidity,
        after.position.bump == before.position.bump,
        after.position._padding == before.position._padding,
        after.accounts == before.accounts,
        after.position_key == before.position_key,
        after.nft_token_account == before.nft_token_account,
{
}

/// The holder of the NFT can always collect, with token accounts that fit; nobody else can.
pub proof fn law_collections_are_accepted(
    before: CollectFees,
    after: CollectFees,
    r: Result<CollectReceipt, PositionError>,
)
    requires
        fees_collected(before, after, r),
    ensures
        r is Ok <==> {
            let accounts = before.accounts;
            &&& accounts.pool.initialized
            &&& accounts.pool_owner == accounts.pool_core_program
            &&& accounts.token_vault_0.mint == accounts.pool.token_mint_0
            &&& accounts.token_vault_1.mint == accounts.pool.token_mint_1
            &&& accounts.user_token_account_0.mint == accounts.pool.token_mint_0
            &&& accounts.user_token_account_1.mint == accounts.pool.token_mint_1
            &&& accounts.user_token_account_0.owner == accounts.owner
            &&& accounts.user_token_account_1.owner == accounts.owner
            &&& before.nft_token_account.mint == before.position.nft_mint
            &&& before.nft_token_account.owner == accounts.owner
            &&& before.nft_token_account.amount == 1
        },
{
}

/// Closing pays as much as collecting the fees first and closing afterwards, where no sum
/// exceeds 64 bits.
pub proof fn law_closing_pays_as_much_as_collecting_first(
    closing: ClosePosition,
    closed: Result<CloseReceipt, PositionError>,
    collecting: CollectFees,
    settled: CollectFees,
    collected: Result<CollectReceipt, PositionError>,
    later: ClosePosition,
    closed_later: Result<CloseReceipt, PositionError>,
)
    requires
        position_closed(closing, 0, 0, closed),
        closed is Ok,
        fees_collected(collecting, settled, collected),
        collected is Ok,
        position_closed(later, 0, 0, closed_later),
        closed_later is Ok,
        collecting.position == closing.position,
        collecting.accounts.pool == closing.accounts.pool,
        later.position == settled.position,
        later.accounts.pool == closing.accounts.pool,
        closed->Ok_0.event.amount_0 + closed->Ok_0.event.fees_0 + closing.position.tokens_owed_0
            <= u64::MAX,
        closed->Ok_0.event.amount_1 + closed->Ok_0.event.fees_1 + closing.position.tokens_owed_1
            <= u64::MAX,
    ensures
        (match closed->Ok_0.payout_0 {
            Some(payout) => payout.amount as int,
            None => 0,
        }) == (match collected->Ok_0.payout_0 {
            Some(payout) => payout.amount as int,
            None => 0,
        }) + (match closed_later->Ok_0.payout_0 {
            Some(payout) => payout.amount as int,
            None => 0,
        }),
        (match closed->Ok_0.payout_1 {
            Some(payout) => payout.amount as int,
            None => 0,
        }) == (match collected->Ok_0.payout_1 {
            Some(payout) => payout.amount as int,
            None => 0,
        }) + (match closed_later->Ok_0.payout_1 {
            Some(payout) => payout.amount as int,
            None => 0,
        }),
{
    let pool = closing.accounts.pool;
    let position = closing.position;
    lemma_fees(pool.fee_growth_global_0, position.fee_growth_checkpoint_0, position.liquidity);
    lemma_fees(pool.fee_growth_global_1, position.fee_growth_checkpoint_1, position.liquidity);
    lemma_fees(pool.fee_growth_global_0, pool.fee_growth_global_0, position.liquidity);
    lemma_fees(pool.fee_growth_global_1, pool.fee_growth_global_1, position.liquidity);
}

/// A position's fees since a checkpoint are `(growth - checkpoint) * liquidity / 2^64`, rounded
/// down and clamped at 64 bits.
pub proof fn law_fees_owed_follow_growth(
    growth: u128,
    checkpoint: u128,
    liquidity: u128,
    earned: int,
)
    requires
        0 <= earned,
        ({
            let since = if growth >= checkpoint {
                growth - checkpoint
            } else {
                growth - checkpoint + 0x1_0000_0000_0000_0000_0000_0000_0000_0000int
            };
            earned * 0x1_0000_0000_0000_0000 <= since * liquidity < (earned + 1)
                * 0x1_0000_0000_0000_0000
        }),
    ensures
        earned <= u64::MAX ==> fees_since(growth, checkpoint, liquidity) == earned,
        earned > u64::MAX ==> fees_since(growth, checkpoint, liquidity) == u64::MAX,
{
    lemma_fees_are(growth, checkpoint, liquidity, earned);
}

proof fn lemma_fees(growth: u128, checkpoint: u128, liquidity: u128)
    ensures
        ({
            let since = if growth >= checkpoint {
                growth - checkpoint
            } else {
                growth - checkpoint + 0x1_0000_0000_0000_0000_0000_0000_0000_0000int
            };
            let fees = fees_since(growth, checkpoint, liquidity);
            &&& 0 <= fees <= u64::MAX
            &&& fees * Q64 <= since * liquidity
            &&& fees < u64::MAX ==> since * liquidity < (fees + 1) * Q64
            &&& growth == checkpoint ==> fees == 0
        }),
{
    let since = if growth >= checkpoint {
        growth - checkpoint
    } else {
        growth - checkpoint + 0x1_0000_0000_0000_0000_0000_0000_0000_0000int
    };
    assert(since * liquidity >= 0) by (nonlinear_arith)
        requires
            since >= 0,
    ;
    if growth == checkpoint {
        assert(since * liquidity == 0) by (nonlinear_arith)
            requires
                since == 0,
        ;
    }
}

proof fn lemma_fees_are(growth: u128, checkpoint: u128, liquidity: u128, earned: int)
    requires
        0 <= earned,
        ({
            let since = if growth >= checkpoint {
                growth - checkpoint
            } else {
                growth - checkpoint + 0x1_0000_0000_0000_0000_0000_0000_0000_0000int
            };
            earned * Q64 <= since * liquidity < (earned + 1) * Q64
        }),
    ensures
        fees_since(growth, checkpoint, liquidity) == if earned <= u64::MAX {
            earned
        } else {
            u64::MAX as int
        },
{
    lemma_fees(growth, checkpoint, liquidity);
}

/// What liquidity over a range of ticks stands for, multiplied out.
proof fn lemma_amounts(tick_lower: int, tick_upper: int, liquidity: u128)
    requires
        -443_636 <= tick_lower < tick_upper <= 443_636,
    ensures
        ({
            let lower = sqrt_price_at(tick_lower);
            let upper = sqrt_price_at(tick_upper);
            let amount_0 = amount_0_of(lower as u128, upper as u128, liquidity as int);
            let amount_1 = amount_1_of(lower as u128, upper as u128, liquidity as int);
            &&& 0 < lower < upper <= u128::MAX
            &&& 0 <= amount_0
            &&& 0 <= amount_1
            &&& amount_0 * lower * upper <= liquidity * (upper - lower) * Q64
            &&& liquidity * (upper - lower) * Q64 < (amount_0 + 1) * lower * upper
            &&& amount_1 * Q64 <= liquidity * (upper - lower) < (amount_1 + 1) * Q64
            &&& amount_0 > u64::MAX ==> u64::MAX * lower * upper <= liquidity * (upper - lower)
                * Q64
        }),
{
    let lower = sqrt_price_at(tick_lower);
    let upper = sqrt_price_at(tick_upper);
    lemma_price_in_range(tick_lower);
    lemma_price_in_range(tick_upper);
    law_price_rises_with_tick(tick_lower, tick_upper);
    let x = liquidity * (upper - lower);
    assert(x >= 0) by (nonlinear_arith)
        requires
            upper > lower,
            x == liquidity * (upper - lower),
    ;
    let d = lower * upper;
    assert(d > 0) by (nonlinear_arith)
        requires
            0 < lower < upper,
            d == lower * upper,
    ;
    lemma_quotient(x * Q64, d);
    lemma_quotient_at_least(x * Q64, d, 0);
    let amount_0 = (x * Q64) / d;
    assert(amount_0 * lower * upper <= x * Q64 < (amount_0 + 1) * lower * upper)
        by (nonlinear_arith)
        requires
            d * amount_0 <= x * Q64 < d * amount_0 + d,
            d == lower * upper,
    ;
    if amount_0 > u64::MAX {
        assert(u64::MAX * lower * upper <= amount_0 * lower * upper) by (nonlinear_arith)
            requires
                amount_0 > u64::MAX,
                0 < lower,
                0 < upper,
        ;
    }
}

/// The liquidity that amounts make up between two prices, multiplied out.
pub proof fn lemma_liquidity(lower: u128, upper: u128, amount_0: u64, amount_1: u64)
    requires
        0 < lower < upper,
    ensures
        ({
            let unit = (upper - lower) * Q64;
            let of_0 = liquidity_of_0(lower, upper, amount_0 as int);
            let of_1 = liquidity_of_1(lower, upper, amount_1 as int);
            &&& 0 <= of_0 <= u128::MAX
            &&& 0 <= of_1 <= u128::MAX
            &&& of_0 * unit <= amount_0 * lower * upper
            &&& of_0 < u128::MAX ==> amount_0 * lower * upper < (of_0 + 1) * unit
            &&& of_1 * (upper - lower) <= amount_1 * Q64
            &&& of_1 < u128::MAX ==> amount_1 * Q64 < (of_1 + 1) * (upper - lower)
            &&& forall|less: int|
                0 <= less <= of_0 ==> #[trigger] (less * unit) <= amount_0 * lower * upper
            &&& forall|less: int|
                0 <= less <= of_1 ==> #[trigger] (less * (upper - lower)) <= amount_1 * Q64
        }),
{
    let diff = upper - lower;
    let unit = diff * Q64;
    let x = amount_0 * lower * upper;
    assert(x >= 0) by (nonlinear_arith)
        requires
            x == amount_0 * lower * upper,
    ;
    lemma_quotient(x, unit);
    lemma_quotient(amount_1 * Q64, diff);
    lemma_quotient_at_least(x, unit, 0);
    lemma_quotient_at_least(amount_1 * Q64, diff, 0);
    let whole_0 = x / unit;
    let whole_1 = (amount_1 * Q64) / diff;
    let of_0 = liquidity_of_0(lower, upper, amount_0 as int);
    let of_1 = liquidity_of_1(lower, upper, amount_1 as int);
    assert(x < (whole_0 + 1) * unit) by (nonlinear_arith)
        requires
            x < unit * whole_0 + unit,
    ;
    assert(amount_1 * Q64 < (whole_1 + 1) * diff) by (nonlinear_arith)
        requires
            amount_1 * Q64 < diff * whole_1 + diff,
    ;
    assert forall|less: int| 0 <= less <= of_0 implies #[trigger] (less * unit) <= x by {
        assert(less * unit <= x) by (nonlinear_arith)
            requires
                less <= whole_0,
                unit * whole_0 <= x,
                unit > 0,
        ;
    }
    assert forall|less: int| 0 <= less <= of_1 implies #[trigger] (less * diff) <= amount_1
        * Q64 by {
        assert(less * diff <= amount_1 * Q64) by (nonlinear_arith)
            requires
                less <= whole_1,
                diff * whole_1 <= amount_1 * Q64,
                diff > 0,
        ;
    }
}

/// Amounts make up some liquidity just where they pay for one unit of it.
proof fn lemma_liquidity_is_positive(lower: u128, upper: u128, amount_0: u64, amount_1: u64)
    requires
        0 < lower < upper,
    ensures
        (upper - lower) * Q64 <= amount_0 * lower * upper <==> liquidity_of_0(
            lower,
            upper,
            amount_0 as int,
        ) > 0,
        upper - lower <= amount_1 * Q64 <==> liquidity_of_1(lower, upper, amount_1 as int) > 0,
{
    let diff = upper - lower;
    let x = amount_0 * lower * upper;
    if diff * Q64 <= x {
        lemma_quotient_at_least(x, diff * Q64, 1);
    } else {
        lemma_quotient_at_most(x, diff * Q64, 0);
    }
    if diff <= amount_1 * Q64 {
        lemma_quotient_at_least(amount_1 * Q64, diff, 1);
    } else {
        lemma_quotient_at_most(amount_1 * Q64, diff, 0);
    }
}

} // verus!
