//! The swap engine: the pool's state and the instructions on it.

use vstd::prelude::*;

use crate::accounts::{belongs_to, is_token_account_of, TokenAccount, TokenTransfer};
use crate::arith::{clamp_u128, sat};
use crate::pool_core::segments::{limit_beyond, run_walk, walk, SwapState};
use crate::pool_core::state::{Pool, PoolSeeds, SwapEvent};
use crate::pool_core::tick_loop::apply_liquidity_delta;
use crate::pubkey::{lex_less, Pubkey};

pub mod instruction_laws;
pub mod laws;
pub mod math_laws;
pub mod segments;
pub mod state;
pub mod swap_instruction_laws;
pub mod swap_laws;
pub mod swap_lemmas;
pub mod swap_math;
pub mod tick_loop;

verus! {

/// How many tick boundaries one swap may cross.
pub const MAX_TICK_CROSSINGS: u32 = 10;

#[derive(Debug, Clone, Copy, PartialEq, Eq, Structural)]
pub enum PoolError {
    /// Initial sqrt price must be positive.
    InvalidSqrtPrice,
    /// Fee rate must be between 1 and 999999.
    InvalidFeeRate,
    /// The first mint's address must come before the second's.
    InvalidTokenOrder,
    /// Pool is not initialized.
    PoolNotInitialized,
    /// Swap amount must be greater than zero.
    ZeroAmount,
    /// Pool has no active liquidity.
    InsufficientLiquidity,
    /// Price limit is in the wrong direction for this swap.
    InvalidPriceLimit,
    /// Swap produced zero output.
    ZeroOutput,
    /// Output below minimum.
    SlippageExceeded,
    /// Token account mint or owner mismatch.
    InvalidTokenAccount,
    /// Tick array data could not be read.
    InvalidTickArray,
    /// Token amount overflows 64 bits.
    AmountOverflow,
}

/// Accounts of `initialize_pool`: the fresh pool with the bump of its address, and the
/// addresses it records.
#[derive(Clone, Copy, Debug, PartialEq, Eq)]
pub struct InitializePool {
    pub pool: Pool,
    pub pool_bump: u8,
    pub token_mint_0: Pubkey,
    pub token_mint_1: Pubkey,
    pub token_vault_0: Pubkey,
    pub token_vault_1: Pubkey,
    pub tick_manager_program: Pubkey,
}

/// Accounts of `modify_liquidity`.
#[derive(Clone, Copy, Debug, PartialEq, Eq)]
pub struct ModifyLiquidity {
    pub pool: Pool,
}

/// Accounts of `transfer_from_vault`.
#[derive(Clone, Copy, Debug, PartialEq, Eq)]
pub struct TransferFromVault {
    pub pool: Pool,
    pub pool_key: Pubkey,
    pub vault: TokenAccount,
    pub destination: TokenAccount,
}

/// Accounts of `swap`.
#[derive(Clone, Copy, Debug, PartialEq, Eq)]
pub struct Swap {
    pub pool: Pool,
    pub pool_key: Pubkey,
    pub token_vault_0: TokenAccount,
    pub token_vault_1: TokenAccount,
    pub user_token_account_0: TokenAccount,
    pub user_token_account_1: TokenAccount,
    pub user: Pubkey,
}

/// Why `initialize_pool` fails, if it does.
pub open spec fn initialize_pool_failure(
    ctx: InitializePool,
    initial_sqrt_price: u128,
    fee_rate: u32,
) -> Option<PoolError> {
    if initial_sqrt_price == 0 {
        Some(PoolError::InvalidSqrtPrice)
    } else if fee_rate == 0 || fee_rate >= 1_000_000 {
        Some(PoolError::InvalidFeeRate)
    } else if !lex_less(ctx.token_mint_0.bytes@, ctx.token_mint_1.bytes@) {
        Some(PoolError::InvalidTokenOrder)
    } else {
        None
    }
}

/// The pool that `initialize_pool` sets up.
pub open spec fn initialized_pool(
    ctx: InitializePool,
    initial_sqrt_price: u128,
    fee_rate: u32,
    initial_tick: i32,
) -> Pool {
    Pool {
        token_mint_0: ctx.token_mint_0,
        token_mint_1: ctx.token_mint_1,
        token_vault_0: ctx.token_vault_0,
        token_vault_1: ctx.token_vault_1,
        tick_manager_program: ctx.tick_manager_program,
        sqrt_price: initial_sqrt_price,
        tick_current: initial_tick,
        liquidity: 0,
        fee_rate,
        fee_growth_global_0: 0,
        fee_growth_global_1: 0,
        protocol_fee_0: 0,
        protocol_fee_1: 0,
        bump: ctx.pool_bump,
        initialized: true,
        ..ctx.pool
    }
}

/// What `initialize_pool` does: it fails and leaves its accounts alone, or it sets up the
/// pool.
pub open spec fn pool_set_up(
    before: InitializePool,
    initial_sqrt_price: u128,
    fee_rate: u32,
    initial_tick: i32,
    after: InitializePool,
    r: Result<(), PoolError>,
) -> bool {
    match initialize_pool_failure(before, initial_sqrt_price, fee_rate) {
        Some(e) => r == Err::<(), PoolError>(e) && after == before,
        None => r is Ok && after == (InitializePool {
            pool: initialized_pool(before, initial_sqrt_price, fee_rate, initial_tick),
            ..before
        }),
    }
}

/// Sets up a pool for a sorted pair of mints at a price, a fee rate and a tick.
pub fn initialize_pool(
    ctx: &mut InitializePool,
    initial_sqrt_price: u128,
    fee_rate: u32,
    initial_tick: i32,
) -> (r: Result<(), PoolError>)
    ensures
        pool_set_up(*old(ctx), initial_sqrt_price, fee_rate, initial_tick, *final(ctx), r),
{
    if initial_sqrt_price == 0 {
        return Err(PoolError::InvalidSqrtPrice);
    }
    if !(fee_rate > 0 && fee_rate < 1_000_000) {
        return Err(PoolError::InvalidFeeRate);
    }
    if !ctx.token_mint_0.less_than(&ctx.token_mint_1) {
        return Err(PoolError::InvalidTokenOrder);
    }
    ctx.pool.token_mint_0 = ctx.token_mint_0;
    ctx.pool.token_mint_1 = ctx.token_mint_1;
    ctx.pool.token_vault_0 = ctx.token_vault_0;
    ctx.pool.token_vault_1 = ctx.token_vault_1;
    ctx.pool.tick_manager_program = ctx.tick_manager_program;
    ctx.pool.sqrt_price = initial_sqrt_price;
    ctx.pool.tick_current = initial_tick;
    ctx.pool.liquidity = 0;
    ctx.pool.fee_rate = fee_rate;
    ctx.pool.fee_growth_global_0 = 0;
    ctx.pool.fee_growth_global_1 = 0;
    ctx.pool.protocol_fee_0 = 0;
    ctx.pool.protocol_fee_1 = 0;
    ctx.pool.bump = ctx.pool_bump;
    ctx.pool.initialized = true;
    Ok(())
}

/// The pool's current tick lies in the range, whose upper end is not part of it.
pub open spec fn in_range(pool: Pool, tick_lower: i32, tick_upper: i32) -> bool {
    tick_lower <= pool.tick_current < tick_upper
}

/// The pool after a position over the range has changed its liquidity by `delta`.
pub open spec fn pool_after_change(
    pool: Pool,
    delta: int,
    tick_lower: i32,
    tick_upper: i32,
) -> Pool {
    if in_range(pool, tick_lower, tick_upper) {
        Pool { liquidity: clamp_u128(pool.liquidity + delta) as u128, ..pool }
    } else {
        pool
    }
}

/// What `modify_liquidity` does: it fails on a pool that is not set up, and else changes the
/// active liquidity.
pub open spec fn liquidity_modified(
    before: ModifyLiquidity,
    liquidity_delta: i128,
    tick_lower: i32,
    tick_upper: i32,
    after: ModifyLiquidity,
    r: Result<(), PoolError>,
) -> bool {
    &&& !before.pool.initialized ==> r == Err::<(), PoolError>(PoolError::PoolNotInitialized)
        && after == before
    &&& before.pool.initialized ==> r is Ok && after.pool == pool_after_change(
        before.pool,
        liquidity_delta as int,
        tick_lower,
        tick_upper,
    )
}

/// Changes the active liquidity by that of a position, where the position's range holds the
/// current tick.
pub fn modify_liquidity(
    ctx: &mut ModifyLiquidity,
    liquidity_delta: i128,
    tick_lower: i32,
    tick_upper: i32,
) -> (r: Result<(), PoolError>)
    ensures
        liquidity_modified(*old(ctx), liquidity_delta, tick_lower, tick_upper, *final(ctx), r),
{
    if !ctx.pool.initialized {
        return Err(PoolError::PoolNotInitialized);
    }
    if ctx.pool.tick_current >= tick_lower && ctx.pool.tick_current < tick_upper {
        ctx.pool.liquidity = apply_liquidity_delta(ctx.pool.liquidity, liquidity_delta);
    }
    Ok(())
}

/// A transfer out of a vault, which the pool signs with its seeds.
#[derive(Clone, Copy, Debug, PartialEq, Eq)]
pub struct VaultTransfer {
    pub transfer: TokenTransfer,
    pub seeds: PoolSeeds,
}

/// The mint whose tokens a vault has to hold: index 0 stands for the first, any other for
/// the second.
pub open spec fn mint_of_vault(pool: Pool, vault_index: u8) -> Pubkey {
    if vault_index == 0 {
        pool.token_mint_0
    } else {
        pool.token_mint_1
    }
}

/// What `transfer_from_vault` does: it orders nothing for an amount of zero, fails on a vault
/// of another mint, and else orders the transfer.
pub open spec fn vault_transfer_ordered(
    ctx: TransferFromVault,
    vault_index: u8,
    amount: u64,
    r: Result<Option<VaultTransfer>, PoolError>,
) -> bool {
    &&& amount == 0 ==> r == Ok::<Option<VaultTransfer>, PoolError>(None)
    &&& amount > 0 && ctx.vault.mint != mint_of_vault(ctx.pool, vault_index) ==> r == Err::<
        Option<VaultTransfer>,
        PoolError,
    >(PoolError::InvalidTokenAccount)
    &&& amount > 0 && ctx.vault.mint == mint_of_vault(ctx.pool, vault_index) ==> {
        &&& r matches Ok(Some(ordered))
        &&& ordered.transfer == (TokenTransfer {
            from: ctx.vault.key,
            to: ctx.destination.key,
            authority: ctx.pool_key,
            amount,
        })
        &&& ctx.pool.has_seeds(ordered.seeds)
    }
}

/// Orders `amount` tokens out of a vault, signed by the pool. Nothing is ordered for an
/// amount of zero.
pub fn transfer_from_vault(ctx: &TransferFromVault, vault_index: u8, amount: u64) -> (r: Result<
    Option<VaultTransfer>,
    PoolError,
>)
    ensures
        vault_transfer_ordered(*ctx, vault_index, amount, r),
{
    if amount == 0 {
        return Ok(None);
    }
    let mint: Pubkey = if vault_index == 0 {
        ctx.pool.token_mint_0
    } else {
        ctx.pool.token_mint_1
    };
    if ctx.vault.mint != mint {
        return Err(PoolError::InvalidTokenAccount);
    }
    Ok(
        Some(
            VaultTransfer {
                transfer: TokenTransfer {
                    from: ctx.vault.key,
                    to: ctx.destination.key,
                    authority: ctx.pool_key,
                    amount,
                },
                seeds: ctx.pool.signer_seeds(),
            },
        ),
    )
}

/// What a completed swap orders and reports: the user's payment into one vault, the payout
/// from the other with the seeds that sign for it, and the event.
#[derive(Clone, Copy, Debug, PartialEq, Eq)]
pub struct SwapReceipt {
    pub payment: TokenTransfer,
    pub payout: VaultTransfer,
    pub event: SwapEvent,
}

/// Both of the user's token accounts are of the pool's mints and belong to the user.
pub open spec fn user_accounts_match(ctx: Swap) -> bool {
    &&& is_token_account_of(ctx.user_token_account_0, ctx.pool.token_mint_0, ctx.user)
    &&& is_token_account_of(ctx.user_token_account_1, ctx.pool.token_mint_1, ctx.user)
}

/// Why a swap is refused before it computes anything, if it is.
pub open spec fn swap_refusal(
    ctx: Swap,
    amount: u64,
    zero_for_one: bool,
    sqrt_price_limit: u128,
) -> Option<PoolError> {
    if !user_accounts_match(ctx) {
        Some(PoolError::InvalidTokenAccount)
    } else if !ctx.pool.initialized {
        Some(PoolError::PoolNotInitialized)
    } else if amount == 0 {
        Some(PoolError::ZeroAmount)
    } else if ctx.pool.liquidity == 0 {
        Some(PoolError::InsufficientLiquidity)
    } else if !limit_beyond(ctx.pool.sqrt_price, sqrt_price_limit, zero_for_one) {
        Some(PoolError::InvalidPriceLimit)
    } else {
        None
    }
}

/// Where a swap of `amount` starts from.
pub open spec fn swap_start(pool: Pool, amount: u64) -> SwapState {
    SwapState {
        sqrt_price: pool.sqrt_price,
        tick: pool.tick_current,
        liquidity: pool.liquidity,
        amount_remaining: amount as u128,
        amount_in: 0,
        amount_out: 0,
        fee: 0,
        fee_growth: 0,
    }
}

/// Where a swap of `amount` gets to, segment by segment. Nowhere, where the tick arrays
/// cannot be read.
pub open spec fn swap_outcome(
    pool: Pool,
    accounts: Seq<Vec<u8>>,
    amount: u64,
    zero_for_one: bool,
    sqrt_price_limit: u128,
) -> Option<SwapState> {
    walk(
        swap_start(pool, amount),
        accounts,
        zero_for_one,
        sqrt_price_limit,
        pool.fee_rate as int,
        MAX_TICK_CROSSINGS as nat,
    )
}

/// Why `swap` fails, if it does.
pub open spec fn swap_failure(
    ctx: Swap,
    accounts: Seq<Vec<u8>>,
    amount: u64,
    zero_for_one: bool,
    sqrt_price_limit: u128,
    amount_out_minimum: u64,
) -> Option<PoolError> {
    match swap_refusal(ctx, amount, zero_for_one, sqrt_price_limit) {
        Some(e) => Some(e),
        None => match swap_outcome(ctx.pool, accounts, amount, zero_for_one, sqrt_price_limit) {
            None => Some(PoolError::InvalidTickArray),
            Some(outcome) => if outcome.amount_out == 0 {
                Some(PoolError::ZeroOutput)
            } else if outcome.amount_out < amount_out_minimum {
                Some(PoolError::SlippageExceeded)
            } else if outcome.amount_in > u64::MAX || outcome.amount_out > u64::MAX {
                Some(PoolError::AmountOverflow)
            } else {
                None
            },
        },
    }
}

/// A 64-bit counter after an increase, clamped at the top.
pub open spec fn counter_after(counter: u64, increase: int) -> u64 {
    if counter + increase > u64::MAX {
        u64::MAX
    } else {
        (counter + increase) as u64
    }
}

/// The pool after a swap: the price, the tick and the active liquidity have moved, the
/// input token's fee growth has risen, and a tenth of the fee is the protocol's.
pub open spec fn pool_after_swap(pool: Pool, zero_for_one: bool, outcome: SwapState) -> Pool {
    let share = outcome.fee as int / 10;
    let moved = Pool {
        sqrt_price: outcome.sqrt_price,
        tick_current: outcome.tick,
        liquidity: outcome.liquidity,
        ..pool
    };
    if zero_for_one {
        Pool {
            fee_growth_global_0: sat(pool.fee_growth_global_0 + outcome.fee_growth) as u128,
            protocol_fee_0: counter_after(pool.protocol_fee_0, share),
            ..moved
        }
    } else {
        Pool {
            fee_growth_global_1: sat(pool.fee_growth_global_1 + outcome.fee_growth) as u128,
            protocol_fee_1: counter_after(pool.protocol_fee_1, share),
            ..moved
        }
    }
}

/// The receipt of a swap: the user pays the net input into the vault of the input
/// token and is paid the output from the other vault.
pub open spec fn is_swap_receipt(
    ctx: Swap,
    zero_for_one: bool,
    outcome: SwapState,
    receipt: SwapReceipt,
) -> bool {
    &&& receipt.payment == (TokenTransfer {
        from: if zero_for_one {
            ctx.user_token_account_0.key
        } else {
            ctx.user_token_account_1.key
        },
        to: if zero_for_one {
            ctx.token_vault_0.key
        } else {
            ctx.token_vault_1.key
        },
        authority: ctx.user,
        amount: outcome.amount_in as u64,
    })
    &&& receipt.payout.transfer == (TokenTransfer {
        from: if zero_for_one {
            ctx.token_vault_1.key
        } else {
            ctx.token_vault_0.key
        },
        to: if zero_for_one {
            ctx.user_token_account_1.key
        } else {
            ctx.user_token_account_0.key
        },
        authority: ctx.pool_key,
        amount: outcome.amount_out as u64,
    })
    &&& ctx.pool.has_seeds(receipt.payout.seeds)
    &&& receipt.event == (SwapEvent {
        pool: ctx.pool_key,
        zero_for_one,
        amount_in: outcome.amount_in as u64,
        amount_out: outcome.amount_out as u64,
        sqrt_price_before: ctx.pool.sqrt_price,
        sqrt_price_after: outcome.sqrt_price,
        tick_before: ctx.pool.tick_current,
        tick_after: outcome.tick,
        fee_amount: outcome.fee as u64,
    })
}

/// What `swap` does: it fails and leaves its accounts alone, or it moves the pool and returns
/// its orders.
pub open spec fn swapped(
    before: Swap,
    accounts: Seq<Vec<u8>>,
    amount: u64,
    zero_for_one: bool,
    sqrt_price_limit: u128,
    amount_out_minimum: u64,
    after: Swap,
    r: Result<SwapReceipt, PoolError>,
) -> bool {
    match swap_failure(
        before,
        accounts,
        amount,
        zero_for_one,
        sqrt_price_limit,
        amount_out_minimum,
    ) {
        Some(e) => r == Err::<SwapReceipt, PoolError>(e) && after == before,
        None => {
            let outcome = swap_outcome(
                before.pool,
                accounts,
                amount,
                zero_for_one,
                sqrt_price_limit,
            )->0;
            &&& r is Ok
            &&& is_swap_receipt(before, zero_for_one, outcome, r->Ok_0)
            &&& after == (Swap {
                pool: pool_after_swap(before.pool, zero_for_one, outcome),
                ..before
            })
        },
    }
}

/// Swaps `amount` of one token for the other: token 0 for token 1 (`zero_for_one`) moves the
/// price down, token 1 for token 0 moves it up, where the pool's tick is that of its price.
/// `remaining_accounts` holds the data of the tick arrays around the current price. The swap
/// heads for the next tick boundary in them, and for `sqrt_price_limit` where there is none;
/// having crossed a boundary at the limit or past it, it ends. Returns the transfers to carry
/// out.
pub fn swap(
    ctx: &mut Swap,
    remaining_accounts: &[Vec<u8>],
    amount: u64,
    zero_for_one: bool,
    sqrt_price_limit: u128,
    amount_out_minimum: u64,
) -> (r: Result<SwapReceipt, PoolError>)
    ensures
        swapped(
            *old(ctx),
            remaining_accounts@,
            amount,
            zero_for_one,
            sqrt_price_limit,
            amount_out_minimum,
            *final(ctx),
            r,
        ),
{
    let pool: Pool = ctx.pool;
    if !belongs_to(&ctx.user_token_account_0, &pool.token_mint_0, &ctx.user) || !belongs_to(
        &ctx.user_token_account_1,
        &pool.token_mint_1,
        &ctx.user,
    ) {
        return Err(PoolError::InvalidTokenAccount);
    }
    if !pool.initialized {
        return Err(PoolError::PoolNotInitialized);
    }
    if amount == 0 {
        return Err(PoolError::ZeroAmount);
    }
    if pool.liquidity == 0 {
        return Err(PoolError::InsufficientLiquidity);
    }
    if zero_for_one {
        if sqrt_price_limit >= pool.sqrt_price {
            return Err(PoolError::InvalidPriceLimit);
        }
    } else {
        if sqrt_price_limit <= pool.sqrt_price {
            return Err(PoolError::InvalidPriceLimit);
        }
    }

    let end: SwapState = match run_walk(
        SwapState {
            sqrt_price: pool.sqrt_price,
            tick: pool.tick_current,
            liquidity: pool.liquidity,
            amount_remaining: amount as u128,
            amount_in: 0,
            amount_out: 0,
            fee: 0,
            fee_growth: 0,
        },
        remaining_accounts,
        zero_for_one,
        sqrt_price_limit,
        pool.fee_rate as u128,
    ) {
        Ok(end) => end,
        Err(e) => {
            return Err(e);
        },
    };
    if end.amount_out == 0 {
        return Err(PoolError::ZeroOutput);
    }
    if end.amount_out < amount_out_minimum as u128 {
        return Err(PoolError::SlippageExceeded);
    }
    if end.amount_in > u64::MAX as u128 || end.amount_out > u64::MAX as u128 {
        return Err(PoolError::AmountOverflow);
    }
    let amount_in: u64 = end.amount_in as u64;
    let amount_out: u64 = end.amount_out as u64;

    ctx.pool.sqrt_price = end.sqrt_price;
    ctx.pool.tick_current = end.tick;
    ctx.pool.liquidity = end.liquidity;
    let protocol_share: u64 = (end.fee / 10) as u64;
    if zero_for_one {
        ctx.pool.fee_growth_global_0 = pool.fee_growth_global_0.saturating_add(end.fee_growth);
        ctx.pool.protocol_fee_0 = pool.protocol_fee_0.saturating_add(protocol_share);
    } else {
        ctx.pool.fee_growth_global_1 = pool.fee_growth_global_1.saturating_add(end.fee_growth);
        ctx.pool.protocol_fee_1 = pool.protocol_fee_1.saturating_add(protocol_share);
    }

    let (user_in, vault_in, vault_out, user_out) = if zero_for_one {
        (
            ctx.user_token_account_0.key,
            ctx.token_vault_0.key,
            ctx.token_vault_1.key,
            ctx.user_token_account_1.key,
        )
    } else {
        (
            ctx.user_token_account_1.key,
            ctx.token_vault_1.key,
            ctx.token_vault_0.key,
            ctx.user_token_account_0.key,
        )
    };
    Ok(
        SwapReceipt {
            payment: TokenTransfer {
                from: user_in,
                to: vault_in,
                authority: ctx.user,
                amount: amount_in,
            },
            payout: VaultTransfer {
                transfer: TokenTransfer {
                    from: vault_out,
                    to: user_out,
                    authority: ctx.pool_key,
                    amount: amount_out,
                },
                seeds: pool.signer_seeds(),
            },
            event: SwapEvent {
                pool: ctx.pool_key,
                zero_for_one,
                amount_in,
                amount_out,
                sqrt_price_before: pool.sqrt_price,
                sqrt_price_after: end.sqrt_price,
                tick_before: pool.tick_current,
                tick_after: end.tick,
                fee_amount: end.fee as u64,
            },
        },
    )
}

} // verus!
