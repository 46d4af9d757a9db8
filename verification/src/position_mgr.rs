//! Ownership of liquidity: positions, their fees and their receipts.
//!
//! The instructions here write the position. What they need from the other two programs and
//! from the token program they return as orders, to be carried out in the order of the
//! receipt's fields. If one of them fails, the whole instruction is undone.

use vstd::prelude::*;

use crate::accounts::{belongs_to, is_token_account_of, TokenAccount, TokenTransfer};
use crate::arith::two_pow_128;
use crate::pool_core::state::Pool;
use crate::position_mgr::liquidity_math::{
    get_amounts_for_liquidity, get_liquidity_for_amounts, liquidity_of_deposit,
    token_0_of_position, token_1_of_position,
};
use crate::position_mgr::state::{
    fees_since, FeesCollectedEvent, Position, PositionClosedEvent, PositionOpenedEvent,
};
use crate::pubkey::Pubkey;
use crate::tick_manager::math::{
    array_start, array_start_to_bitmap_index, bitmap_word_and_bit, tick_in_range, tick_on_grid,
    tick_to_array_start_tick, tick_to_sqrt_price_q64, MAX_TICK, MIN_ARRAY_START, MIN_TICK,
    TICK_SPACING,
};
use crate::tick_manager::price::sqrt_price_at;
use crate::tick_manager::word_of_tick;

pub mod instruction_laws;
pub mod laws;
pub mod math_laws;
pub mod ledger;
pub mod liquidity_laws;
pub mod liquidity_math;
pub mod state;
pub mod swap_ledger;

verus! {

#[derive(Debug, Clone, Copy, PartialEq, Eq, Structural)]
pub enum PositionError {
    /// The lower tick must be below the upper one, and both multiples of the spacing.
    InvalidTickRange,
    /// Computed liquidity is zero.
    ZeroLiquidity,
    /// Token amounts below minimum.
    SlippageExceeded,
    /// Token account mint or owner mismatch.
    InvalidTokenAccount,
    /// NFT mint or balance mismatch.
    InvalidNft,
    /// Signer does not own this position: neither its NFT nor a record says so.
    Unauthorized,
    /// Pool is not initialized.
    PoolNotInitialized,
    /// The pool's account does not belong to the pool program.
    InvalidPool,
}

/// Accounts that every instruction on a position reads: the pool with its address and the
/// program that its account belongs to, both vaults, both of the owner's token accounts,
/// and the signing owner.
#[derive(Clone, Copy, Debug, PartialEq, Eq)]
pub struct PoolAccounts {
    pub pool: Pool,
    pub pool_key: Pubkey,
    pub pool_owner: Pubkey,
    pub pool_core_program: Pubkey,
    pub token_vault_0: TokenAccount,
    pub token_vault_1: TokenAccount,
    pub user_token_account_0: TokenAccount,
    pub user_token_account_1: TokenAccount,
    pub owner: Pubkey,
}

/// Accounts of `open_position`.
#[derive(Clone, Copy, Debug, PartialEq, Eq)]
pub struct OpenPosition {
    pub position: Position,
    pub position_key: Pubkey,
    pub position_bump: u8,
    pub accounts: PoolAccounts,
    pub nft_mint: Pubkey,
    pub nft_token_account: Pubkey,
}

/// Accounts of `close_position`.
#[derive(Clone, Copy, Debug, PartialEq, Eq)]
pub struct ClosePosition {
    pub position: Position,
    pub position_key: Pubkey,
    pub accounts: PoolAccounts,
    pub nft_mint: Pubkey,
    pub nft_token_account: TokenAccount,
}

/// Accounts of `collect_fees`.
#[derive(Clone, Copy, Debug, PartialEq, Eq)]
pub struct CollectFees {
    pub position: Position,
    pub position_key: Pubkey,
    pub accounts: PoolAccounts,
    pub nft_token_account: TokenAccount,
}

/// Bitmap word of the tick array that holds a tick.
pub fn bitmap_word_index_for_tick(tick_index: i32) -> (r: i32)
    requires
        array_start(tick_index as int) >= i32::MIN,
        array_start(tick_index as int) - MIN_ARRAY_START <= i32::MAX,
    ensures
        r == word_of_tick(tick_index as int),
{
    let array_start: i32 = tick_to_array_start_tick(tick_index);
    let array_index: i32 = array_start_to_bitmap_index(array_start);
    let (word_index, _) = bitmap_word_and_bit(array_index);
    word_index
}

/// The signed number that a position's liquidity is passed on as: from `2^127` on it wraps
/// around.
pub open spec fn signed_liquidity(liquidity: u128) -> int {
    if liquidity <= i128::MAX {
        liquidity as int
    } else {
        liquidity - two_pow_128()
    }
}

fn to_signed(liquidity: u128) -> (r: i128)
    ensures
        r == signed_liquidity(liquidity),
{
    if liquidity <= i128::MAX as u128 {
        liquidity as i128
    } else {
        (liquidity - 0x8000_0000_0000_0000_0000_0000_0000_0000) as i128 + i128::MIN
    }
}

/// Why the accounts are refused, if they are. A vault only has to be of the right mint, the
/// user's token accounts also have to belong to the user.
pub open spec fn accounts_failure(accounts: PoolAccounts) -> Option<PositionError> {
    let pool = accounts.pool;
    if !pool.initialized {
        Some(PositionError::PoolNotInitialized)
    } else if accounts.pool_owner != accounts.pool_core_program {
        Some(PositionError::InvalidPool)
    } else if accounts.token_vault_0.mint != pool.token_mint_0 || accounts.token_vault_1.mint
        != pool.token_mint_1 {
        Some(PositionError::InvalidTokenAccount)
    } else {
        None
    }
}

/// Both of the user's token accounts are of the pool's mints and belong to the owner.
pub open spec fn user_accounts_match(accounts: PoolAccounts) -> bool {
    &&& is_token_account_of(
        accounts.user_token_account_0,
        accounts.pool.token_mint_0,
        accounts.owner,
    )
    &&& is_token_account_of(
        accounts.user_token_account_1,
        accounts.pool.token_mint_1,
        accounts.owner,
    )
}

fn check_accounts(accounts: &PoolAccounts) -> (r: Result<(), PositionError>)
    ensures
        match accounts_failure(*accounts) {
            Some(e) => r == Err::<(), PositionError>(e),
            None => r is Ok,
        },
{
    if !accounts.pool.initialized {
        return Err(PositionError::PoolNotInitialized);
    }
    if accounts.pool_owner != accounts.pool_core_program {
        return Err(PositionError::InvalidPool);
    }
    if accounts.token_vault_0.mint != accounts.pool.token_mint_0 || accounts.token_vault_1.mint
        != accounts.pool.token_mint_1 {
        return Err(PositionError::InvalidTokenAccount);
    }
    Ok(())
}

fn check_user_accounts(accounts: &PoolAccounts) -> (r: bool)
    ensures
        r == user_accounts_match(*accounts),
{
    belongs_to(
        &accounts.user_token_account_0,
        &accounts.pool.token_mint_0,
        &accounts.owner,
    ) && belongs_to(
        &accounts.user_token_account_1,
        &accounts.pool.token_mint_1,
        &accounts.owner,
    )
}

/// An order to the tick program: a position's liquidity changes at one of its ticks.
#[derive(Clone, Copy, Debug, PartialEq, Eq)]
pub struct TickOrder {
    pub tick_index: i32,
    pub bitmap_word_index: i32,
    pub liquidity_delta: i128,
    pub is_upper_tick: bool,
    pub fee_growth_global_0: u128,
    pub fee_growth_global_1: u128,
}

/// An order to the pool program: a position over this range changes its liquidity.
#[derive(Clone, Copy, Debug, PartialEq, Eq)]
pub struct LiquidityOrder {
    pub liquidity_delta: i128,
    pub tick_lower: i32,
    pub tick_upper: i32,
}

/// An order to the pool program: tokens leave a vault.
#[derive(Clone, Copy, Debug, PartialEq, Eq)]
pub struct PayoutOrder {
    pub vault_index: u8,
    pub vault: Pubkey,
    pub destination: Pubkey,
    pub amount: u64,
}

/// The seeds that a position signs with: a label, its NFT's mint and the bump.
#[derive(Clone, Copy, Debug, PartialEq, Eq)]
pub struct PositionSeeds {
    pub label: [u8; 8],
    pub nft_mint: Pubkey,
    pub bump: [u8; 1],
}

/// An order to the token program: mint an NFT, signed by the position.
#[derive(Clone, Copy, Debug, PartialEq, Eq)]
pub struct NftMintOrder {
    pub mint: Pubkey,
    pub to: Pubkey,
    pub authority: Pubkey,
    pub amount: u64,
    pub seeds: PositionSeeds,
}

/// An order to the token program: burn an NFT, signed by its owner.
#[derive(Clone, Copy, Debug, PartialEq, Eq)]
pub struct NftBurnOrder {
    pub mint: Pubkey,
    pub from: Pubkey,
    pub authority: Pubkey,
    pub amount: u64,
}

/// The orders of an opened position, and the event.
#[derive(Clone, Copy, Debug, PartialEq, Eq)]
pub struct OpenReceipt {
    pub lower_tick: TickOrder,
    pub upper_tick: TickOrder,
    pub deposit_0: Option<TokenTransfer>,
    pub deposit_1: Option<TokenTransfer>,
    pub liquidity: LiquidityOrder,
    pub nft: NftMintOrder,
    pub event: PositionOpenedEvent,
}

/// The order for a tick of a range at the pool's present fee growth.
pub open spec fn tick_order(
    pool: Pool,
    tick_index: i32,
    liquidity_delta: int,
    is_upper_tick: bool,
) -> TickOrder {
    TickOrder {
        tick_index,
        bitmap_word_index: word_of_tick(tick_index as int) as i32,
        liquidity_delta: liquidity_delta as i128,
        is_upper_tick,
        fee_growth_global_0: pool.fee_growth_global_0,
        fee_growth_global_1: pool.fee_growth_global_1,
    }
}

/// A transfer from the owner into a vault, unless there is nothing to transfer.
pub open spec fn deposit_order(from: Pubkey, to: Pubkey, authority: Pubkey, amount: u64) -> Option<
    TokenTransfer,
> {
    if amount > 0 {
        Some(TokenTransfer { from, to, authority, amount })
    } else {
        None
    }
}

fn order_tick(pool: &Pool, tick_index: i32, liquidity_delta: i128, is_upper_tick: bool) -> (r:
    TickOrder)
    requires
        tick_in_range(tick_index as int),
    ensures
        r == tick_order(*pool, tick_index, liquidity_delta as int, is_upper_tick),
{
    TickOrder {
        tick_index,
        bitmap_word_index: bitmap_word_index_for_tick(tick_index),
        liquidity_delta,
        is_upper_tick,
        fee_growth_global_0: pool.fee_growth_global_0,
        fee_growth_global_1: pool.fee_growth_global_1,
    }
}

fn order_deposit(from: Pubkey, to: Pubkey, authority: Pubkey, amount: u64) -> (r: Option<
    TokenTransfer,
>)
    ensures
        r == deposit_order(from, to, authority, amount),
{
    if amount > 0 {
        Some(TokenTransfer { from, to, authority, amount })
    } else {
        None
    }
}

/// A position may cover this range.
pub open spec fn range_valid(tick_lower: int, tick_upper: int) -> bool {
    &&& tick_lower < tick_upper
    &&& tick_on_grid(tick_lower)
    &&& tick_on_grid(tick_upper)
    &&& MIN_TICK <= tick_lower
    &&& tick_upper <= MAX_TICK
}

/// Liquidity that a deposit of the desired amounts makes up.
pub open spec fn liquidity_to_open(
    pool: Pool,
    amount_0_desired: u64,
    amount_1_desired: u64,
    tick_lower: i32,
    tick_upper: i32,
) -> int {
    liquidity_of_deposit(
        pool.sqrt_price,
        sqrt_price_at(tick_lower as int) as u128,
        sqrt_price_at(tick_upper as int) as u128,
        amount_0_desired as int,
        amount_1_desired as int,
    )
}

/// Token 0 that liquidity over a range stands for at the pool's price.
pub open spec fn pool_amount_0(pool: Pool, tick_lower: i32, tick_upper: i32, liquidity: int) -> u64 {
    token_0_of_position(
        pool.sqrt_price,
        sqrt_price_at(tick_lower as int) as u128,
        sqrt_price_at(tick_upper as int) as u128,
        liquidity,
    )
}

/// Token 1 that liquidity over a range stands for at the pool's price.
pub open spec fn pool_amount_1(pool: Pool, tick_lower: i32, tick_upper: i32, liquidity: int) -> u64 {
    token_1_of_position(
        pool.sqrt_price,
        sqrt_price_at(tick_lower as int) as u128,
        sqrt_price_at(tick_upper as int) as u128,
        liquidity,
    )
}

/// Why `open_position` fails, if it does.
pub open spec fn open_position_failure(
    ctx: OpenPosition,
    amount_0_desired: u64,
    amount_1_desired: u64,
    amount_0_minimum: u64,
    amount_1_minimum: u64,
    tick_lower: i32,
    tick_upper: i32,
) -> Option<PositionError> {
    let pool = ctx.accounts.pool;
    let liquidity = liquidity_to_open(
        pool,
        amount_0_desired,
        amount_1_desired,
        tick_lower,
        tick_upper,
    );
    if accounts_failure(ctx.accounts) is Some {
        accounts_failure(ctx.accounts)
    } else if !user_accounts_match(ctx.accounts) {
        Some(PositionError::InvalidTokenAccount)
    } else if !range_valid(tick_lower as int, tick_upper as int) {
        Some(PositionError::InvalidTickRange)
    } else if liquidity == 0 {
        Some(PositionError::ZeroLiquidity)
    } else if pool_amount_0(pool, tick_lower, tick_upper, liquidity) < amount_0_minimum
        || pool_amount_1(pool, tick_lower, tick_upper, liquidity) < amount_1_minimum {
        Some(PositionError::SlippageExceeded)
    } else {
        None
    }
}

/// The position that `open_position` writes.
pub open spec fn opened_position(
    ctx: OpenPosition,
    liquidity: u128,
    tick_lower: i32,
    tick_upper: i32,
) -> Position {
    Position {
        pool: ctx.accounts.pool_key,
        owner: ctx.accounts.owner,
        nft_mint: ctx.nft_mint,
        tick_lower,
        tick_upper,
        liquidity,
        fee_growth_checkpoint_0: ctx.accounts.pool.fee_growth_global_0,
        fee_growth_checkpoint_1: ctx.accounts.pool.fee_growth_global_1,
        tokens_owed_0: 0,
        tokens_owed_1: 0,
        bump: ctx.position_bump,
        ..ctx.position
    }
}

/// The orders of a position that is opened with `liquidity`: both ticks and the pool learn
/// of the liquidity, the owner deposits what it stands for, and one NFT is minted.
pub open spec fn is_open_receipt(
    ctx: OpenPosition,
    liquidity: u128,
    tick_lower: i32,
    tick_upper: i32,
    receipt: OpenReceipt,
) -> bool {
    let pool = ctx.accounts.pool;
    let delta = signed_liquidity(liquidity);
    let amount_0 = pool_amount_0(pool, tick_lower, tick_upper, liquidity as int);
    let amount_1 = pool_amount_1(pool, tick_lower, tick_upper, liquidity as int);
    &&& receipt.lower_tick == tick_order(pool, tick_lower, delta, false)
    &&& receipt.upper_tick == tick_order(pool, tick_upper, delta, true)
    &&& receipt.deposit_0 == deposit_order(
        ctx.accounts.user_token_account_0.key,
        ctx.accounts.token_vault_0.key,
        ctx.accounts.owner,
        amount_0,
    )
    &&& receipt.deposit_1 == deposit_order(
        ctx.accounts.user_token_account_1.key,
        ctx.accounts.token_vault_1.key,
        ctx.accounts.owner,
        amount_1,
    )
    &&& receipt.liquidity == (LiquidityOrder {
        liquidity_delta: delta as i128,
        tick_lower,
        tick_upper,
    })
    &&& receipt.nft.mint == ctx.nft_mint
    &&& receipt.nft.to == ctx.nft_token_account
    &&& receipt.nft.authority == ctx.position_key
    &&& receipt.nft.amount == 1
    &&& receipt.nft.seeds.label@ == seq![0x70u8, 0x6f, 0x73, 0x69, 0x74, 0x69, 0x6f, 0x6e]
    &&& receipt.nft.seeds.nft_mint == ctx.nft_mint
    &&& receipt.nft.seeds.bump@ == seq![ctx.position_bump]
    &&& receipt.event == (PositionOpenedEvent {
        position: ctx.position_key,
        pool: ctx.accounts.pool_key,
        owner: ctx.accounts.owner,
        nft_mint: ctx.nft_mint,
        tick_lower,
        tick_upper,
        liquidity,
        amount_0,
        amount_1,
    })
}

/// What `open_position` does: it fails and leaves its accounts alone, or it writes the
/// position and returns its orders.
pub open spec fn position_opened(
    before: OpenPosition,
    amount_0_desired: u64,
    amount_1_desired: u64,
    amount_0_minimum: u64,
    amount_1_minimum: u64,
    tick_lower: i32,
    tick_upper: i32,
    after: OpenPosition,
    r: Result<OpenReceipt, PositionError>,
) -> bool {
    match open_position_failure(
        before,
        amount_0_desired,
        amount_1_desired,
        amount_0_minimum,
        amount_1_minimum,
        tick_lower,
        tick_upper,
    ) {
        Some(e) => r == Err::<OpenReceipt, PositionError>(e) && after == before,
        None => {
            let liquidity = liquidity_to_open(
                before.accounts.pool,
                amount_0_desired,
                amount_1_desired,
                tick_lower,
                tick_upper,
            ) as u128;
            &&& r is Ok
            &&& is_open_receipt(before, liquidity, tick_lower, tick_upper, r->Ok_0)
            &&& after == (OpenPosition {
                position: opened_position(before, liquidity, tick_lower, tick_upper),
                ..before
            })
        },
    }
}

/// Opens a position over a range with at most the desired amounts, and at least the minimum
/// ones.
pub fn open_position(
    ctx: &mut OpenPosition,
    amount_0_desired: u64,
    amount_1_desired: u64,
    amount_0_minimum: u64,
    amount_1_minimum: u64,
    tick_lower: i32,
    tick_upper: i32,
) -> (r: Result<OpenReceipt, PositionError>)
    ensures
        position_opened(
            *old(ctx),
            amount_0_desired,
            amount_1_desired,
            amount_0_minimum,
            amount_1_minimum,
            tick_lower,
            tick_upper,
            *final(ctx),
            r,
        ),
{
    match check_accounts(&ctx.accounts) {
        Ok(_) => {},
        Err(e) => {
            return Err(e);
        },
    }
    if !check_user_accounts(&ctx.accounts) {
        return Err(PositionError::InvalidTokenAccount);
    }
    if tick_lower >= tick_upper || tick_lower % TICK_SPACING != 0 || tick_upper % TICK_SPACING != 0
        || tick_lower < MIN_TICK || tick_upper > MAX_TICK {
        return Err(PositionError::InvalidTickRange);
    }
    let pool: Pool = ctx.accounts.pool;
    let sqrt_price_lower: u128 = match tick_to_sqrt_price_q64(tick_lower) {
        Ok(price) => price,
        Err(_) => {
            return Err(PositionError::InvalidTickRange);
        },
    };
    let sqrt_price_upper: u128 = match tick_to_sqrt_price_q64(tick_upper) {
        Ok(price) => price,
        Err(_) => {
            return Err(PositionError::InvalidTickRange);
        },
    };
    let liquidity: u128 = get_liquidity_for_amounts(
        pool.sqrt_price,
        sqrt_price_lower,
        sqrt_price_upper,
        amount_0_desired,
        amount_1_desired,
    );
    if liquidity == 0 {
        return Err(PositionError::ZeroLiquidity);
    }
    let (amount_0, amount_1) = get_amounts_for_liquidity(
        pool.sqrt_price,
        sqrt_price_lower,
        sqrt_price_upper,
        liquidity,
    );
    if amount_0 < amount_0_minimum || amount_1 < amount_1_minimum {
        return Err(PositionError::SlippageExceeded);
    }
    let delta: i128 = to_signed(liquidity);
    let lower_tick: TickOrder = order_tick(&pool, tick_lower, delta, false);
    let upper_tick: TickOrder = order_tick(&pool, tick_upper, delta, true);
    let deposit_0: Option<TokenTransfer> = order_deposit(
        ctx.accounts.user_token_account_0.key,
        ctx.accounts.token_vault_0.key,
        ctx.accounts.owner,
        amount_0,
    );
    let deposit_1: Option<TokenTransfer> = order_deposit(
        ctx.accounts.user_token_account_1.key,
        ctx.accounts.token_vault_1.key,
        ctx.accounts.owner,
        amount_1,
    );
    let label: [u8; 8] = [0x70, 0x6f, 0x73, 0x69, 0x74, 0x69, 0x6f, 0x6e];
    let bump: [u8; 1] = [ctx.position_bump];
    assert(label@ =~= seq![0x70u8, 0x6f, 0x73, 0x69, 0x74, 0x69, 0x6f, 0x6e]);
    assert(bump@ =~= seq![ctx.position_bump]);

    ctx.position.pool = ctx.accounts.pool_key;
    ctx.position.owner = ctx.accounts.owner;
    ctx.position.nft_mint = ctx.nft_mint;
    ctx.position.tick_lower = tick_lower;
    ctx.position.tick_upper = tick_upper;
    ctx.position.liquidity = liquidity;
    ctx.position.fee_growth_checkpoint_0 = pool.fee_growth_global_0;
    ctx.position.fee_growth_checkpoint_1 = pool.fee_growth_global_1;
    ctx.position.tokens_owed_0 = 0;
    ctx.position.tokens_owed_1 = 0;
    ctx.position.bump = ctx.position_bump;
    Ok(
        OpenReceipt {
            lower_tick,
            upper_tick,
            deposit_0,
            deposit_1,
            liquidity: LiquidityOrder { liquidity_delta: delta, tick_lower, tick_upper },
            nft: NftMintOrder {
                mint: ctx.nft_mint,
                to: ctx.nft_token_account,
                authority: ctx.position_key,
                amount: 1,
                seeds: PositionSeeds { label, nft_mint: ctx.nft_mint, bump },
            },
            event: PositionOpenedEvent {
                position: ctx.position_key,
                pool: ctx.accounts.pool_key,
                owner: ctx.accounts.owner,
                nft_mint: ctx.nft_mint,
                tick_lower,
                tick_upper,
                liquidity,
                amount_0,
                amount_1,
            },
        },
    )
}

/// The orders of a closed position, and the event.
#[derive(Clone, Copy, Debug, PartialEq, Eq)]
pub struct CloseReceipt {
    pub lower_tick: TickOrder,
    pub upper_tick: TickOrder,
    pub liquidity: LiquidityOrder,
    pub payout_0: Option<PayoutOrder>,
    pub payout_1: Option<PayoutOrder>,
    pub nft: NftBurnOrder,
    pub event: PositionClosedEvent,
}

/// The orders of a collection of fees, and the event.
#[derive(Clone, Copy, Debug, PartialEq, Eq)]
pub struct CollectReceipt {
    pub payout_0: Option<PayoutOrder>,
    pub payout_1: Option<PayoutOrder>,
    pub event: FeesCollectedEvent,
}

/// The sum of two amounts, clamped at 64 bits.
pub open spec fn sum_u64(a: int, b: int) -> int {
    if a + b > u64::MAX {
        u64::MAX as int
    } else {
        a + b
    }
}

/// Fees in token 0 that a position has earned since its checkpoint.
pub open spec fn fees_0(position: Position, pool: Pool) -> int {
    fees_since(pool.fee_growth_global_0, position.fee_growth_checkpoint_0, position.liquidity)
}

/// Fees in token 1 that a position has earned since its checkpoint.
pub open spec fn fees_1(position: Position, pool: Pool) -> int {
    fees_since(pool.fee_growth_global_1, position.fee_growth_checkpoint_1, position.liquidity)
}

/// Token 0 that closing a position pays: what its liquidity stands for, its fees, and what
/// is still owed.
pub open spec fn closing_total_0(position: Position, pool: Pool) -> int {
    sum_u64(
        sum_u64(
            pool_amount_0(
                pool,
                position.tick_lower,
                position.tick_upper,
                position.liquidity as int,
            ) as int,
            fees_0(position, pool),
        ),
        position.tokens_owed_0 as int,
    )
}

/// Token 1 that closing a position pays.
pub open spec fn closing_total_1(position: Position, pool: Pool) -> int {
    sum_u64(
        sum_u64(
            pool_amount_1(
                pool,
                position.tick_lower,
                position.tick_upper,
                position.liquidity as int,
            ) as int,
            fees_1(position, pool),
        ),
        position.tokens_owed_1 as int,
    )
}

/// A payout from a vault, unless there is nothing to pay.
pub open spec fn payout_order(vault_index: u8, vault: Pubkey, destination: Pubkey, amount: int) -> Option<
    PayoutOrder,
> {
    if amount > 0 {
        Some(PayoutOrder { vault_index, vault, destination, amount: amount as u64 })
    } else {
        None
    }
}

fn order_payout(vault_index: u8, vault: Pubkey, destination: Pubkey, amount: u64) -> (r: Option<
    PayoutOrder,
>)
    ensures
        r == payout_order(vault_index, vault, destination, amount as int),
{
    if amount > 0 {
        Some(PayoutOrder { vault_index, vault, destination, amount })
    } else {
        None
    }
}

/// The account shows that the signer holds the position's NFT, and with it the position.
pub open spec fn holds_nft(
    position: Position,
    nft_token_account: TokenAccount,
    signer: Pubkey,
) -> bool {
    &&& nft_token_account.mint == position.nft_mint
    &&& nft_token_account.owner == signer
    &&& nft_token_account.amount == 1
}

fn check_nft(position: &Position, nft_token_account: &TokenAccount, signer: &Pubkey) -> (r: bool)
    ensures
        r == holds_nft(*position, *nft_token_account, *signer),
{
    nft_token_account.mint == position.nft_mint && nft_token_account.owner == *signer
        && nft_token_account.amount == 1
}

/// The signer presents the position's NFT: its mint, and one of it in an account of theirs.
pub open spec fn presents_nft(ctx: ClosePosition) -> bool {
    &&& ctx.nft_mint == ctx.position.nft_mint
    &&& holds_nft(ctx.position, ctx.nft_token_account, ctx.accounts.owner)
}

/// Why `close_position` fails, if it does.
pub open spec fn close_position_failure(
    ctx: ClosePosition,
    amount_0_minimum: u64,
    amount_1_minimum: u64,
) -> Option<PositionError> {
    if !presents_nft(ctx) && ctx.position.owner != ctx.accounts.owner {
        Some(PositionError::Unauthorized)
    } else if accounts_failure(ctx.accounts) is Some {
        accounts_failure(ctx.accounts)
    } else if !presents_nft(ctx) {
        Some(PositionError::InvalidNft)
    } else if !user_accounts_match(ctx.accounts) {
        Some(PositionError::InvalidTokenAccount)
    } else if !tick_in_range(ctx.position.tick_lower as int) || !tick_in_range(
        ctx.position.tick_upper as int,
    ) {
        Some(PositionError::InvalidTickRange)
    } else if closing_total_0(ctx.position, ctx.accounts.pool) < amount_0_minimum
        || closing_total_1(ctx.position, ctx.accounts.pool) < amount_1_minimum {
        Some(PositionError::SlippageExceeded)
    } else {
        None
    }
}

/// The orders of a position that is closed: both ticks and the pool forget its liquidity,
/// the owner is paid from the vaults, and the NFT is burnt.
pub open spec fn close_receipt(ctx: ClosePosition) -> CloseReceipt {
    let position = ctx.position;
    let pool = ctx.accounts.pool;
    let delta = -signed_liquidity(position.liquidity);
    CloseReceipt {
        lower_tick: tick_order(pool, position.tick_lower, delta, false),
        upper_tick: tick_order(pool, position.tick_upper, delta, true),
        liquidity: LiquidityOrder {
            liquidity_delta: delta as i128,
            tick_lower: position.tick_lower,
            tick_upper: position.tick_upper,
        },
        payout_0: payout_order(
            0,
            ctx.accounts.token_vault_0.key,
            ctx.accounts.user_token_account_0.key,
            closing_total_0(position, pool),
        ),
        payout_1: payout_order(
            1,
            ctx.accounts.token_vault_1.key,
            ctx.accounts.user_token_account_1.key,
            closing_total_1(position, pool),
        ),
        nft: NftBurnOrder {
            mint: ctx.nft_mint,
            from: ctx.nft_token_account.key,
            authority: ctx.accounts.owner,
            amount: 1,
        },
        event: PositionClosedEvent {
            position: ctx.position_key,
            pool: ctx.accounts.pool_key,
            owner: ctx.accounts.owner,
            liquidity: position.liquidity,
            amount_0: pool_amount_0(
                pool,
                position.tick_lower,
                position.tick_upper,
                position.liquidity as int,
            ),
            amount_1: pool_amount_1(
                pool,
                position.tick_lower,
                position.tick_upper,
                position.liquidity as int,
            ),
            fees_0: fees_0(position, pool) as u64,
            fees_1: fees_1(position, pool) as u64,
        },
    }
}

/// Whether a position's closing is refused, and why.
pub fn close_refusal(ctx: &ClosePosition, amount_0_minimum: u64, amount_1_minimum: u64) -> (r:
    Option<PositionError>)
    ensures
        r == close_position_failure(*ctx, amount_0_minimum, amount_1_minimum),
{
    let presents_nft: bool = ctx.nft_mint == ctx.position.nft_mint && check_nft(
        &ctx.position,
        &ctx.nft_token_account,
        &ctx.accounts.owner,
    );
    if !presents_nft && ctx.position.owner != ctx.accounts.owner {
        return Some(PositionError::Unauthorized);
    }
    match check_accounts(&ctx.accounts) {
        Ok(_) => {},
        Err(e) => {
            return Some(e);
        },
    }
    if !presents_nft {
        return Some(PositionError::InvalidNft);
    }
    if !check_user_accounts(&ctx.accounts) {
        return Some(PositionError::InvalidTokenAccount);
    }
    match closing_amounts(ctx) {
        Some(amounts) => if amounts.total_0 < amount_0_minimum || amounts.total_1
            < amount_1_minimum {
            Some(PositionError::SlippageExceeded)
        } else {
            None
        },
        None => Some(PositionError::InvalidTickRange),
    }
}

/// What closing a position pays, and what of it is liquidity and fees.
struct ClosingAmounts {
    amount_0: u64,
    amount_1: u64,
    fee_0: u64,
    fee_1: u64,
    total_0: u64,
    total_1: u64,
}

/// What closing a position pays. There is nothing to say where its ticks have no price.
fn closing_amounts(ctx: &ClosePosition) -> (r: Option<ClosingAmounts>)
    ensures
        r is Some == (tick_in_range(ctx.position.tick_lower as int) && tick_in_range(
            ctx.position.tick_upper as int,
        )),
        r matches Some(amounts) ==> {
            let position = ctx.position;
            let pool = ctx.accounts.pool;
            let liquidity = position.liquidity as int;
            &&& amounts.amount_0 == pool_amount_0(
                pool,
                position.tick_lower,
                position.tick_upper,
                liquidity,
            )
            &&& amounts.amount_1 == pool_amount_1(
                pool,
                position.tick_lower,
                position.tick_upper,
                liquidity,
            )
            &&& amounts.fee_0 == fees_0(position, pool)
            &&& amounts.fee_1 == fees_1(position, pool)
            &&& amounts.total_0 == closing_total_0(position, pool)
            &&& amounts.total_1 == closing_total_1(position, pool)
        },
{
    let position: &Position = &ctx.position;
    let pool: &Pool = &ctx.accounts.pool;
    let sqrt_price_lower: u128 = match tick_to_sqrt_price_q64(position.tick_lower) {
        Ok(price) => price,
        Err(_) => {
            return None;
        },
    };
    let sqrt_price_upper: u128 = match tick_to_sqrt_price_q64(position.tick_upper) {
        Ok(price) => price,
        Err(_) => {
            return None;
        },
    };
    let (amount_0, amount_1) = get_amounts_for_liquidity(
        pool.sqrt_price,
        sqrt_price_lower,
        sqrt_price_upper,
        position.liquidity,
    );
    let (fee_0, fee_1) = position.compute_fees_owed(
        pool.fee_growth_global_0,
        pool.fee_growth_global_1,
    );
    Some(
        ClosingAmounts {
            amount_0,
            amount_1,
            fee_0,
            fee_1,
            total_0: amount_0.saturating_add(fee_0).saturating_add(position.tokens_owed_0),
            total_1: amount_1.saturating_add(fee_1).saturating_add(position.tokens_owed_1),
        },
    )
}

/// What `close_position` does: it fails, or it returns its orders.
pub open spec fn position_closed(
    ctx: ClosePosition,
    amount_0_minimum: u64,
    amount_1_minimum: u64,
    r: Result<CloseReceipt, PositionError>,
) -> bool {
    match close_position_failure(ctx, amount_0_minimum, amount_1_minimum) {
        Some(e) => r == Err::<CloseReceipt, PositionError>(e),
        None => r == Ok::<CloseReceipt, PositionError>(close_receipt(ctx)),
    }
}

/// Closes a position for the holder of its NFT: takes its liquidity out of the pool and pays
/// it out with its fees.
/// The position's account is to be closed. Liquidity of exactly `2^127` has no negative, so
/// it can only be refused.
pub fn close_position(ctx: &ClosePosition, amount_0_minimum: u64, amount_1_minimum: u64) -> (r:
    Result<CloseReceipt, PositionError>)
    requires
        close_position_failure(*ctx, amount_0_minimum, amount_1_minimum) is None
            ==> signed_liquidity(ctx.position.liquidity) != i128::MIN,
    ensures
        position_closed(*ctx, amount_0_minimum, amount_1_minimum, r),
{
    match close_refusal(ctx, amount_0_minimum, amount_1_minimum) {
        Some(e) => {
            return Err(e);
        },
        None => {},
    }
    let amounts: ClosingAmounts = match closing_amounts(ctx) {
        Some(amounts) => amounts,
        None => {
            return Err(PositionError::InvalidTickRange);
        },
    };
    let position: &Position = &ctx.position;
    let pool: &Pool = &ctx.accounts.pool;
    let delta: i128 = -to_signed(position.liquidity);
    Ok(
        CloseReceipt {
            lower_tick: order_tick(pool, position.tick_lower, delta, false),
            upper_tick: order_tick(pool, position.tick_upper, delta, true),
            liquidity: LiquidityOrder {
                liquidity_delta: delta,
                tick_lower: position.tick_lower,
                tick_upper: position.tick_upper,
            },
            payout_0: order_payout(
                0,
                ctx.accounts.token_vault_0.key,
                ctx.accounts.user_token_account_0.key,
                amounts.total_0,
            ),
            payout_1: order_payout(
                1,
                ctx.accounts.token_vault_1.key,
                ctx.accounts.user_token_account_1.key,
                amounts.total_1,
            ),
            nft: NftBurnOrder {
                mint: ctx.nft_mint,
                from: ctx.nft_token_account.key,
                authority: ctx.accounts.owner,
                amount: 1,
            },
            event: PositionClosedEvent {
                position: ctx.position_key,
                pool: ctx.accounts.pool_key,
                owner: ctx.accounts.owner,
                liquidity: position.liquidity,
                amount_0: amounts.amount_0,
                amount_1: amounts.amount_1,
                fees_0: amounts.fee_0,
                fees_1: amounts.fee_1,
            },
        },
    )
}

/// Why `collect_fees` fails, if it does.
pub open spec fn collect_fees_failure(ctx: CollectFees) -> Option<PositionError> {
    let holder = holds_nft(ctx.position, ctx.nft_token_account, ctx.accounts.owner);
    if !holder && ctx.position.owner != ctx.accounts.owner {
        Some(PositionError::Unauthorized)
    } else if accounts_failure(ctx.accounts) is Some {
        accounts_failure(ctx.accounts)
    } else if !holder {
        Some(PositionError::InvalidNft)
    } else if !user_accounts_match(ctx.accounts) {
        Some(PositionError::InvalidTokenAccount)
    } else {
        None
    }
}

/// Token 0 that a collection pays: the fees since the checkpoint and what is still owed.
pub open spec fn collecting_total_0(position: Position, pool: Pool) -> int {
    sum_u64(fees_0(position, pool), position.tokens_owed_0 as int)
}

/// Token 1 that a collection pays.
pub open spec fn collecting_total_1(position: Position, pool: Pool) -> int {
    sum_u64(fees_1(position, pool), position.tokens_owed_1 as int)
}

/// The position after its fees have been collected.
pub open spec fn collected_position(position: Position, pool: Pool) -> Position {
    Position {
        fee_growth_checkpoint_0: pool.fee_growth_global_0,
        fee_growth_checkpoint_1: pool.fee_growth_global_1,
        tokens_owed_0: 0,
        tokens_owed_1: 0,
        ..position
    }
}

/// The orders of a collection of fees.
pub open spec fn collect_receipt(ctx: CollectFees) -> CollectReceipt {
    let total_0 = collecting_total_0(ctx.position, ctx.accounts.pool);
    let total_1 = collecting_total_1(ctx.position, ctx.accounts.pool);
    CollectReceipt {
        payout_0: payout_order(
            0,
            ctx.accounts.token_vault_0.key,
            ctx.accounts.user_token_account_0.key,
            total_0,
        ),
        payout_1: payout_order(
            1,
            ctx.accounts.token_vault_1.key,
            ctx.accounts.user_token_account_1.key,
            total_1,
        ),
        event: FeesCollectedEvent {
            position: ctx.position_key,
            owner: ctx.accounts.owner,
            fees_0: total_0 as u64,
            fees_1: total_1 as u64,
        },
    }
}

/// What `collect_fees` does: it fails and leaves its accounts alone, or it moves the
/// position's checkpoint and returns its orders.
pub open spec fn fees_collected(
    before: CollectFees,
    after: CollectFees,
    r: Result<CollectReceipt, PositionError>,
) -> bool {
    match collect_fees_failure(before) {
        Some(e) => r == Err::<CollectReceipt, PositionError>(e) && after == before,
        None => {
            &&& r == Ok::<CollectReceipt, PositionError>(collect_receipt(before))
            &&& after == (CollectFees {
                position: collected_position(before.position, before.accounts.pool),
                ..before
            })
        },
    }
}

/// Pays out a position's fees to the holder of its NFT and moves its checkpoint to the
/// present.
pub fn collect_fees(ctx: &mut CollectFees) -> (r: Result<CollectReceipt, PositionError>)
    ensures
        fees_collected(*old(ctx), *final(ctx), r),
{
    let holder: bool = check_nft(&ctx.position, &ctx.nft_token_account, &ctx.accounts.owner);
    if !holder && ctx.position.owner != ctx.accounts.owner {
        return Err(PositionError::Unauthorized);
    }
    match check_accounts(&ctx.accounts) {
        Ok(_) => {},
        Err(e) => {
            return Err(e);
        },
    }
    if !holder {
        return Err(PositionError::InvalidNft);
    }
    if !check_user_accounts(&ctx.accounts) {
        return Err(PositionError::InvalidTokenAccount);
    }
    let pool: Pool = ctx.accounts.pool;
    let (fee_0, fee_1) = ctx.position.compute_fees_owed(
        pool.fee_growth_global_0,
        pool.fee_growth_global_1,
    );
    let total_0: u64 = fee_0.saturating_add(ctx.position.tokens_owed_0);
    let total_1: u64 = fee_1.saturating_add(ctx.position.tokens_owed_1);
    ctx.position.fee_growth_checkpoint_0 = pool.fee_growth_global_0;
    ctx.position.fee_growth_checkpoint_1 = pool.fee_growth_global_1;
    ctx.position.tokens_owed_0 = 0;
    ctx.position.tokens_owed_1 = 0;
    Ok(
        CollectReceipt {
            payout_0: order_payout(
                0,
                ctx.accounts.token_vault_0.key,
                ctx.accounts.user_token_account_0.key,
                total_0,
            ),
            payout_1: order_payout(
                1,
                ctx.accounts.token_vault_1.key,
                ctx.accounts.user_token_account_1.key,
                total_1,
            ),
            event: FeesCollectedEvent {
                position: ctx.position_key,
                owner: ctx.accounts.owner,
                fees_0: total_0,
                fees_1: total_1,
            },
        },
    )
}

} // verus!
