//! Positions: opening, closing and collecting.

use narrowswap::accounts::TokenAccount;
use narrowswap::pool_core::state::Pool;
use narrowswap::pool_core::{modify_liquidity, ModifyLiquidity};
use narrowswap::position_mgr::state::Position;
use narrowswap::position_mgr::{
    close_position, close_refusal, collect_fees, open_position, ClosePosition, CollectFees,
    OpenPosition, PoolAccounts, PositionError,
};
use narrowswap::pubkey::Pubkey;

const LOWER: i32 = 49_408;
const UPPER: i32 = 50_752;
const LIQUIDITY: u128 = 181_965_790;

fn key(byte: u8) -> Pubkey {
    Pubkey { bytes: [byte; 32] }
}

fn token_account(address: u8, mint: u8, owner: u8, amount: u64) -> TokenAccount {
    TokenAccount {
        key: key(address),
        mint: key(mint),
        owner: key(owner),
        amount,
    }
}

fn accounts() -> PoolAccounts {
    PoolAccounts {
        pool: Pool {
            token_mint_0: key(1),
            token_mint_1: key(2),
            sqrt_price: 225_925_551_981_489_622_561,
            tick_current: 50_108,
            liquidity: 1_000,
            fee_rate: 3_000,
            fee_growth_global_0: 5 << 64,
            fee_growth_global_1: 6 << 64,
            initialized: true,
            ..Pool::default()
        },
        pool_key: key(10),
        pool_owner: key(11),
        pool_core_program: key(11),
        token_vault_0: token_account(3, 1, 10, 0),
        token_vault_1: token_account(4, 2, 10, 0),
        user_token_account_0: token_account(21, 1, 20, 0),
        user_token_account_1: token_account(22, 2, 20, 0),
        owner: key(20),
    }
}

fn opening() -> OpenPosition {
    OpenPosition {
        position: Position::default(),
        position_key: key(30),
        position_bump: 252,
        accounts: accounts(),
        nft_mint: key(31),
        nft_token_account: key(32),
    }
}

fn position() -> Position {
    Position {
        pool: key(10),
        owner: key(20),
        nft_mint: key(31),
        tick_lower: LOWER,
        tick_upper: UPPER,
        liquidity: LIQUIDITY,
        fee_growth_checkpoint_0: 5 << 64,
        fee_growth_checkpoint_1: 6 << 64,
        bump: 252,
        ..Position::default()
    }
}

fn closing() -> ClosePosition {
    ClosePosition {
        position: position(),
        position_key: key(30),
        accounts: accounts(),
        nft_mint: key(31),
        nft_token_account: token_account(32, 31, 20, 1),
    }
}

fn collecting() -> CollectFees {
    CollectFees {
        position: position(),
        position_key: key(30),
        accounts: accounts(),
        nft_token_account: token_account(32, 31, 20, 1),
    }
}

#[test]
fn opening_a_position() {
    let mut ctx = opening();
    let receipt =
        open_position(&mut ctx, 1_000_000, 150_000_000, 999_999, 149_567_772, LOWER, UPPER)
            .unwrap();
    assert_eq!(ctx.position, position());
    assert_eq!(receipt.lower_tick.tick_index, LOWER);
    assert_eq!(receipt.lower_tick.bitmap_word_index, 10);
    assert_eq!(receipt.lower_tick.liquidity_delta, LIQUIDITY as i128);
    assert!(!receipt.lower_tick.is_upper_tick);
    assert_eq!(receipt.lower_tick.fee_growth_global_0, 5 << 64);
    assert_eq!(receipt.lower_tick.fee_growth_global_1, 6 << 64);
    assert_eq!(receipt.upper_tick.tick_index, UPPER);
    assert_eq!(receipt.upper_tick.bitmap_word_index, 11);
    assert_eq!(receipt.upper_tick.liquidity_delta, LIQUIDITY as i128);
    assert!(receipt.upper_tick.is_upper_tick);
    let deposit_0 = receipt.deposit_0.unwrap();
    assert_eq!(deposit_0.from, key(21));
    assert_eq!(deposit_0.to, key(3));
    assert_eq!(deposit_0.authority, key(20));
    assert_eq!(deposit_0.amount, 999_999);
    let deposit_1 = receipt.deposit_1.unwrap();
    assert_eq!(deposit_1.from, key(22));
    assert_eq!(deposit_1.to, key(4));
    assert_eq!(deposit_1.amount, 149_567_772);
    assert_eq!(receipt.liquidity.liquidity_delta, LIQUIDITY as i128);
    assert_eq!(receipt.liquidity.tick_lower, LOWER);
    assert_eq!(receipt.liquidity.tick_upper, UPPER);
    assert_eq!(receipt.nft.mint, key(31));
    assert_eq!(receipt.nft.to, key(32));
    assert_eq!(receipt.nft.authority, key(30));
    assert_eq!(receipt.nft.amount, 1);
    assert_eq!(&receipt.nft.seeds.label, b"position");
    assert_eq!(receipt.nft.seeds.nft_mint, key(31));
    assert_eq!(receipt.nft.seeds.bump, [252]);
    assert_eq!(receipt.event.position, key(30));
    assert_eq!(receipt.event.pool, key(10));
    assert_eq!(receipt.event.owner, key(20));
    assert_eq!(receipt.event.nft_mint, key(31));
    assert_eq!(receipt.event.liquidity, LIQUIDITY);
    assert_eq!(receipt.event.amount_0, 999_999);
    assert_eq!(receipt.event.amount_1, 149_567_772);
}

#[test]
fn opening_below_the_range_deposits_one_token() {
    let mut ctx = opening();
    ctx.accounts.pool.sqrt_price = 11 << 64;
    let receipt = open_position(&mut ctx, 1_000_000, 150_000_000, 0, 0, LOWER, UPPER).unwrap();
    assert_eq!(receipt.deposit_0.unwrap().amount, 999_999);
    assert!(receipt.deposit_1.is_none());
    assert_eq!(receipt.event.liquidity, 181_965_790);
}

#[test]
fn bad_ranges_are_refused() {
    let mut ctx = opening();
    for (lower, upper) in [
        (UPPER, LOWER),
        (LOWER, LOWER),
        (LOWER + 1, UPPER),
        (LOWER, UPPER + 63),
        (-443_648, UPPER),
        (LOWER, 443_648),
    ] {
        assert_eq!(
            open_position(&mut ctx, 1_000_000, 150_000_000, 0, 0, lower, upper),
            Err(PositionError::InvalidTickRange)
        );
    }
    assert_eq!(ctx, opening());
}

#[test]
fn bad_openings_are_refused() {
    let mut ctx = opening();
    assert_eq!(
        open_position(&mut ctx, 0, 0, 0, 0, LOWER, UPPER),
        Err(PositionError::ZeroLiquidity)
    );
    assert_eq!(
        open_position(&mut ctx, 1_000_000, 150_000_000, 1_000_000, 0, LOWER, UPPER),
        Err(PositionError::SlippageExceeded)
    );
    assert_eq!(
        open_position(&mut ctx, 1_000_000, 150_000_000, 0, 149_567_773, LOWER, UPPER),
        Err(PositionError::SlippageExceeded)
    );
    ctx.accounts.user_token_account_1.owner = key(99);
    assert_eq!(
        open_position(&mut ctx, 1_000_000, 150_000_000, 0, 0, LOWER, UPPER),
        Err(PositionError::InvalidTokenAccount)
    );
    ctx.accounts.token_vault_1.mint = key(99);
    assert_eq!(
        open_position(&mut ctx, 1_000_000, 150_000_000, 0, 0, LOWER, UPPER),
        Err(PositionError::InvalidTokenAccount)
    );
    ctx.accounts.pool_owner = key(99);
    assert_eq!(
        open_position(&mut ctx, 1_000_000, 150_000_000, 0, 0, LOWER, UPPER),
        Err(PositionError::InvalidPool)
    );
    ctx.accounts.pool.initialized = false;
    assert_eq!(
        open_position(&mut ctx, 1_000_000, 150_000_000, 0, 0, LOWER, UPPER),
        Err(PositionError::PoolNotInitialized)
    );
}

#[test]
fn closing_returns_the_deposit_and_fees() {
    let mut ctx = closing();
    let receipt = close_position(&ctx, 999_999, 149_567_772).unwrap();
    assert_eq!(receipt.payout_0.unwrap().amount, 999_999);
    assert_eq!(receipt.payout_1.unwrap().amount, 149_567_772);
    assert_eq!(receipt.event.fees_0, 0);
    assert_eq!(receipt.event.fees_1, 0);

    ctx.accounts.pool.fee_growth_global_0 = (5 << 64) + (1 << 63);
    ctx.accounts.pool.fee_growth_global_1 = 8 << 64;
    ctx.position.tokens_owed_0 = 11;
    ctx.position.tokens_owed_1 = 13;
    let receipt = close_position(&ctx, 0, 0).unwrap();
    assert_eq!(receipt.event.amount_0, 999_999);
    assert_eq!(receipt.event.amount_1, 149_567_772);
    assert_eq!(receipt.event.fees_0, 90_982_895);
    assert_eq!(receipt.event.fees_1, 363_931_580);
    let payout_0 = receipt.payout_0.unwrap();
    assert_eq!(payout_0.vault_index, 0);
    assert_eq!(payout_0.vault, key(3));
    assert_eq!(payout_0.destination, key(21));
    assert_eq!(payout_0.amount, 999_999 + 90_982_895 + 11);
    let payout_1 = receipt.payout_1.unwrap();
    assert_eq!(payout_1.vault_index, 1);
    assert_eq!(payout_1.vault, key(4));
    assert_eq!(payout_1.destination, key(22));
    assert_eq!(payout_1.amount, 149_567_772 + 363_931_580 + 13);
    assert_eq!(receipt.lower_tick.liquidity_delta, -(LIQUIDITY as i128));
    assert_eq!(receipt.upper_tick.liquidity_delta, -(LIQUIDITY as i128));
    assert_eq!(receipt.lower_tick.fee_growth_global_1, 8 << 64);
    assert_eq!(receipt.liquidity.liquidity_delta, -(LIQUIDITY as i128));
    assert_eq!(receipt.nft.mint, key(31));
    assert_eq!(receipt.nft.from, key(32));
    assert_eq!(receipt.nft.authority, key(20));
    assert_eq!(receipt.nft.amount, 1);
    assert_eq!(receipt.event.liquidity, LIQUIDITY);
}

#[test]
fn closing_undoes_opening_in_the_pool() {
    let mut open = opening();
    let opened =
        open_position(&mut open, 1_000_000, 150_000_000, 0, 0, LOWER, UPPER).unwrap();
    let mut close = closing();
    close.position = open.position;
    let closed = close_position(&close, 0, 0).unwrap();
    let before = accounts().pool;
    let mut ctx = ModifyLiquidity { pool: before };
    let order = opened.liquidity;
    assert!(
        modify_liquidity(&mut ctx, order.liquidity_delta, order.tick_lower, order.tick_upper)
            .is_ok()
    );
    assert_eq!(ctx.pool.liquidity, 1_000 + LIQUIDITY);
    let order = closed.liquidity;
    assert!(
        modify_liquidity(&mut ctx, order.liquidity_delta, order.tick_lower, order.tick_upper)
            .is_ok()
    );
    assert_eq!(ctx.pool, before);
}

#[test]
fn bad_closings_are_refused() {
    let mut ctx = closing();
    assert_eq!(
        close_position(&ctx, 1_000_000, 0),
        Err(PositionError::SlippageExceeded)
    );
    assert_eq!(
        close_position(&ctx, 0, 149_567_773),
        Err(PositionError::SlippageExceeded)
    );
    ctx.position.tick_upper = 443_637;
    assert_eq!(
        close_position(&ctx, 0, 0),
        Err(PositionError::InvalidTickRange)
    );
    ctx.accounts.user_token_account_0.mint = key(99);
    assert_eq!(
        close_position(&ctx, 0, 0),
        Err(PositionError::InvalidTokenAccount)
    );
    ctx.nft_token_account.amount = 0;
    assert_eq!(close_position(&ctx, 0, 0), Err(PositionError::InvalidNft));
    ctx.accounts.token_vault_0.mint = key(99);
    assert_eq!(
        close_position(&ctx, 0, 0),
        Err(PositionError::InvalidTokenAccount)
    );
    ctx.accounts.pool_owner = key(99);
    assert_eq!(close_position(&ctx, 0, 0), Err(PositionError::InvalidPool));
    ctx.accounts.pool.initialized = false;
    assert_eq!(
        close_position(&ctx, 0, 0),
        Err(PositionError::PoolNotInitialized)
    );
    ctx.position.owner = key(99);
    assert_eq!(close_position(&ctx, 0, 0), Err(PositionError::Unauthorized));
}

#[test]
fn closing_takes_the_nft() {
    let mut ctx = closing();
    ctx.nft_mint = key(33);
    ctx.nft_token_account.mint = key(33);
    assert_eq!(close_position(&ctx, 0, 0), Err(PositionError::InvalidNft));
    let mut ctx = closing();
    ctx.nft_token_account.mint = key(33);
    assert_eq!(close_position(&ctx, 0, 0), Err(PositionError::InvalidNft));
    let mut ctx = closing();
    ctx.nft_token_account.owner = key(33);
    assert_eq!(close_position(&ctx, 0, 0), Err(PositionError::InvalidNft));
    let mut ctx = closing();
    ctx.nft_token_account.amount = 2;
    assert_eq!(close_position(&ctx, 0, 0), Err(PositionError::InvalidNft));
}

#[test]
fn collecting_pays_once() {
    let mut ctx = collecting();
    ctx.accounts.pool.fee_growth_global_0 = 6 << 64;
    ctx.position.tokens_owed_1 = 4;
    let receipt = collect_fees(&mut ctx).unwrap();
    let payout_0 = receipt.payout_0.unwrap();
    assert_eq!(payout_0.vault_index, 0);
    assert_eq!(payout_0.vault, key(3));
    assert_eq!(payout_0.destination, key(21));
    assert_eq!(payout_0.amount, LIQUIDITY as u64);
    assert_eq!(receipt.payout_1.unwrap().amount, 4);
    assert_eq!(receipt.event.position, key(30));
    assert_eq!(receipt.event.owner, key(20));
    assert_eq!(receipt.event.fees_0, LIQUIDITY as u64);
    assert_eq!(receipt.event.fees_1, 4);
    assert_eq!(ctx.position.fee_growth_checkpoint_0, 6 << 64);
    assert_eq!(ctx.position.tokens_owed_1, 0);

    let again = collect_fees(&mut ctx).unwrap();
    assert!(again.payout_0.is_none());
    assert!(again.payout_1.is_none());
    assert_eq!(again.event.fees_0, 0);
}

#[test]
fn bad_collections_are_refused() {
    let mut ctx = collecting();
    ctx.accounts.user_token_account_0.owner = key(99);
    assert_eq!(
        collect_fees(&mut ctx),
        Err(PositionError::InvalidTokenAccount)
    );
    ctx.accounts.token_vault_0.mint = key(99);
    assert_eq!(
        collect_fees(&mut ctx),
        Err(PositionError::InvalidTokenAccount)
    );
    ctx.accounts.pool_core_program = key(99);
    assert_eq!(collect_fees(&mut ctx), Err(PositionError::InvalidPool));
    ctx.accounts.pool.initialized = false;
    assert_eq!(
        collect_fees(&mut ctx),
        Err(PositionError::PoolNotInitialized)
    );
    ctx.accounts.owner = key(99);
    assert_eq!(collect_fees(&mut ctx), Err(PositionError::Unauthorized));
    assert_eq!(ctx.position, position());
    let mut ctx = collecting();
    ctx.nft_token_account.amount = 0;
    assert_eq!(collect_fees(&mut ctx), Err(PositionError::InvalidNft));
    let mut ctx = collecting();
    ctx.nft_token_account.mint = key(33);
    assert_eq!(collect_fees(&mut ctx), Err(PositionError::InvalidNft));
    let mut ctx = collecting();
    ctx.nft_token_account.owner = key(33);
    assert_eq!(collect_fees(&mut ctx), Err(PositionError::InvalidNft));
    assert_eq!(ctx.position, position());
}

#[test]
fn fees_since_a_checkpoint() {
    let mut p = position();
    p.liquidity = 10;
    p.fee_growth_checkpoint_0 = u128::MAX;
    p.fee_growth_checkpoint_1 = 1 << 64;
    assert_eq!(p.compute_fees_owed((3 << 64) - 1, 4 << 64), (30, 30));
    p.liquidity = u128::MAX;
    assert_eq!(p.compute_fees_owed(5 << 64, 1 << 64), (u64::MAX, 0));
    assert_eq!(Position::LEN, 184);
}

#[test]
fn refusal_is_known_before_closing() {
    let mut ctx = closing();
    ctx.position.liquidity = 1 << 127;
    assert_eq!(close_refusal(&ctx, 0, 0), None);
    ctx.nft_token_account.amount = 0;
    assert_eq!(close_refusal(&ctx, 0, 0), Some(PositionError::InvalidNft));
    assert_eq!(close_position(&ctx, 0, 0), Err(PositionError::InvalidNft));
}

#[test]
fn active_liquidity_is_that_of_the_positions_in_range() {
    let mut ctx = ModifyLiquidity {
        pool: Pool {
            liquidity: 0,
            ..accounts().pool
        },
    };
    let ranges = [
        (1_000, LOWER, UPPER),
        (500, 50_176, UPPER),
        (70, LOWER, 50_112),
    ];
    for (liquidity, lower, upper) in ranges {
        assert!(modify_liquidity(&mut ctx, liquidity, lower, upper).is_ok());
    }
    assert_eq!(ctx.pool.liquidity, 1_070);
    for (liquidity, lower, upper) in ranges {
        assert!(modify_liquidity(&mut ctx, -liquidity, lower, upper).is_ok());
    }
    assert_eq!(ctx.pool.liquidity, 0);
}

/// Accounts of someone else than the recorded owner.
fn accounts_of(signer: u8) -> PoolAccounts {
    PoolAccounts {
        user_token_account_0: token_account(23, 1, signer, 0),
        user_token_account_1: token_account(24, 2, signer, 0),
        owner: key(signer),
        ..accounts()
    }
}

#[test]
fn holder_of_a_transferred_nft_closes() {
    let mut ctx = closing();
    ctx.accounts = accounts_of(40);
    assert_eq!(close_position(&ctx, 0, 0), Err(PositionError::Unauthorized));
    ctx.nft_token_account = token_account(41, 31, 40, 1);
    let receipt = close_position(&ctx, 999_999, 149_567_772).unwrap();
    assert_eq!(receipt.payout_0.unwrap().destination, key(23));
    assert_eq!(receipt.payout_0.unwrap().amount, 999_999);
    assert_eq!(receipt.payout_1.unwrap().destination, key(24));
    assert_eq!(receipt.nft.from, key(41));
    assert_eq!(receipt.nft.authority, key(40));

    let mut ctx = closing();
    ctx.nft_token_account = token_account(41, 31, 40, 1);
    assert_eq!(close_position(&ctx, 0, 0), Err(PositionError::InvalidNft));
}

#[test]
fn holder_of_a_transferred_nft_collects() {
    let mut ctx = collecting();
    ctx.accounts = accounts_of(40);
    ctx.accounts.pool.fee_growth_global_0 = 6 << 64;
    assert_eq!(collect_fees(&mut ctx), Err(PositionError::Unauthorized));
    ctx.nft_token_account = token_account(41, 31, 40, 1);
    let receipt = collect_fees(&mut ctx).unwrap();
    assert_eq!(receipt.payout_0.unwrap().destination, key(23));
    assert_eq!(receipt.payout_0.unwrap().amount, LIQUIDITY as u64);
    assert_eq!(ctx.position.owner, key(20));
}
