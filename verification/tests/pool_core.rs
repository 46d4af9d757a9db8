//! Pools and swaps.

use narrowswap::accounts::TokenAccount;
use narrowswap::pool_core::state::Pool;
use narrowswap::pool_core::tick_loop::{
    apply_liquidity_delta, find_next_boundary, find_next_sqrt_price_target,
    read_liquidity_net_at_tick, tick_at_sqrt_price,
};
use narrowswap::pool_core::{
    initialize_pool, modify_liquidity, swap, transfer_from_vault, InitializePool, ModifyLiquidity,
    PoolError, Swap, TransferFromVault, MAX_TICK_CROSSINGS,
};
use narrowswap::pubkey::Pubkey;
use narrowswap::tick_manager::math::tick_to_sqrt_price_q64;

const Q64: u128 = 1u128 << 64;

fn key(byte: u8) -> Pubkey {
    Pubkey { bytes: [byte; 32] }
}

fn token_account(address: u8, mint: u8, owner: u8) -> TokenAccount {
    TokenAccount {
        key: key(address),
        mint: key(mint),
        owner: key(owner),
        amount: 0,
    }
}

fn pool(sqrt_price: u128, tick: i32, liquidity: u128) -> Pool {
    Pool {
        token_mint_0: key(1),
        token_mint_1: key(2),
        token_vault_0: key(3),
        token_vault_1: key(4),
        tick_manager_program: key(5),
        sqrt_price,
        tick_current: tick,
        liquidity,
        fee_rate: 3_000,
        bump: 254,
        initialized: true,
        ..Pool::default()
    }
}

fn context(pool: Pool) -> Swap {
    Swap {
        pool,
        pool_key: key(10),
        token_vault_0: token_account(3, 1, 10),
        token_vault_1: token_account(4, 2, 10),
        user_token_account_0: token_account(21, 1, 20),
        user_token_account_1: token_account(22, 2, 20),
        user: key(20),
    }
}

/// Data of a tick array with these slots in use, each with its net liquidity.
fn tick_array(start: i32, slots: &[(usize, i128)]) -> Vec<u8> {
    let mut data = vec![0u8; 8 + 4 + 4 + 32 + 8 + 88 * 80];
    data[8..12].copy_from_slice(&start.to_le_bytes());
    for (slot, net) in slots {
        let at = 56 + slot * 80;
        data[at..at + 16].copy_from_slice(&net.to_le_bytes());
        data[at + 64] = 1;
    }
    data
}

fn fresh() -> InitializePool {
    InitializePool {
        pool: Pool::default(),
        pool_bump: 253,
        token_mint_0: key(1),
        token_mint_1: key(2),
        token_vault_0: key(3),
        token_vault_1: key(4),
        tick_manager_program: key(5),
    }
}

#[test]
fn pool_is_set_up() {
    let mut ctx = fresh();
    assert_eq!(initialize_pool(&mut ctx, 7 * Q64, 3_000, 123), Ok(()));
    assert_eq!(
        ctx.pool,
        Pool {
            sqrt_price: 7 * Q64,
            tick_current: 123,
            bump: 253,
            ..pool(0, 0, 0)
        }
    );
    assert_eq!(Pool::LEN, 268);
    assert_eq!(MAX_TICK_CROSSINGS, 10);
}

#[test]
fn bad_pools_are_refused() {
    let mut ctx = fresh();
    assert_eq!(
        initialize_pool(&mut ctx, 0, 3_000, 0),
        Err(PoolError::InvalidSqrtPrice)
    );
    assert_eq!(
        initialize_pool(&mut ctx, 1, 0, 0),
        Err(PoolError::InvalidFeeRate)
    );
    assert_eq!(
        initialize_pool(&mut ctx, 1, 1_000_000, 0),
        Err(PoolError::InvalidFeeRate)
    );
    ctx.token_mint_0 = key(2);
    assert_eq!(
        initialize_pool(&mut ctx, 1, 999_999, 0),
        Err(PoolError::InvalidTokenOrder)
    );
    ctx.token_mint_1 = key(1);
    assert_eq!(
        initialize_pool(&mut ctx, 1, 1, 0),
        Err(PoolError::InvalidTokenOrder)
    );
    assert_eq!(ctx.pool, Pool::default());
}

#[test]
fn liquidity_changes_inside_the_range_only() {
    let mut ctx = ModifyLiquidity {
        pool: pool(Q64, 64, 1_000),
    };
    assert_eq!(modify_liquidity(&mut ctx, 500, 64, 128), Ok(()));
    assert_eq!(ctx.pool.liquidity, 1_500);
    assert_eq!(modify_liquidity(&mut ctx, -500, 64, 128), Ok(()));
    assert_eq!(ctx.pool, pool(Q64, 64, 1_000));
    assert_eq!(modify_liquidity(&mut ctx, 500, 0, 64), Ok(()));
    assert_eq!(modify_liquidity(&mut ctx, 500, 65, 128), Ok(()));
    assert_eq!(ctx.pool.liquidity, 1_000);
    assert_eq!(modify_liquidity(&mut ctx, -5_000, 0, 128), Ok(()));
    assert_eq!(ctx.pool.liquidity, 0);
    ctx.pool.initialized = false;
    assert_eq!(
        modify_liquidity(&mut ctx, 1, 0, 128),
        Err(PoolError::PoolNotInitialized)
    );
}

#[test]
fn liquidity_delta_saturates() {
    assert_eq!(apply_liquidity_delta(5, 7), 12);
    assert_eq!(apply_liquidity_delta(5, -3), 2);
    assert_eq!(apply_liquidity_delta(5, -7), 0);
    assert_eq!(apply_liquidity_delta(u128::MAX, 1), u128::MAX);
    assert_eq!(apply_liquidity_delta(u128::MAX, i128::MIN), i128::MAX as u128);
}

#[test]
fn vault_transfers_are_signed_by_the_pool() {
    let mut ctx = TransferFromVault {
        pool: pool(Q64, 0, 1),
        pool_key: key(10),
        vault: token_account(3, 1, 10),
        destination: token_account(21, 1, 20),
    };
    assert_eq!(transfer_from_vault(&ctx, 1, 0), Ok(None));
    let ordered = transfer_from_vault(&ctx, 0, 55).unwrap().unwrap();
    assert_eq!(ordered.transfer.from, key(3));
    assert_eq!(ordered.transfer.to, key(21));
    assert_eq!(ordered.transfer.authority, key(10));
    assert_eq!(ordered.transfer.amount, 55);
    assert_eq!(&ordered.seeds.label, b"pool");
    assert_eq!(ordered.seeds.token_mint_0, key(1));
    assert_eq!(ordered.seeds.token_mint_1, key(2));
    assert_eq!(ordered.seeds.fee_rate, 3_000u32.to_le_bytes());
    assert_eq!(ordered.seeds.bump, [254]);
    assert_eq!(
        transfer_from_vault(&ctx, 1, 55),
        Err(PoolError::InvalidTokenAccount)
    );
    ctx.vault.mint = key(2);
    assert!(transfer_from_vault(&ctx, 9, 55).is_ok());
}

#[test]
fn ticks_at_prices() {
    assert_eq!(tick_at_sqrt_price(0), -443_636);
    assert_eq!(tick_at_sqrt_price(4_295_048_015), -443_636);
    assert_eq!(tick_at_sqrt_price(Q64 - 1), -1);
    assert_eq!(tick_at_sqrt_price(Q64), 0);
    assert_eq!(tick_at_sqrt_price(2 * Q64), 13_863);
    assert_eq!(tick_at_sqrt_price(12 * Q64), 49_700);
    assert_eq!(tick_at_sqrt_price(u128::MAX), 443_636);
}

#[test]
fn tick_of_a_tick_price_is_that_tick() {
    for tick in [-443_636, -100_000, -64, -1, 0, 1, 64, 13_863, 443_635, 443_636] {
        let price = tick_to_sqrt_price_q64(tick).unwrap();
        assert_eq!(tick_at_sqrt_price(price), tick);
        if tick > -443_636 {
            assert_eq!(tick_at_sqrt_price(price - 1), tick - 1);
        }
    }
}

#[test]
fn target_is_the_nearest_boundary() {
    let below = 18_387_811_781_193_591_352;
    let above = 18_505_865_242_158_250_041;
    let arrays = vec![
        tick_array(0, &[(1, 5), (40, 6)]),
        vec![1, 2, 3],
        tick_array(-5_632, &[(3, 7), (87, 8)]),
    ];
    assert_eq!(find_next_sqrt_price_target(&arrays, 0, true, 9), Ok(below));
    assert_eq!(find_next_sqrt_price_target(&arrays, 0, false, 9), Ok(above));
    assert_eq!(find_next_sqrt_price_target(&arrays, 64, true, 9), Ok(above));
    assert_eq!(find_next_sqrt_price_target(&[], 64, true, 9), Ok(9));
    assert_eq!(
        find_next_sqrt_price_target(&arrays, 3_000, false, 9),
        Ok(9)
    );
}

#[test]
fn every_slot_of_an_array_counts() {
    let arrays = vec![tick_array(0, &[(0, 5), (1, 5)])];
    let second = 18_505_865_242_158_250_041;
    for tick in [-64, -63, -1] {
        assert_eq!(find_next_sqrt_price_target(&arrays, tick, false, 9), Ok(Q64));
        assert_eq!(find_next_sqrt_price_target(&arrays, tick, true, 9), Ok(9));
    }
    assert_eq!(
        find_next_sqrt_price_target(&arrays, 0, false, 9),
        Ok(second)
    );
    assert_eq!(find_next_sqrt_price_target(&arrays, 0, true, 9), Ok(Q64));
    assert_eq!(find_next_sqrt_price_target(&arrays, 63, true, 9), Ok(Q64));
    assert_eq!(find_next_sqrt_price_target(&arrays, 64, true, 9), Ok(second));
    assert_eq!(find_next_sqrt_price_target(&arrays, 64, false, 9), Ok(9));
    assert_eq!(find_next_boundary(&arrays, -1, false), Ok(Some(0)));
    assert_eq!(find_next_boundary(&arrays, 64, false), Ok(None));
}

#[test]
fn slots_are_read_where_arrays_hold_them() {
    let mut data = vec![0u8; 7_096];
    data[56 + 64] = 1;
    assert_eq!(find_next_boundary(&[data.clone()], -1, false), Ok(Some(0)));
    data[56 + 64] = 0;
    data[48 + 64] = 1;
    assert_eq!(find_next_boundary(&[data], -1, false), Ok(None));
}

#[test]
fn boundary_without_a_price_is_an_error() {
    let arrays = vec![tick_array(1_000_000, &[(0, 5)])];
    assert_eq!(
        find_next_sqrt_price_target(&arrays, 0, false, 9),
        Err(PoolError::InvalidTickArray)
    );
    let arrays = vec![tick_array(i32::MAX, &[(87, 5)])];
    assert_eq!(
        find_next_sqrt_price_target(&arrays, i32::MIN, false, 9),
        Err(PoolError::InvalidTickArray)
    );
}

#[test]
fn net_liquidity_is_read_from_the_first_array() {
    let arrays = vec![
        tick_array(5_632, &[(0, 1)]),
        tick_array(0, &[(0, 300), (1, 44)]),
        tick_array(-64, &[(1, 77)]),
    ];
    let next = 18_505_865_242_158_250_041;
    assert_eq!(read_liquidity_net_at_tick(&arrays, Q64, false), Ok(300));
    assert_eq!(read_liquidity_net_at_tick(&arrays, Q64, true), Ok(-300));
    assert_eq!(read_liquidity_net_at_tick(&arrays, next, false), Ok(44));
    assert_eq!(read_liquidity_net_at_tick(&arrays, next, true), Ok(-44));
    assert_eq!(read_liquidity_net_at_tick(&arrays, next - 1, true), Ok(0));
    assert_eq!(read_liquidity_net_at_tick(&arrays, 2 * Q64, true), Ok(0));
    assert_eq!(read_liquidity_net_at_tick(&[], Q64, true), Ok(0));
    let below = vec![tick_array(-5_632, &[(87, 500)])];
    assert_eq!(
        read_liquidity_net_at_tick(&below, 18_387_811_781_193_591_352, true),
        Ok(-500)
    );
    let mut short = tick_array(0, &[]);
    short.truncate(71);
    let short = vec![short];
    assert_eq!(
        read_liquidity_net_at_tick(&short, Q64, true),
        Err(PoolError::InvalidTickArray)
    );
    let lowest = vec![tick_array(0, &[(0, i128::MIN)])];
    assert_eq!(
        read_liquidity_net_at_tick(&lowest, Q64, true),
        Err(PoolError::InvalidTickArray)
    );
    assert_eq!(
        read_liquidity_net_at_tick(&lowest, Q64, false),
        Ok(i128::MIN)
    );
}

#[test]
fn swap_that_stops_short() {
    let mut ctx = context(pool(2 * Q64, 13_863, 1_000_000));
    let receipt = swap(&mut ctx, &[], 1_000, true, Q64, 3_980).unwrap();
    assert_eq!(receipt.payment.from, key(21));
    assert_eq!(receipt.payment.to, key(3));
    assert_eq!(receipt.payment.authority, key(20));
    assert_eq!(receipt.payment.amount, 998);
    assert_eq!(receipt.payout.transfer.from, key(4));
    assert_eq!(receipt.payout.transfer.to, key(22));
    assert_eq!(receipt.payout.transfer.authority, key(10));
    assert_eq!(receipt.payout.transfer.amount, 3_980);
    assert_eq!(&receipt.payout.seeds.label, b"pool");
    assert_eq!(receipt.event.pool, key(10));
    assert!(receipt.event.zero_for_one);
    assert_eq!(receipt.event.amount_in, 998);
    assert_eq!(receipt.event.amount_out, 3_980);
    assert_eq!(receipt.event.sqrt_price_before, 2 * Q64);
    assert_eq!(receipt.event.sqrt_price_after, 36_820_068_929_972_737_593);
    assert_eq!(receipt.event.tick_before, 13_863);
    assert_eq!(receipt.event.tick_after, 13_823);
    assert_eq!(receipt.event.fee_amount, 2);
    assert_eq!(
        ctx.pool,
        Pool {
            fee_growth_global_0: 36_893_488_147_419,
            ..pool(36_820_068_929_972_737_593, 13_823, 1_000_000)
        }
    );
}

#[test]
fn swap_down_across_a_boundary() {
    let mut ctx = context(pool(2 * Q64, 13_863, 1_000));
    let arrays = vec![tick_array(0, &[(0, 300)])];
    let receipt = swap(&mut ctx, &arrays, 1_000_000, true, 1, 1_699).unwrap();
    assert_eq!(receipt.event.amount_in, 500 + 996_500);
    assert_eq!(receipt.event.amount_out, 1_000 + 699);
    assert_eq!(receipt.event.fee_amount, 2 + 2_998);
    assert_eq!(
        ctx.pool,
        Pool {
            fee_growth_global_0: (2u128 << 64) / 1_000 + (2_998u128 << 64) / 700,
            protocol_fee_0: 300,
            ..pool(12_948_990_975_318_553, -145_240, 700)
        }
    );
}

#[test]
fn swap_up_across_a_boundary() {
    let mut ctx = context(pool(Q64, 0, 1_000_000));
    let arrays = vec![tick_array(0, &[(0, 7), (1, 500_000)])];
    let receipt = swap(&mut ctx, &arrays, 20_000, false, u128::MAX, 0).unwrap();
    assert_eq!(receipt.payment.from, key(22));
    assert_eq!(receipt.payment.to, key(4));
    assert_eq!(receipt.payout.transfer.from, key(3));
    assert_eq!(receipt.payout.transfer.to, key(21));
    assert_eq!(receipt.event.amount_in, 3_205 + 16_734);
    assert_eq!(receipt.event.amount_out, 3_194 + 16_444);
    assert_eq!(receipt.event.fee_amount, 10 + 51);
    assert_eq!(
        ctx.pool,
        Pool {
            fee_growth_global_1: (10u128 << 64) / 1_000_000 + (51u128 << 64) / 1_500_000,
            protocol_fee_1: 6,
            ..pool(18_711_657_119_044_553_798, 285, 1_500_000)
        }
    );
}

#[test]
fn swap_over_several_boundaries_and_arrays() {
    let mut ctx = context(pool(Q64, 0, 1_000_000));
    let arrays = vec![
        tick_array(-5_632, &[(87, 500_000), (86, -1_000_000)]),
        tick_array(0, &[(40, 9)]),
    ];
    let receipt = swap(&mut ctx, &arrays, 100_000, true, Q64 / 2, 0).unwrap();
    assert_eq!(receipt.event.amount_in, 3_205 + 1_608 + 94_887);
    assert_eq!(receipt.event.amount_out, 3_194 + 1_592 + 88_139);
    assert_eq!(receipt.event.fee_amount, 10 + 5 + 285);
    assert_eq!(
        ctx.pool,
        Pool {
            fee_growth_global_0: (10u128 << 64) / 1_000_000
                + (5u128 << 64) / 500_000
                + (285u128 << 64) / 1_500_000,
            protocol_fee_0: 30,
            ..pool(17_245_144_886_265_660_799, -1_348, 1_500_000)
        }
    );
}

#[test]
fn swap_stops_after_ten_crossings() {
    let mut slots = Vec::new();
    for slot in 1..20 {
        slots.push((slot, 1_000));
    }
    let mut ctx = context(pool(Q64, 0, 1_000_000));
    let arrays = vec![tick_array(0, &slots)];
    let receipt = swap(&mut ctx, &arrays, 1_000_000_000, false, 4 * Q64, 0).unwrap();
    assert_eq!(receipt.event.amount_in, 32_667);
    assert_eq!(receipt.event.amount_out, 31_625);
    assert_eq!(receipt.event.fee_amount, 101);
    assert_eq!(ctx.pool.tick_current, 640);
    assert_eq!(ctx.pool.sqrt_price, 19_046_555_699_506_548_409);
    assert_eq!(ctx.pool.liquidity, 1_010_000);
}

#[test]
fn swap_crosses_a_gap_without_liquidity() {
    let mut ctx = context(pool(Q64, 0, 1_000));
    let arrays = vec![tick_array(-5_632, &[(87, 1_000), (86, -2_000)])];
    let receipt = swap(&mut ctx, &arrays, 1_000_000, true, Q64 / 2, 0).unwrap();
    assert_eq!(receipt.event.amount_in, 4 + 1_988);
    assert_eq!(receipt.event.amount_out, 3 + 987);
    assert_eq!(receipt.event.fee_amount, 1 + 6);
    assert_eq!(ctx.pool.liquidity, 2_000);
    assert_eq!(ctx.pool.sqrt_price, Q64 / 2);
    assert_eq!(ctx.pool.tick_current, -13_864);
}

#[test]
fn nothing_is_taken_where_no_liquidity_is_left() {
    let mut ctx = context(pool(Q64, 0, 1_000));
    let arrays = vec![tick_array(-5_632, &[(87, 1_000)])];
    let receipt = swap(&mut ctx, &arrays, 1_000_000, true, 0, 0).unwrap();
    assert_eq!(receipt.event.amount_in, 4);
    assert_eq!(receipt.event.amount_out, 3);
    assert_eq!(receipt.event.fee_amount, 1);
    assert_eq!(ctx.pool.liquidity, 0);
    assert_eq!(ctx.pool.sqrt_price, 18_387_811_781_193_591_352);
    assert_eq!(ctx.pool.tick_current, -65);
}

#[test]
fn swap_takes_no_more_than_the_amount() {
    for amount in [1_000u64, 50_000, 3_000_000, 1 << 40] {
        for (price, liquidity) in [(Q64, 1_000_000), (1 << 50, 1 << 40), (12 * Q64, 1 << 30)] {
            let tick = tick_at_sqrt_price(price);
            let mut ctx = context(pool(price, tick, liquidity));
            if let Ok(receipt) = swap(&mut ctx, &[], amount, true, 1, 0) {
                assert_eq!(receipt.event.amount_in + receipt.event.fee_amount, amount);
            }
            let mut ctx = context(pool(price, tick, liquidity));
            if let Ok(receipt) = swap(&mut ctx, &[], amount, false, u128::MAX, 0) {
                assert_eq!(receipt.event.amount_in + receipt.event.fee_amount, amount);
            }
        }
    }
}

#[test]
fn active_liquidity_follows_the_positions_in_range() {
    // Liquidity, lower and upper tick of the open positions.
    let positions: [(i128, i32, i32); 3] =
        [(1_000_000, -640, 640), (500_000, 64, 640), (200_000, -64, 128)];
    let active = |tick: i32| {
        let mut sum = 0;
        for (liquidity, lower, upper) in positions {
            if lower <= tick && tick < upper {
                sum += liquidity as u128;
            }
        }
        sum
    };
    let arrays = vec![
        tick_array(-5_632, &[(78, 1_000_000), (87, 200_000)]),
        tick_array(0, &[(1, 500_000), (2, -200_000), (10, -1_500_000)]),
    ];
    for amount in [10, 1_000, 10_000, 40_000, 1_000_000] {
        for zero_for_one in [true, false] {
            let limit = if zero_for_one { Q64 / 2 } else { 2 * Q64 };
            let mut ctx = context(pool(Q64, 0, active(0)));
            assert!(swap(&mut ctx, &arrays, amount, zero_for_one, limit, 0).is_ok());
            assert_eq!(ctx.pool.liquidity, active(ctx.pool.tick_current));
        }
    }
}

#[test]
fn swap_to_the_price_limit() {
    let mut ctx = context(pool(2 * Q64, 13_863, 1_000));
    let receipt = swap(&mut ctx, &[], 1_000_000, true, Q64, 0).unwrap();
    assert_eq!(receipt.event.sqrt_price_after, Q64);
    assert_eq!(receipt.event.amount_in, 500);
    assert_eq!(receipt.event.fee_amount, 2);
    assert_eq!(ctx.pool.liquidity, 1_000);
    assert_eq!(ctx.pool.tick_current, 0);
}

#[test]
fn swap_onto_a_tick_applies_its_net_liquidity() {
    let mut ctx = context(pool(2 * Q64, 13_863, 1_000));
    let arrays = vec![tick_array(0, &[(0, 300)])];
    assert!(swap(&mut ctx, &arrays, 1_000_000, true, Q64, 0).is_ok());
    assert_eq!(ctx.pool.sqrt_price, Q64);
    assert_eq!(ctx.pool.liquidity, 700);
    assert_eq!(ctx.pool.tick_current, -1);

    let below = 18_387_811_781_193_591_352;
    let mut ctx = context(pool(Q64, 0, 1_000));
    let arrays = vec![tick_array(-5_632, &[(87, 500)])];
    assert!(swap(&mut ctx, &arrays, 1_000_000, true, below, 0).is_ok());
    assert_eq!(ctx.pool.sqrt_price, below);
    assert_eq!(ctx.pool.liquidity, 500);
    assert_eq!(ctx.pool.tick_current, -65);

    assert!(swap(&mut ctx, &arrays, 1_000_000, false, Q64, 0).is_ok());
    assert_eq!(ctx.pool.liquidity, 1_000);
    assert_eq!(ctx.pool.tick_current, 0);
}

#[test]
fn swap_heads_for_the_boundary_beyond_its_limit() {
    let arrays = vec![tick_array(0, &[(0, 300), (1, 500_000), (2, 7)])];
    let limit = Q64 + Q64 / 2;
    let mut ctx = context(pool(2 * Q64, 13_863, 1_000));
    let ahead = vec![tick_array(0, &[(0, 300)])];
    let receipt = swap(&mut ctx, &ahead, 1_000_000, true, limit, 0).unwrap();
    assert_eq!(receipt.event.amount_in, 500);
    assert_eq!(receipt.event.amount_out, 1_000);
    assert_eq!(receipt.event.fee_amount, 2);
    assert_eq!(ctx.pool.sqrt_price, Q64);
    assert_eq!(ctx.pool.tick_current, -1);
    assert_eq!(ctx.pool.liquidity, 700);

    let mut ctx = context(pool(2 * Q64, 13_863, 1_000_000));
    let receipt = swap(&mut ctx, &ahead, 400_000, true, limit, 0).unwrap();
    assert_eq!(receipt.event.amount_in, 398_801);
    assert_eq!(receipt.event.amount_out, 887_405);
    assert_eq!(ctx.pool.sqrt_price, 20_523_747_300_522_420_578);
    assert_eq!(ctx.pool.tick_current, 2_134);

    let mut ctx = context(pool(Q64, 0, 1_000_000));
    let receipt = swap(&mut ctx, &arrays, 1_000_000, false, Q64 + 1, 0).unwrap();
    assert_eq!(receipt.event.amount_in, 3_205);
    assert_eq!(ctx.pool.sqrt_price, 18_505_865_242_158_250_041);
    assert_eq!(ctx.pool.tick_current, 64);
    assert_eq!(ctx.pool.liquidity, 1_500_000);
}

#[test]
fn limit_holds_without_a_boundary_beyond_it() {
    let arrays = vec![tick_array(-5_632, &[(87, 10)]), tick_array(0, &[(1, 20)])];
    for amount in [50, 7_000, 1_000_000] {
        let mut ctx = context(pool(Q64, 0, 1_000));
        assert!(swap(&mut ctx, &arrays, amount, true, Q64 / 2, 0).is_ok());
        assert!(ctx.pool.sqrt_price >= Q64 / 2);
        assert!(ctx.pool.sqrt_price <= Q64);
        let mut ctx = context(pool(Q64, 0, 1_000));
        assert!(swap(&mut ctx, &arrays, amount, false, 2 * Q64, 0).is_ok());
        assert!(ctx.pool.sqrt_price <= 2 * Q64);
        assert!(ctx.pool.sqrt_price >= Q64);
    }
}

#[test]
fn boundary_is_found_by_tick_whatever_the_price() {
    let mut ctx = context(pool(Q64, 5_000, 1_000_000));
    let arrays = vec![tick_array(0, &[(64, 300_000)])];
    let receipt = swap(&mut ctx, &arrays, 10_000, true, Q64 / 2, 0).unwrap();
    assert_eq!(receipt.event.amount_in, 9_970);
    assert_eq!(receipt.event.amount_out, 9_871);
    assert_eq!(receipt.event.fee_amount, 30);
    assert_eq!(ctx.pool.sqrt_price, 18_630_658_112_124_435_845);
    assert_eq!(ctx.pool.tick_current, 198);

    let mut ctx = context(pool(Q64, -100, 1_000_000));
    let arrays = vec![tick_array(-64, &[(0, 300_000)])];
    let receipt = swap(&mut ctx, &arrays, 1_000, false, 2 * Q64, 0).unwrap();
    assert_eq!(receipt.event.amount_in, 998);
    assert_eq!(receipt.event.amount_out, 996);
    assert_eq!(ctx.pool.sqrt_price, 18_428_370_987_834_680_439);
    assert_eq!(ctx.pool.tick_current, -20);
}

#[test]
fn swaps_are_refused() {
    let good = context(pool(2 * Q64, 13_863, 1_000_000));
    let mut ctx = good;
    assert_eq!(
        swap(&mut ctx, &[], 0, true, Q64, 0),
        Err(PoolError::ZeroAmount)
    );
    assert_eq!(
        swap(&mut ctx, &[], 1_000, true, 2 * Q64, 0),
        Err(PoolError::InvalidPriceLimit)
    );
    assert_eq!(
        swap(&mut ctx, &[], 1_000, false, 2 * Q64, 0),
        Err(PoolError::InvalidPriceLimit)
    );
    assert_eq!(
        swap(&mut ctx, &[], 1, true, Q64, 0),
        Err(PoolError::ZeroOutput)
    );
    assert_eq!(
        swap(&mut ctx, &[], 1_000, true, Q64, 3_981),
        Err(PoolError::SlippageExceeded)
    );
    let arrays = vec![tick_array(-1_000_000, &[(0, 5)])];
    assert_eq!(
        swap(&mut ctx, &arrays, 1_000, true, Q64, 0),
        Err(PoolError::InvalidTickArray)
    );
    assert_eq!(ctx, good);
    ctx.pool.liquidity = 0;
    assert_eq!(
        swap(&mut ctx, &[], 1_000, true, Q64, 0),
        Err(PoolError::InsufficientLiquidity)
    );
    ctx.pool.initialized = false;
    assert_eq!(
        swap(&mut ctx, &[], 1_000, true, Q64, 0),
        Err(PoolError::PoolNotInitialized)
    );
    ctx.user_token_account_1.owner = key(99);
    assert_eq!(
        swap(&mut ctx, &[], 1_000, true, Q64, 0),
        Err(PoolError::InvalidTokenAccount)
    );
    let mut ctx = good;
    ctx.user_token_account_0.mint = key(99);
    assert_eq!(
        swap(&mut ctx, &[], 1_000, true, Q64, 0),
        Err(PoolError::InvalidTokenAccount)
    );
}

#[test]
fn swap_beyond_sixty_four_bits() {
    let mut ctx = context(pool(Q64 >> 20, -277_273, 1u128 << 70));
    assert_eq!(
        swap(&mut ctx, &[], 1 << 60, false, Q64 >> 19, 0),
        Err(PoolError::AmountOverflow)
    );
}

#[test]
fn unreadable_slot_stops_a_crossing() {
    let mut ctx = context(pool(2 * Q64, 13_863, 1_000));
    let arrays = vec![tick_array(0, &[(0, i128::MIN)])];
    assert_eq!(
        swap(&mut ctx, &arrays, 1_000_000, true, 1, 0),
        Err(PoolError::InvalidTickArray)
    );
}
