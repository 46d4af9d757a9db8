//! Instructions on tick arrays and the bitmap.

use narrowswap::pubkey::Pubkey;
use narrowswap::tick_manager::math::TickManagerError;
use narrowswap::tick_manager::state::{TickArray, TickBitmap, TickData};
use narrowswap::tick_manager::{
    cross_tick, get_next_initialized_tick, initialize_tick_array, update_tick, CrossTick,
    GetNextTick, InitializeTickArray, UpdateTick,
};

fn key(byte: u8) -> Pubkey {
    Pubkey { bytes: [byte; 32] }
}

fn empty_tick() -> TickData {
    TickData {
        liquidity_net: 0,
        liquidity_gross: 0,
        fee_growth_outside_0: 0,
        fee_growth_outside_1: 0,
        initialized: 0,
        _padding: [0; 15],
    }
}

fn empty_array(start: i32) -> TickArray {
    TickArray {
        start_tick_index: start,
        _padding0: [0; 4],
        pool: key(7),
        _padding1: [0; 8],
        ticks: [[empty_tick(); 11]; 8],
    }
}

fn empty_bitmap() -> TickBitmap {
    TickBitmap {
        pool: Pubkey::default(),
        word_index: 0,
        initialized_arrays: 0,
        _padding: [0; 3],
    }
}

fn context(start: i32) -> UpdateTick {
    UpdateTick {
        tick_array: empty_array(start),
        tick_bitmap: empty_bitmap(),
        pool: key(7),
    }
}

#[test]
fn array_is_initialized_on_its_grid() {
    let mut ctx = InitializeTickArray {
        tick_array: empty_array(0),
        pool: key(9),
    };
    assert_eq!(initialize_tick_array(&mut ctx, -5_632), Ok(()));
    assert_eq!(ctx.tick_array.start_tick_index, -5_632);
    assert_eq!(ctx.tick_array.pool, key(9));
    assert_eq!(
        initialize_tick_array(&mut ctx, 64),
        Err(TickManagerError::InvalidTickSpacing)
    );
    assert_eq!(
        initialize_tick_array(&mut ctx, -444_928),
        Err(TickManagerError::TickOutOfRange)
    );
    assert_eq!(ctx.tick_array.start_tick_index, -5_632);
}

#[test]
fn account_sizes() {
    assert_eq!(TickArray::LEN, 7_096);
    assert_eq!(TickBitmap::LEN, 48);
}

#[test]
fn ticks_are_found_in_their_slots() {
    let mut array = empty_array(0);
    array.get_tick_mut(64 * 12).unwrap().liquidity_gross = 5;
    assert_eq!(array.ticks[1][1].liquidity_gross, 5);
    assert_eq!(array.get_tick(64 * 12).unwrap().liquidity_gross, 5);
    assert_eq!(array.get_tick(64 * 12 + 63).unwrap().liquidity_gross, 5);
    assert!(array.get_tick(-1).is_none());
    assert!(array.get_tick(5_632).is_none());
    assert!(array.get_tick_mut(5_632).is_none());
}

#[test]
fn bitmap_bits() {
    let mut bitmap = empty_bitmap();
    bitmap.set_bit(3);
    bitmap.set_bit(6);
    assert_eq!(bitmap.initialized_arrays, 0b0100_1000);
    assert!(bitmap.is_set(3));
    assert!(!bitmap.is_set(4));
    assert_eq!(bitmap.next_initialized_array_from(0), Some(3));
    assert_eq!(bitmap.next_initialized_array_from(4), Some(6));
    assert_eq!(bitmap.next_initialized_array_from(7), None);
    assert_eq!(bitmap.prev_initialized_array_from(7), Some(6));
    assert_eq!(bitmap.prev_initialized_array_from(5), Some(3));
    assert_eq!(bitmap.prev_initialized_array_from(2), None);
    bitmap.clear_bit(3);
    assert_eq!(bitmap.initialized_arrays, 0b0100_0000);
}

#[test]
fn adding_liquidity_takes_a_tick_into_use() {
    let mut ctx = context(0);
    assert_eq!(update_tick(&mut ctx, 128, 9, 500, false, 11, 12), Ok(()));
    let tick = *ctx.tick_array.get_tick(128).unwrap();
    assert_eq!(tick.liquidity_gross, 500);
    assert_eq!(tick.liquidity_net, 500);
    assert_eq!(tick.initialized, 1);
    assert_eq!(ctx.tick_bitmap.pool, key(7));
    assert_eq!(ctx.tick_bitmap.word_index, 9);
    assert!(ctx.tick_bitmap.is_set(7));

    assert_eq!(update_tick(&mut ctx, 192, 9, 500, true, 11, 12), Ok(()));
    assert_eq!(ctx.tick_array.get_tick(192).unwrap().liquidity_net, -500);
}

#[test]
fn removing_undoes_adding() {
    let before = context(0);
    let mut ctx = before;
    assert_eq!(update_tick(&mut ctx, 128, 9, 500, true, 0, 0), Ok(()));
    assert_ne!(ctx.tick_array, before.tick_array);
    assert_eq!(update_tick(&mut ctx, 128, 9, -500, true, 0, 0), Ok(()));
    assert_eq!(ctx.tick_array, before.tick_array);
    assert!(!ctx.tick_bitmap.is_set(7));
}

#[test]
fn wrong_updates_are_refused() {
    let mut ctx = context(0);
    let before = ctx;
    assert_eq!(
        update_tick(&mut ctx, 443_648, 9, 5, false, 0, 0),
        Err(TickManagerError::TickOutOfRange)
    );
    assert_eq!(
        update_tick(&mut ctx, 1, 9, 5, false, 0, 0),
        Err(TickManagerError::InvalidTickSpacing)
    );
    assert_eq!(
        update_tick(&mut ctx, 5_632, 9, 5, false, 0, 0),
        Err(TickManagerError::TickNotInitialized)
    );
    assert_eq!(
        update_tick(&mut ctx, 64, 9, -5, false, 0, 0),
        Err(TickManagerError::TickOutOfRange)
    );
    assert_eq!(
        update_tick(&mut ctx, 64, 8, 5, false, 0, 0),
        Err(TickManagerError::BitmapOutOfRange)
    );
    ctx.tick_bitmap.pool = key(8);
    assert_eq!(
        update_tick(&mut ctx, 64, 9, 5, false, 0, 0),
        Err(TickManagerError::BitmapOutOfRange)
    );
    ctx.tick_bitmap.pool = key(7);
    ctx.tick_bitmap.word_index = 3;
    assert_eq!(
        update_tick(&mut ctx, 64, 9, 5, false, 0, 0),
        Err(TickManagerError::BitmapOutOfRange)
    );
    assert_eq!(ctx.tick_array, before.tick_array);
}

#[test]
fn crossing_flips_the_outside_fees() {
    let mut array = empty_array(0);
    let tick = array.get_tick_mut(64).unwrap();
    tick.initialized = 1;
    tick.liquidity_net = -9;
    tick.fee_growth_outside_0 = 30;
    tick.fee_growth_outside_1 = 50;
    let before = array;
    let mut ctx = CrossTick {
        tick_array: array,
        pool: key(7),
    };
    assert_eq!(cross_tick(&mut ctx, 64, 100, 20), Ok(-9));
    let crossed = *ctx.tick_array.get_tick(64).unwrap();
    assert_eq!(crossed.fee_growth_outside_0, 70);
    assert_eq!(crossed.fee_growth_outside_1, u128::MAX - 29);
    assert_eq!(cross_tick(&mut ctx, 64, 100, 20), Ok(-9));
    assert_eq!(ctx.tick_array, before);
    assert_eq!(
        cross_tick(&mut ctx, 128, 0, 0),
        Err(TickManagerError::TickNotInitialized)
    );
    assert_eq!(
        cross_tick(&mut ctx, -64, 0, 0),
        Err(TickManagerError::TickNotInitialized)
    );
}

#[test]
fn next_initialized_tick_of_an_array() {
    let mut array = empty_array(0);
    array.get_tick_mut(128).unwrap().initialized = 1;
    array.get_tick_mut(640).unwrap().initialized = 1;
    let ctx = GetNextTick {
        tick_array: array,
        pool: key(7),
    };
    assert_eq!(get_next_initialized_tick(&ctx, 320, true), Ok(128));
    assert_eq!(get_next_initialized_tick(&ctx, 320, false), Ok(640));
    assert_eq!(get_next_initialized_tick(&ctx, 128, false), Ok(640));
    assert_eq!(
        get_next_initialized_tick(&ctx, 128, true),
        Err(TickManagerError::TickNotInitialized)
    );
    assert_eq!(
        get_next_initialized_tick(&ctx, 640, false),
        Err(TickManagerError::TickNotInitialized)
    );
}

#[test]
fn next_tick_is_whole_spacings_away() {
    let mut array = empty_array(0);
    array.get_tick_mut(0).unwrap().initialized = 1;
    array.get_tick_mut(64).unwrap().initialized = 1;
    let ctx = GetNextTick {
        tick_array: array,
        pool: key(7),
    };
    assert_eq!(get_next_initialized_tick(&ctx, 100, true), Ok(36));
    assert_eq!(get_next_initialized_tick(&ctx, 9_999, true), Ok(79));
    assert_eq!(get_next_initialized_tick(&ctx, 1, false), Ok(65));
    assert_eq!(get_next_initialized_tick(&ctx, -100, false), Ok(28));
    assert_eq!(
        get_next_initialized_tick(&ctx, 64, false),
        Err(TickManagerError::TickNotInitialized)
    );
}

#[test]
fn addresses_are_ordered_by_bytes() {
    let mut low = key(5);
    let mut high = key(5);
    assert!(!low.less_than(&high));
    assert_eq!(low, high);
    high.bytes[31] = 6;
    assert!(low.less_than(&high));
    assert!(!high.less_than(&low));
    low.bytes[0] = 9;
    assert!(high.less_than(&low));
    assert!(Pubkey::default().is_default());
    assert!(!low.is_default());
    assert_ne!(low, high);
}

#[test]
fn ticks_add_up_their_positions() {
    let mut ctx = context(0);
    assert_eq!(update_tick(&mut ctx, 128, 9, 500, false, 0, 0), Ok(()));
    assert_eq!(update_tick(&mut ctx, 128, 9, 70, true, 0, 0), Ok(()));
    let tick = *ctx.tick_array.get_tick(128).unwrap();
    assert_eq!(tick.liquidity_gross, 570);
    assert_eq!(tick.liquidity_net, 430);
    assert_eq!(update_tick(&mut ctx, 128, 9, -500, false, 0, 0), Ok(()));
    let tick = *ctx.tick_array.get_tick(128).unwrap();
    assert_eq!(tick.liquidity_gross, 70);
    assert_eq!(tick.liquidity_net, -70);
    assert_eq!(tick.initialized, 1);
}

#[test]
fn range_adds_below_what_it_takes_above() {
    let mut ctx = context(0);
    assert_eq!(update_tick(&mut ctx, 128, 9, 500, false, 0, 0), Ok(()));
    assert_eq!(update_tick(&mut ctx, 640, 9, 500, true, 0, 0), Ok(()));
    let lower = ctx.tick_array.get_tick(128).unwrap().liquidity_net;
    let upper = ctx.tick_array.get_tick(640).unwrap().liquidity_net;
    assert_eq!(lower + upper, 0);
}

#[test]
fn bitmap_bit_stays_while_its_array_is_in_use() {
    let mut ctx = context(0);
    assert_eq!(update_tick(&mut ctx, 128, 9, 500, false, 0, 0), Ok(()));
    assert_eq!(update_tick(&mut ctx, 640, 9, 500, true, 0, 0), Ok(()));
    assert!(ctx.tick_bitmap.is_set(7));
    assert!(ctx.tick_array.is_in_use_besides(2));
    assert_eq!(update_tick(&mut ctx, 128, 9, -500, false, 0, 0), Ok(()));
    assert_eq!(ctx.tick_array.get_tick(128).unwrap().initialized, 0);
    assert!(ctx.tick_bitmap.is_set(7));
    assert!(!ctx.tick_array.is_in_use_besides(10));
    assert_eq!(update_tick(&mut ctx, 640, 9, -500, true, 0, 0), Ok(()));
    assert!(!ctx.tick_bitmap.is_set(7));
}
