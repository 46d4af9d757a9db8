//! Ticks, prices and bitmap places.

use narrowswap::arith::{
    div_wide, mul_div, mul_div_up, mul_wide, mul_wide_by, saturating_mul, triple_at_most,
};
use narrowswap::bytes::{le_bytes, read_i128, read_i32};
use narrowswap::position_mgr::bitmap_word_index_for_tick;
use narrowswap::tick_manager::math::{
    array_start_to_bitmap_index, bitmap_word_and_bit, tick_to_array_start_tick,
    tick_to_sqrt_price_q64, validate_tick, validate_tick_spacing, TickManagerError,
    ARRAYS_PER_BITMAP_WORD, ARRAY_SPAN, MAX_TICK, MIN_ARRAY_START, MIN_TICK, Q64_RESOLUTION,
    TICKS_PER_ARRAY, TICK_SPACING,
};

#[test]
fn test_tick_to_sqrt_price_tick_zero() {
    let result = tick_to_sqrt_price_q64(0).unwrap();
    let expected: u128 = 1u128 << 64;
    let diff = if result > expected {
        result - expected
    } else {
        expected - result
    };
    assert!(
        diff < 1_000_000,
        "tick 0 result={} expected={}",
        result,
        expected
    );
}

#[test]
fn test_tick_to_sqrt_price_negative() {
    let result = tick_to_sqrt_price_q64(-69082).unwrap();
    assert!(
        result < (1u128 << 64),
        "negative tick should give sqrt_price < 1"
    );
    assert!(result > 0, "result should be positive");
}

#[test]
fn test_array_start_tick() {
    let array_size = TICKS_PER_ARRAY as i32 * TICK_SPACING;
    assert_eq!(tick_to_array_start_tick(0), 0);
    assert_eq!(tick_to_array_start_tick(array_size - 1), 0);
    assert_eq!(tick_to_array_start_tick(array_size), array_size);
    assert_eq!(tick_to_array_start_tick(-1), -array_size);
    assert_eq!(tick_to_array_start_tick(-array_size), -array_size);
}

#[test]
fn test_bitmap_word_and_bit() {
    assert_eq!(bitmap_word_and_bit(0), (0, 0));
    assert_eq!(bitmap_word_and_bit(7), (0, 7));
    assert_eq!(bitmap_word_and_bit(8), (1, 0));
    assert_eq!(bitmap_word_and_bit(10), (1, 2));
}

#[test]
fn test_validate_tick_spacing() {
    assert!(validate_tick_spacing(0).is_ok());
    assert!(validate_tick_spacing(64).is_ok());
    assert!(validate_tick_spacing(128).is_ok());
    assert!(validate_tick_spacing(1).is_err());
    assert!(validate_tick_spacing(63).is_err());
}

#[test]
fn prices_of_single_ticks() {
    for (tick, price) in [
        (0, 18_446_744_073_709_551_616),
        (1, 18_447_666_387_855_959_850),
        (-1, 18_445_821_805_675_392_311),
        (64, 18_505_865_242_158_250_041),
        (69_082, 583_366_240_215_567_841_955),
        (-69_082, 583_308_294_966_119_316),
        (49_419, 218_265_965_126_137_957_430),
        (443_636, 79_226_673_515_401_279_992_416_070_086),
        (-443_636, 4_295_048_016),
    ] {
        assert_eq!(tick_to_sqrt_price_q64(tick), Ok(price));
    }
}

#[test]
fn prices_follow_the_power_law() {
    for tick in [-400_000, -77_777, -100, -3, 0, 5, 640, 33_333, 200_000, 443_636] {
        let exact = 1.0001_f64.powf(tick as f64 / 2.0) * 18_446_744_073_709_551_616.0;
        let price = tick_to_sqrt_price_q64(tick).unwrap() as f64;
        assert!((price - exact).abs() <= exact * 1e-9, "tick {}", tick);
    }
}

#[test]
fn prices_rise_with_ticks() {
    let mut last = 0;
    for tick in [MIN_TICK, -400_000, -1, 0, 1, 2, 63, 64, 65, 100_000, MAX_TICK] {
        let price = tick_to_sqrt_price_q64(tick).unwrap();
        assert!(price > last);
        last = price;
    }
}

#[test]
fn ticks_out_of_range_have_no_price() {
    assert_eq!(validate_tick(MIN_TICK), Ok(()));
    assert_eq!(validate_tick(MAX_TICK), Ok(()));
    assert_eq!(
        validate_tick(MIN_TICK - 1),
        Err(TickManagerError::TickOutOfRange)
    );
    assert_eq!(
        tick_to_sqrt_price_q64(MAX_TICK + 1),
        Err(TickManagerError::TickOutOfRange)
    );
    assert_eq!(
        tick_to_sqrt_price_q64(i32::MIN),
        Err(TickManagerError::TickOutOfRange)
    );
}

#[test]
fn constants_agree() {
    assert_eq!(ARRAY_SPAN, TICKS_PER_ARRAY as i32 * TICK_SPACING);
    assert_eq!(MIN_ARRAY_START, tick_to_array_start_tick(MIN_TICK));
    assert_eq!(Q64_RESOLUTION, 1u128 << 64);
    assert_eq!(ARRAYS_PER_BITMAP_WORD, 8);
}

#[test]
fn bitmap_places() {
    assert_eq!(array_start_to_bitmap_index(MIN_ARRAY_START), 0);
    assert_eq!(array_start_to_bitmap_index(0), 79);
    assert_eq!(array_start_to_bitmap_index(MIN_ARRAY_START - ARRAY_SPAN), -1);
    assert_eq!(bitmap_word_and_bit(79), (9, 7));
    assert_eq!(bitmap_word_and_bit(-1), (0, u32::MAX));
    assert_eq!(bitmap_word_index_for_tick(0), 9);
    assert_eq!(bitmap_word_index_for_tick(ARRAY_SPAN), 10);
    assert_eq!(bitmap_word_index_for_tick(MIN_TICK), 0);
}

#[test]
fn wide_arithmetic() {
    assert_eq!(saturating_mul(u128::MAX, 2), u128::MAX);
    assert_eq!(saturating_mul(3, 4), 12);
    assert_eq!(mul_wide(u128::MAX, u128::MAX), (u128::MAX - 1, 1));
    assert_eq!(mul_wide(1u128 << 100, 1u128 << 100), (1u128 << 72, 0));
    assert_eq!(
        div_wide(1, 0, 3),
        (113_427_455_640_312_821_154_458_202_477_256_070_485, 1)
    );
    assert_eq!(mul_div_up(7, 10, 6), 12);
    assert_eq!(mul_div_up(6, 10, 6), 10);
    assert_eq!(mul_div_up(u128::MAX, 8, 7), u128::MAX);
    assert_eq!(mul_div_up(1u128 << 127, 6, (1u128 << 126) + 1), 12);
    assert_eq!(mul_wide_by(2, 3, 5), (0, 10, 15));
    assert_eq!(mul_wide_by(1, u128::MAX, u128::MAX), (1, u128::MAX - 2, 1));
    assert_eq!(
        mul_wide_by(u128::MAX, u128::MAX, u128::MAX),
        (u128::MAX - 1, u128::MAX, 1)
    );
    assert!(triple_at_most((1, 2, 3), (1, 2, 3)));
    assert!(triple_at_most((1, 2, 3), (1, 3, 0)));
    assert!(!triple_at_most((1, 2, 4), (1, 2, 3)));
    assert!(!triple_at_most((2, 0, 0), (1, 9, 9)));
    assert_eq!(mul_div(u128::MAX, 7, 7), u128::MAX);
    assert_eq!(mul_div(u128::MAX, 8, 7), u128::MAX);
    assert_eq!(mul_div(1u128 << 127, 6, 1u128 << 126), 12);
}

#[test]
fn little_endian_integers() {
    let data = [0xffu8, 0xfe, 0xff, 0xff, 0xff, 0x01, 0, 0, 0];
    assert_eq!(read_i32(&data, 1), -2);
    assert_eq!(read_i32(&data, 5), 1);
    assert_eq!(read_i32(&i32::MIN.to_le_bytes(), 0), i32::MIN);
    assert_eq!(read_i128(&(-5i128).to_le_bytes(), 0), -5);
    assert_eq!(read_i128(&i128::MIN.to_le_bytes(), 0), i128::MIN);
    assert_eq!(read_i128(&i128::MAX.to_le_bytes(), 0), i128::MAX);
    assert_eq!(le_bytes(0x0102_0304), [4, 3, 2, 1]);
    assert_eq!(le_bytes(3_000), 3_000u32.to_le_bytes());
}
