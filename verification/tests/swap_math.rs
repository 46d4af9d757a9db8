//! Swap arithmetic.

use narrowswap::pool_core::swap_math::{
    amount_less_fee, compute_fee, compute_swap_step, get_amount_0_delta, get_amount_1_delta,
    get_next_sqrt_price_from_amount_0, get_next_sqrt_price_from_amount_1, get_segment_input,
    mul_q64, SwapStepResult, DEFAULT_FEE_RATE, FEE_DENOMINATOR,
};

const Q64: u128 = 1u128 << 64;

fn sqrt_q64(price: f64) -> u128 {
    let sqrt_p = price.sqrt();
    (sqrt_p * (Q64 as f64)) as u128
}

#[test]
fn test_compute_fee() {
    assert_eq!(compute_fee(1_000_000, DEFAULT_FEE_RATE), 3_000);
    assert_eq!(compute_fee(0, DEFAULT_FEE_RATE), 0);
}

#[test]
fn test_amount_1_delta_symmetry() {
    let sqrt_a = sqrt_q64(4.0);
    let sqrt_b = sqrt_q64(9.0);
    let liquidity = Q64;

    let delta = get_amount_1_delta(sqrt_a, sqrt_b, liquidity, false);

    let expected = Q64;
    let ratio = delta as f64 / expected as f64;
    assert!(
        ratio > 0.99 && ratio < 1.01,
        "delta={} expected≈{}",
        delta,
        expected
    );
}

#[test]
fn test_swap_step_full_fill() {
    let sqrt_current = sqrt_q64(100.0);
    let sqrt_target = sqrt_q64(121.0);
    let liquidity = 1_000_000u128 * Q64 >> 32;
    let fee_rate = DEFAULT_FEE_RATE;
    let amount_in = u128::MAX / 2;

    let result = compute_swap_step(sqrt_current, sqrt_target, liquidity, amount_in, fee_rate);

    assert_eq!(
        result.sqrt_price_next, sqrt_target,
        "should reach target when sufficient input"
    );
    assert!(result.amount_out > 0, "should produce output tokens");
    assert!(result.fee_amount > 0, "should collect fee");
}

#[test]
fn test_swap_step_partial_fill() {
    let sqrt_current = sqrt_q64(100.0);
    let sqrt_target = sqrt_q64(81.0);
    let liquidity = 1_000_000u128;
    let tiny_amount = 1u128;

    let result = compute_swap_step(
        sqrt_current,
        sqrt_target,
        liquidity,
        tiny_amount,
        DEFAULT_FEE_RATE,
    );

    assert!(
        result.sqrt_price_next > sqrt_target,
        "price should not reach target with tiny input. got={}  target={}",
        result.sqrt_price_next,
        sqrt_target
    );
}

#[test]
fn test_amount_0_and_1_inverse() {
    let sqrt_a = sqrt_q64(100.0);
    let sqrt_b = sqrt_q64(110.0);
    let liquidity = 1_000_000_000u128;

    let amount1 = get_amount_1_delta(sqrt_a, sqrt_b, liquidity, false);
    assert!(amount1 > 0, "delta should be positive");

    let amount0 = get_amount_0_delta(sqrt_a, sqrt_b, liquidity, false);
    assert!(amount0 > 0, "delta should be positive");
}

#[test]
fn fee_rounds_up_and_saturates() {
    assert_eq!(FEE_DENOMINATOR, 1_000_000);
    assert_eq!(compute_fee(1, 3_000), 1);
    assert_eq!(compute_fee(333, 3_000), 1);
    assert_eq!(compute_fee(334, 3_000), 2);
    assert_eq!(
        compute_fee(u128::MAX, 2),
        680_564_733_841_876_926_926_749_214_863_537
    );
    assert_eq!(compute_fee(u128::MAX, 1_000_000), u128::MAX);
    assert_eq!(compute_fee(u128::MAX, 3_000_000), u128::MAX);
}

#[test]
fn fee_and_net_make_up_gross() {
    for amount in [0u128, 1, 7, 999, 1_000_000, 123_456_789] {
        assert_eq!(
            amount_less_fee(amount, 3_000) + compute_fee(amount, 3_000),
            amount
        );
    }
    assert_eq!(amount_less_fee(1_000_000, 3_000), 997_000);
    assert_eq!(amount_less_fee(10, 2_000_000), 0);
}

#[test]
fn q64_product_is_exact() {
    assert_eq!(mul_q64(3 * Q64, 5 * Q64), 15 * Q64);
    assert_eq!(mul_q64(Q64 / 2, Q64 / 2), Q64 / 4);
    assert_eq!(mul_q64(Q64 + Q64 / 2, 2 * Q64), 3 * Q64);
    assert_eq!(mul_q64(Q64 - 1, Q64 - 1), Q64 - 2);
    assert_eq!(mul_q64(u128::MAX, 2 * Q64), u128::MAX);
    assert_eq!(mul_q64(1, 1), 0);
}

#[test]
fn token_0_between_prices() {
    assert_eq!(get_amount_0_delta(Q64, 2 * Q64, 1_000, false), 500);
    assert_eq!(get_amount_0_delta(2 * Q64, Q64, 1_000, true), 500);
    assert_eq!(get_amount_0_delta(2 * Q64, 3 * Q64, 1_000, false), 166);
    assert_eq!(get_amount_0_delta(2 * Q64, 3 * Q64, 1_000, true), 167);
    assert_eq!(get_amount_0_delta(0, Q64, 1_000, false), u128::MAX);
    assert_eq!(get_amount_0_delta(1, 1, 1_000, true), 0);
    assert_eq!(get_amount_0_delta(1, 2, 1_000, true), 500 * Q64);
    assert_eq!(
        get_amount_0_delta(Q64, 2 * Q64, 1 << 120, false),
        1 << 119
    );
    assert_eq!(get_amount_0_delta(1, u128::MAX, u128::MAX, false), u128::MAX);
    assert_eq!(get_amount_0_delta(Q64, Q64, 1_000, true), 0);
}

#[test]
fn token_1_between_prices() {
    assert_eq!(get_amount_1_delta(Q64, 3 * Q64, 1_000, false), 2_000);
    assert_eq!(get_amount_1_delta(3 * Q64, Q64, 1_000, true), 2_000);
    assert_eq!(get_amount_1_delta(Q64, Q64 + 1, 1, false), 0);
    assert_eq!(get_amount_1_delta(Q64, Q64 + 1, 1, true), 1);
    assert_eq!(get_amount_1_delta(0, 1 << 90, 1 << 90, false), 1 << 116);
    assert_eq!(get_amount_1_delta(0, u128::MAX, u128::MAX, false), u128::MAX);
}

#[test]
fn next_price_from_token_0() {
    assert_eq!(
        get_next_sqrt_price_from_amount_0(2 * Q64, 1_000, 100, true),
        30_744_573_456_182_586_026
    );
    assert_eq!(
        get_next_sqrt_price_from_amount_0(2 * Q64, 1_000, 100, false),
        46_116_860_184_273_879_040
    );
    assert_eq!(
        get_next_sqrt_price_from_amount_0(12_884_901_888, 1_000, 1_000_000_000, true),
        12_875_908_170
    );
    assert_eq!(
        get_next_sqrt_price_from_amount_0(12_884_901_888, 1_000, 1_000_000_000, false),
        12_893_908_178
    );
    assert_eq!(get_next_sqrt_price_from_amount_0(0, 7, 3, true), 0);
    assert_eq!(get_next_sqrt_price_from_amount_0(0, 7, 3, false), 0);
    assert_eq!(get_next_sqrt_price_from_amount_0(5, 0, 0, true), 5);
    assert_eq!(get_next_sqrt_price_from_amount_0(5, 0, 1, true), 0);
    assert_eq!(
        get_next_sqrt_price_from_amount_0(Q64, 10, 10, false),
        u128::MAX
    );
    assert_eq!(
        get_next_sqrt_price_from_amount_0(Q64, 10, u128::MAX, false),
        u128::MAX
    );
    assert_eq!(
        get_next_sqrt_price_from_amount_0(1 << 100, 1 << 120, 1 << 60, false),
        1_267_650_675_786_097_631_010_922_430_480
    );
    assert_eq!(
        get_next_sqrt_price_from_amount_0(1 << 126, 1 << 127, 1 << 64, false),
        1 << 127
    );
    assert_eq!(
        get_next_sqrt_price_from_amount_0(u128::MAX, u128::MAX, u128::MAX, true),
        Q64 - 1
    );
}

#[test]
fn next_price_from_token_1() {
    assert_eq!(
        get_next_sqrt_price_from_amount_1(Q64, 1_000, 100, true),
        Q64 + 1_844_674_407_370_955_161
    );
    assert_eq!(
        get_next_sqrt_price_from_amount_1(Q64, 1_000, 100, false),
        Q64 - 1_844_674_407_370_955_161
    );
    assert_eq!(get_next_sqrt_price_from_amount_1(Q64, 0, 100, true), Q64);
    assert_eq!(get_next_sqrt_price_from_amount_1(Q64, 1, 2, false), 0);
    assert_eq!(
        get_next_sqrt_price_from_amount_1(Q64, 1, u128::MAX, true),
        u128::MAX
    );
}

#[test]
fn token_1_of_a_move_moves_as_far() {
    let amount = get_amount_1_delta(Q64, 3 * Q64, 1_000, true);
    assert_eq!(
        get_next_sqrt_price_from_amount_1(Q64, 1_000, amount, true),
        3 * Q64
    );
}

#[test]
fn token_0_of_a_move_moves_as_far() {
    let needed = get_amount_0_delta(Q64, 3 * Q64, 1_000_000, true);
    assert!(get_next_sqrt_price_from_amount_0(3 * Q64, 1_000_000, needed, true) <= Q64);
    let whole = get_amount_0_delta(Q64, 3 * Q64, 1_000_000, false);
    assert!(get_next_sqrt_price_from_amount_0(3 * Q64, 1_000_000, whole, true) >= Q64);
}

#[test]
fn step_takes_no_more_than_offered() {
    assert_eq!(
        compute_swap_step(1 << 41, 1, 1 << 40, 1_000_000, 3_000),
        SwapStepResult {
            sqrt_price_next: 1 << 41,
            amount_in: 0,
            amount_out: 0,
            fee_amount: 1_000_000,
        }
    );
    assert_eq!(
        compute_swap_step(1 << 41, 1, 1 << 40, 1_000_000_000, 3_000),
        SwapStepResult {
            sqrt_price_next: (1 << 41) - 238,
            amount_in: 998_244_353,
            amount_out: 0,
            fee_amount: 1_755_647,
        }
    );
    for current in [3u128, 1 << 36, 1 << 41, Q64, 7 << 80] {
        for target in [0, 1, current - 1, current, current + 1, 2 * current, u128::MAX] {
            for liquidity in [0u128, 1, 1_000, 1 << 40] {
                for amount in [1u128, 1_000_000, 1 << 50] {
                    let step = compute_swap_step(current, target, liquidity, amount, 3_000);
                    assert_eq!(step.amount_in + step.fee_amount, amount);
                }
            }
        }
    }
}

#[test]
fn segment_without_liquidity_takes_nothing() {
    for target in [0, 1, Q64, 5 * Q64] {
        let input = get_segment_input(2 * Q64, target, 0, 1_000, 3_000);
        assert_eq!(input, 0);
        let step = compute_swap_step(2 * Q64, target, 0, input, 3_000);
        assert_eq!((step.amount_in, step.amount_out, step.fee_amount), (0, 0, 0));
    }
}

#[test]
fn step_down_in_part_and_in_full() {
    assert_eq!(
        compute_swap_step(2 * Q64, Q64, 1_000_000, 1_000, 3_000),
        SwapStepResult {
            sqrt_price_next: 36_820_068_929_972_737_593,
            amount_in: 998,
            amount_out: 3_980,
            fee_amount: 2,
        }
    );
    let input = get_segment_input(2 * Q64, Q64, 1_000, 1_000_000, 3_000);
    assert_eq!(input, 502);
    assert_eq!(
        compute_swap_step(2 * Q64, Q64, 1_000, input, 3_000),
        SwapStepResult {
            sqrt_price_next: Q64,
            amount_in: 500,
            amount_out: 1_000,
            fee_amount: 2,
        }
    );
}

#[test]
fn step_up_in_part_and_in_full() {
    assert_eq!(
        compute_swap_step(Q64, 2 * Q64, 1_000_000, 1_000, 3_000),
        SwapStepResult {
            sqrt_price_next: 18_465_135_477_551_040_038,
            amount_in: 997,
            amount_out: 996,
            fee_amount: 3,
        }
    );
    let input = get_segment_input(Q64, 2 * Q64, 1_000_000, 10_000_000, 3_000);
    assert_eq!(input, 1_003_010);
    assert_eq!(
        compute_swap_step(Q64, 2 * Q64, 1_000_000, input, 3_000),
        SwapStepResult {
            sqrt_price_next: 2 * Q64,
            amount_in: 1_000_000,
            amount_out: 500_000,
            fee_amount: 3_010,
        }
    );
}

#[test]
fn segment_takes_the_least_input_that_suffices() {
    for liquidity in [1u128, 1_000, 77_777, 1_000_000] {
        let input = get_segment_input(2 * Q64, Q64, liquidity, 1 << 60, 3_000);
        let needed = get_amount_0_delta(2 * Q64, Q64, liquidity, true);
        assert!(amount_less_fee(input, 3_000) >= needed);
        assert!(amount_less_fee(input - 1, 3_000) < needed);
    }
    assert_eq!(get_segment_input(2 * Q64, Q64, 1_000, 400, 3_000), 400);
    assert_eq!(get_segment_input(Q64, Q64, 1_000, 400, 3_000), 0);
}

#[test]
fn step_down_never_passes_its_target() {
    assert_eq!(
        compute_swap_step(12_884_901_888, 10_737_418_240, 1_000, 300_000_000_000, 0),
        SwapStepResult {
            sqrt_price_next: 10_737_418_240,
            amount_in: 286_331_153_067,
            amount_out: 0,
            fee_amount: 13_668_846_933,
        }
    );
    for current in [3u128, 12_884_901_888, Q64, 5 << 90] {
        for target in [1u128, current / 3, current - 1, current] {
            for liquidity in [1u128, 1_000, 1 << 63] {
                for amount in [1u128, 300_000_000_000, 1 << 63] {
                    for fee_rate in [0u128, 3_000, 1_000_000] {
                        let step =
                            compute_swap_step(current, target, liquidity, amount, fee_rate);
                        assert!(target <= step.sqrt_price_next);
                        assert!(step.sqrt_price_next <= current);
                    }
                }
            }
        }
    }
}

#[test]
fn step_uses_up_its_input() {
    for amount in [1u128, 500, 1_000, 77_777, 1_000_000] {
        let step = compute_swap_step(2 * Q64, Q64, 1_000_000, amount, 3_000);
        assert_eq!(step.amount_in + step.fee_amount, amount);
        assert!(step.sqrt_price_next <= 2 * Q64);
        assert!(step.sqrt_price_next >= Q64);
    }
}
