//! Liquidity of deposits and back.

use narrowswap::position_mgr::liquidity_math::{
    get_amount_0_for_liquidity, get_amount_1_for_liquidity, get_amounts_for_liquidity,
    get_liquidity_for_amount_0, get_liquidity_for_amount_1, get_liquidity_for_amounts,
};

const Q64: u128 = 1u128 << 64;

fn sqrt_q64(price_f64: f64) -> u128 {
    (price_f64.sqrt() * (Q64 as f64)) as u128
}

#[test]
fn test_liquidity_round_trip_inside_range() {
    let sqrt_current = sqrt_q64(150.0);
    let sqrt_lower = sqrt_q64(140.0);
    let sqrt_upper = sqrt_q64(160.0);

    let amount_0 = 1_000_000u64;
    let amount_1 = 150_000_000u64;

    let liquidity =
        get_liquidity_for_amounts(sqrt_current, sqrt_lower, sqrt_upper, amount_0, amount_1);

    assert!(liquidity > 0, "liquidity should be positive");

    let (back_0, back_1) =
        get_amounts_for_liquidity(sqrt_current, sqrt_lower, sqrt_upper, liquidity);

    let ratio_0 = back_0 as f64 / amount_0 as f64;
    let ratio_1 = back_1 as f64 / amount_1 as f64;

    assert!(
        ratio_0 > 0.95 && ratio_0 <= 1.0,
        "amount0 round-trip ratio={:.4} expected 0.95..1.0",
        ratio_0
    );
    assert!(
        ratio_1 > 0.95 && ratio_1 <= 1.0,
        "amount1 round-trip ratio={:.4} expected 0.95..1.0",
        ratio_1
    );
}

#[test]
fn test_liquidity_below_range_only_token0() {
    let sqrt_current = sqrt_q64(130.0);
    let sqrt_lower = sqrt_q64(140.0);
    let sqrt_upper = sqrt_q64(160.0);

    let liquidity = get_liquidity_for_amounts(
        sqrt_current,
        sqrt_lower,
        sqrt_upper,
        1_000_000,
        999_999_999,
    );

    let liquidity_token0_only =
        get_liquidity_for_amounts(sqrt_current, sqrt_lower, sqrt_upper, 1_000_000, 0);

    assert_eq!(
        liquidity, liquidity_token0_only,
        "below range: token1 should be ignored"
    );
}

#[test]
fn test_liquidity_above_range_only_token1() {
    let sqrt_current = sqrt_q64(170.0);
    let sqrt_lower = sqrt_q64(140.0);
    let sqrt_upper = sqrt_q64(160.0);

    let liquidity = get_liquidity_for_amounts(
        sqrt_current,
        sqrt_lower,
        sqrt_upper,
        999_999_999,
        150_000_000,
    );

    let liquidity_token1_only =
        get_liquidity_for_amounts(sqrt_current, sqrt_lower, sqrt_upper, 0, 150_000_000);

    assert_eq!(
        liquidity, liquidity_token1_only,
        "above range: token0 should be ignored"
    );
}

#[test]
fn test_zero_amounts_give_zero_liquidity() {
    let sqrt_p = sqrt_q64(150.0);
    let l = get_liquidity_for_amounts(sqrt_p, sqrt_p, sqrt_p, 0, 0);
    assert_eq!(l, 0);
}

#[test]
fn liquidity_of_one_token() {
    assert_eq!(get_liquidity_for_amount_0(Q64, 2 * Q64, 1_000), 2_000);
    assert_eq!(get_liquidity_for_amount_0(2 * Q64, Q64, 1_000), 2_000);
    assert_eq!(get_liquidity_for_amount_0(Q64, Q64, 1_000), 0);
    assert_eq!(
        get_liquidity_for_amount_0(Q64, Q64 + 1, 1_000),
        1_000 * (Q64 + 1)
    );
    assert_eq!(get_liquidity_for_amount_1(Q64, 3 * Q64, 1_000), 500);
    assert_eq!(get_liquidity_for_amount_1(3 * Q64, Q64, 1_000), 500);
    assert_eq!(get_liquidity_for_amount_1(Q64, Q64, 1_000), 0);
}

#[test]
fn amounts_of_liquidity() {
    assert_eq!(get_amount_0_for_liquidity(Q64, 2 * Q64, 2_000), 1_000);
    assert_eq!(get_amount_0_for_liquidity(0, 2 * Q64, 2_000), 0);
    assert_eq!(get_amount_1_for_liquidity(Q64, 3 * Q64, 500), 1_000);
    assert_eq!(get_amounts_for_liquidity(2 * Q64, 2 * Q64, Q64, 500), (0, 0));
    assert_eq!(get_amounts_for_liquidity(2 * Q64, Q64, 3 * Q64, 0), (0, 0));
    assert_eq!(
        get_amounts_for_liquidity(2 * Q64, Q64, 4 * Q64, 4_000),
        (3_000, 12_000)
    );
    assert_eq!(
        get_amounts_for_liquidity(5 * Q64, Q64, 4 * Q64, u128::MAX).1,
        u64::MAX
    );
    assert_eq!(get_amount_0_for_liquidity(Q64, 2 * Q64, 1 << 120), 1 << 119);
    assert_eq!(
        get_amounts_for_liquidity(Q64, Q64, 2 * Q64, 1 << 120),
        (u64::MAX, 0)
    );
}

#[test]
fn range_of_no_width_has_no_liquidity() {
    assert_eq!(
        get_liquidity_for_amounts(Q64, 2 * Q64, 2 * Q64, 1_000, 1_000),
        0
    );
    assert_eq!(
        get_liquidity_for_amounts(Q64, 3 * Q64, 2 * Q64, 1_000, 1_000),
        0
    );
}

#[test]
fn deposit_around_one_hundred_and_fifty() {
    let current = 225_925_551_981_489_622_561;
    let lower = 218_145_957_850_608_159_814;
    let upper = 233_308_359_609_397_396_880;
    let liquidity = get_liquidity_for_amounts(current, lower, upper, 1_000_000, 150_000_000);
    assert_eq!(liquidity, 181_965_790);
    assert_eq!(
        get_amounts_for_liquidity(current, lower, upper, liquidity),
        (999_999, 149_567_772)
    );
    assert_eq!(
        get_liquidity_for_amounts(11 * Q64, lower, upper, 1_000_000, 150_000_000),
        181_965_790
    );
    assert_eq!(
        get_amounts_for_liquidity(11 * Q64, lower, upper, 181_965_790),
        (999_999, 0)
    );
    assert_eq!(
        get_liquidity_for_amounts(13 * Q64, lower, upper, 1_000_000, 150_000_000),
        182_491_643
    );
    assert_eq!(
        get_amounts_for_liquidity(13 * Q64, lower, upper, 182_491_643),
        (0, 149_999_999)
    );
}

#[test]
fn taking_a_deposit_back_gives_no_more() {
    let lower = 218_145_957_850_608_159_814;
    let upper = 233_308_359_609_397_396_880;
    for current in [11 * Q64, 12 * Q64, 13 * Q64] {
        for (amount_0, amount_1) in [(1, 1), (1_000, 5), (77_777, 9_999_999), (1_000_000, 1)] {
            let liquidity = get_liquidity_for_amounts(current, lower, upper, amount_0, amount_1);
            let (back_0, back_1) = get_amounts_for_liquidity(current, lower, upper, liquidity);
            assert!(back_0 <= amount_0);
            assert!(back_1 <= amount_1);
        }
    }
}

#[test]
fn deposit_takes_no_more_than_desired_at_tiny_prices() {
    let lower = 1u128 << 41;
    let upper = (1u128 << 41) + (1u128 << 33) - 1;
    let liquidity = get_liquidity_for_amounts(1, lower, upper, 1_000_000_000_000, 0);
    assert_eq!(liquidity, 30_636_787);
    assert_eq!(
        get_amounts_for_liquidity(1, lower, upper, liquidity),
        (999_999_986_352, 0)
    );
}

#[test]
fn amounts_inside_the_range_are_those_of_the_whole_range() {
    assert_eq!(get_amounts_for_liquidity(Q64, Q64, 4 * Q64, 100), (75, 0));
    for current in [Q64 + 1, 2 * Q64, 3 * Q64, 4 * Q64 - 1] {
        assert_eq!(
            get_amounts_for_liquidity(current, Q64, 4 * Q64, 100),
            (75, 300)
        );
    }
    assert_eq!(get_amounts_for_liquidity(4 * Q64, Q64, 4 * Q64, 100), (0, 300));
}
