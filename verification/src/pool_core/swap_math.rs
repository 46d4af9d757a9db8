//! The arithmetic of a single swap step.
//!
//! One step moves the square root price until the input is used up or the next tick
//! boundary is reached, whichever comes first. Square root prices are Q64.64. Liquidity and
//! token amounts are plain integers.

use vstd::arithmetic::div_mod::{lemma_fundamental_div_mod, lemma_fundamental_div_mod_converse};
use vstd::prelude::*;

use crate::arith::{
    ceil_div, div_wide, lemma_ceil_div, lemma_quotient_at_least, lemma_quotient_at_most, mul_div,
    mul_div_up, mul_wide, mul_wide_by, sat, triple_at_most, triple_value, two_pow_128, Q64,
};
use crate::pool_core::swap_laws::{
    law_downward_step_stays_on_its_way, law_segment_input_suffices, law_step_uses_up_input,
    law_upward_step_stays_on_its_way, lemma_step_in_range,
};

verus! {

/// Fee rates are parts of this.
pub const FEE_DENOMINATOR: u128 = 1_000_000;

/// Default fee tier: 0.3%.
pub const DEFAULT_FEE_RATE: u128 = 3_000;

/// The lower of two square root prices.
pub open spec fn lower_price(a: u128, b: u128) -> u128 {
    if a <= b {
        a
    } else {
        b
    }
}

/// The higher of two square root prices.
pub open spec fn upper_price(a: u128, b: u128) -> u128 {
    if a <= b {
        b
    } else {
        a
    }
}

/// `amount * fee_rate / FEE_DENOMINATOR`, rounded up and clamped to 128 bits.
pub open spec fn fee_of(amount: int, fee_rate: int) -> int {
    sat(ceil_div(amount * fee_rate, 1_000_000))
}

/// What is left of an amount once its fee is taken.
pub open spec fn net_of_fee(amount: int, fee_rate: int) -> int {
    if fee_of(amount, fee_rate) <= amount {
        amount - fee_of(amount, fee_rate)
    } else {
        0
    }
}

/// The product of two Q64.64 numbers in Q64.64, rounded down and clamped to 128 bits.
pub open spec fn q64_product(a: int, b: int) -> int {
    sat((a * b) / Q64 as int)
}

/// Token 0 that moves between two prices: `L * (upper - lower) / (lower * upper)`, clamped to
/// 128 bits. A price of zero is infinitely far away.
pub open spec fn amount_0_between(a: u128, b: u128, liquidity: int, round_up: bool) -> int {
    let lower = lower_price(a, b);
    let upper = upper_price(a, b);
    if lower == 0 {
        u128::MAX as int
    } else if round_up {
        sat(ceil_div(liquidity * (upper - lower) * Q64, lower * upper))
    } else {
        sat((liquidity * (upper - lower) * Q64) / (lower * upper))
    }
}

/// Token 1 that moves between two prices: `L * (upper - lower)`, clamped to 128 bits.
pub open spec fn amount_1_between(a: u128, b: u128, liquidity: int, round_up: bool) -> int {
    let diff = upper_price(a, b) - lower_price(a, b);
    if round_up {
        sat(ceil_div(liquidity * diff, Q64 as int))
    } else {
        sat((liquidity * diff) / Q64 as int)
    }
}

/// The price after `amount` of token 0 was added: `L * price / (L + amount * price)`, rounded
/// down.
pub open spec fn price_after_adding_0(price: int, liquidity: int, amount: int) -> int {
    let denominator = liquidity * Q64 + amount * price;
    if amount == 0 {
        price
    } else if denominator == 0 {
        0
    } else {
        (liquidity * price * Q64) / denominator
    }
}

/// The price after `amount` of token 0 was removed: `L * price / (L - amount * price)`,
/// rounded down and clamped to 128 bits. Where there is no more than `amount`, the price has
/// no bound.
pub open spec fn price_after_removing_0(price: int, liquidity: int, amount: int) -> int {
    let denominator = liquidity * Q64 - amount * price;
    if amount == 0 {
        price
    } else if denominator <= 0 {
        u128::MAX as int
    } else {
        sat((liquidity * price * Q64) / denominator)
    }
}

/// How far `amount` of token 1 moves the price: `amount / L`, and not at all without
/// liquidity.
pub open spec fn price_move_of_1(liquidity: int, amount: int) -> int {
    if liquidity == 0 {
        0
    } else {
        sat((amount * Q64) / liquidity)
    }
}

/// Fee on an input amount, rounded up.
pub fn compute_fee(amount: u128, fee_rate: u128) -> (fee: u128)
    ensures
        fee == fee_of(amount as int, fee_rate as int),
{
    mul_div_up(amount, fee_rate, FEE_DENOMINATOR)
}

/// The net amount of a gross input amount, once the fee is taken.
pub fn amount_less_fee(gross_amount: u128, fee_rate: u128) -> (net: u128)
    ensures
        net == net_of_fee(gross_amount as int, fee_rate as int),
{
    let fee: u128 = compute_fee(gross_amount, fee_rate);
    gross_amount.saturating_sub(fee)
}

/// Multiplies two Q64.64 numbers: `(a * b) >> 64`, clamped to 128 bits.
pub fn mul_q64(a: u128, b: u128) -> (r: u128)
    ensures
        r == q64_product(a as int, b as int),
{
    let (hi, lo) = mul_wide(a, b);
    proof {
        assert((a * b) / (Q64 as int) == hi * Q64 + lo as int / (Q64 as int));
    }
    if hi >= Q64 {
        u128::MAX
    } else {
        hi * Q64 + lo / Q64
    }
}

/// `L * (upper - lower) / (lower * upper)` with all digits: the whole part, clamped to 128
/// bits, and whether there is a fraction.
fn divide_move(lower: u128, upper: u128, liquidity: u128) -> (r: (u128, bool))
    requires
        0 < lower <= upper,
    ensures
        r.0 == sat((liquidity * (upper - lower) * Q64) / (lower * upper)),
        r.1 || r.0 == u128::MAX || (liquidity * (upper - lower) * Q64) % (lower * upper) == 0,
        r.1 ==> (liquidity * (upper - lower) * Q64) % (lower * upper) != 0,
{
    let diff: u128 = upper - lower;
    let (hi, lo) = mul_wide(liquidity, diff);
    let ghost n: int = liquidity * diff;
    let ghost d: int = lower * upper;
    let ghost x: int = n * Q64;
    proof {
        assert(n < upper * two_pow_128()) by (nonlinear_arith)
            requires
                n == liquidity * diff,
                liquidity < two_pow_128(),
                diff < upper,
        ;
        assert(hi < upper) by (nonlinear_arith)
            requires
                hi * two_pow_128() + lo == n,
                n < upper * two_pow_128(),
        ;
        assert(d > 0) by (nonlinear_arith)
            requires
                d == lower * upper,
                0 < lower <= upper,
        ;
    }
    let (q1, r1) = div_wide(hi, lo, upper);
    let (hi2, lo2) = mul_wide(r1, Q64);
    proof {
        lemma_fundamental_div_mod(n, upper as int);
        assert(hi2 < upper) by (nonlinear_arith)
            requires
                hi2 * two_pow_128() + lo2 == r1 * Q64,
                r1 < upper,
                Q64 < two_pow_128(),
        ;
    }
    let (q2, r2) = div_wide(hi2, lo2, upper);
    proof {
        lemma_fundamental_div_mod(r1 * Q64, upper as int);
        lemma_quotient_at_most(r1 * Q64, upper as int, Q64 - 1);
    }
    let y_hi: u128 = q1 / Q64;
    let y_lo: u128 = (q1 % Q64) * Q64 + q2;
    let ghost y: int = q1 * Q64 + q2;
    proof {
        assert(y_hi * two_pow_128() + y_lo == y);
        assert(x == y * upper + r2) by (nonlinear_arith)
            requires
                n == upper * q1 + r1,
                r1 * Q64 == upper * q2 + r2,
                x == n * Q64,
                y == q1 * Q64 + q2,
        ;
    }
    if y_hi >= lower {
        proof {
            assert(x >= d * two_pow_128()) by (nonlinear_arith)
                requires
                    x == y * upper + r2,
                    y == y_hi * two_pow_128() + y_lo,
                    y_hi >= lower,
                    y_lo >= 0,
                    r2 >= 0,
                    upper > 0,
                    d == lower * upper,
            ;
            lemma_quotient_at_least(x, d, two_pow_128());
        }
        return (u128::MAX, false);
    }
    let (q3, r3) = div_wide(y_hi, y_lo, lower);
    proof {
        lemma_fundamental_div_mod(y, lower as int);
        let rest = r3 * upper + r2;
        assert(x == q3 * d + rest && 0 <= rest < d && (rest == 0 <==> r3 == 0 && r2 == 0))
            by (nonlinear_arith)
            requires
                x == y * upper + r2,
                y == lower * q3 + r3,
                rest == r3 * upper + r2,
                d == lower * upper,
                0 <= r2 < upper,
                0 <= r3 < lower,
        ;
        lemma_fundamental_div_mod_converse(x, d, q3 as int, rest);
    }
    (q3, r2 != 0 || r3 != 0)
}

/// Amount of token 0 that moves when the square root price goes from `sqrt_price_a` to
/// `sqrt_price_b`. A price of zero counts as infinitely far away.
pub fn get_amount_0_delta(
    sqrt_price_a: u128,
    sqrt_price_b: u128,
    liquidity: u128,
    round_up: bool,
) -> (r: u128)
    ensures
        r == amount_0_between(sqrt_price_a, sqrt_price_b, liquidity as int, round_up),
{
    let (lower, upper) = if sqrt_price_a <= sqrt_price_b {
        (sqrt_price_a, sqrt_price_b)
    } else {
        (sqrt_price_b, sqrt_price_a)
    };
    if lower == 0 {
        return u128::MAX;
    }
    let (whole, fraction) = divide_move(lower, upper, liquidity);
    proof {
        assert(lower * upper > 0) by (nonlinear_arith)
            requires
                0 < lower <= upper,
        ;
        lemma_ceil_div(liquidity * (upper - lower) * Q64, lower * upper);
    }
    if round_up && fraction {
        whole.saturating_add(1)
    } else {
        whole
    }
}

/// Amount of token 1 that moves when the square root price goes from `sqrt_price_a` to
/// `sqrt_price_b`.
pub fn get_amount_1_delta(
    sqrt_price_a: u128,
    sqrt_price_b: u128,
    liquidity: u128,
    round_up: bool,
) -> (r: u128)
    ensures
        r == amount_1_between(sqrt_price_a, sqrt_price_b, liquidity as int, round_up),
{
    let (lower, upper) = if sqrt_price_a <= sqrt_price_b {
        (sqrt_price_a, sqrt_price_b)
    } else {
        (sqrt_price_b, sqrt_price_a)
    };
    if round_up {
        mul_div_up(liquidity, upper - lower, Q64)
    } else {
        mul_div(liquidity, upper - lower, Q64)
    }
}

/// Token 0 that a move between two prices takes, and an amount of token 0, brought to one
/// denominator: `L * (upper - lower)` and `amount * lower * upper`.
fn move_and_amount(lower: u128, upper: u128, liquidity: u128, amount: u128) -> (r: (
    (u128, u128, u128),
    (u128, u128, u128),
))
    requires
        lower <= upper,
    ensures
        triple_value(r.0) == liquidity * (upper - lower) * Q64,
        triple_value(r.1) == amount * lower * upper,
{
    let (moved_hi, moved_lo) = mul_wide(liquidity, upper - lower);
    let (scaled_hi, scaled_lo) = mul_wide(amount, lower);
    (mul_wide_by(moved_hi, moved_lo, Q64), mul_wide_by(scaled_hi, scaled_lo, upper))
}

/// A price is at most `L * price / (L + amount * price)` just where moving down to it takes
/// at least `amount`, and at most `L * price / (L - amount * price)` just where moving up to
/// it takes at most `amount`.
pub proof fn lemma_price_and_amount(price: int, other: int, liquidity: int, amount: int)
    ensures
        (liquidity * Q64 + amount * price) * other <= liquidity * price * Q64 <==> amount * other
            * price <= liquidity * (price - other) * Q64,
        (liquidity * Q64 - amount * price) * other <= liquidity * price * Q64 <==> liquidity * (
        other - price) * Q64 <= amount * price * other,
{
    let q = Q64 as int;
    assert((liquidity * q + amount * price) * other == (liquidity * q) * other + amount * other
        * price) by (nonlinear_arith);
    assert((liquidity * q - amount * price) * other == (liquidity * q) * other - amount * price
        * other) by (nonlinear_arith);
    assert(liquidity * (price - other) * q == liquidity * price * q - (liquidity * q) * other)
        by (nonlinear_arith);
    assert(liquidity * (other - price) * q == (liquidity * q) * other - liquidity * price * q)
        by (nonlinear_arith);
}

/// `L * price / (L + amount * price)`, rounded down.
fn divide_downward(price: u128, liquidity: u128, amount: u128) -> (r: u128)
    requires
        0 < price,
        0 < amount,
    ensures
        r == (liquidity * price * Q64) / (liquidity * Q64 + amount * price),
{
    let ghost n: int = liquidity * price * Q64;
    let ghost d: int = liquidity * Q64 + amount * price;
    let mut low: u128 = 0;
    let mut high: u128 = price;
    proof {
        assert(amount * price > 0 && amount * price * price > 0) by (nonlinear_arith)
            requires
                0 < price,
                0 < amount,
        ;
        assert(n >= 0) by (nonlinear_arith)
            requires
                n == liquidity * price * Q64,
        ;
        assert(liquidity * (price - price) * Q64 == 0);
        lemma_price_and_amount(price as int, price as int, liquidity as int, amount as int);
        assert(d * 0 == 0);
    }
    while high - low > 1
        invariant
            low < high <= price,
            n == liquidity * price * Q64,
            d == liquidity * Q64 + amount * price,
            d * low <= n < d * high,
        decreases high - low,
    {
        let middle: u128 = low + (high - low) / 2;
        let (moved, scaled) = move_and_amount(middle, price, liquidity, amount);
        proof {
            lemma_price_and_amount(price as int, middle as int, liquidity as int, amount as int);
        }
        if triple_at_most(scaled, moved) {
            low = middle;
        } else {
            high = middle;
        }
    }
    proof {
        lemma_quotient_at_least(n, d, low as int);
        lemma_quotient_at_most(n, d, low as int);
    }
    low
}

/// `L * price / (L - amount * price)`, rounded down and clamped to 128 bits.
fn divide_upward(price: u128, liquidity: u128, amount: u128) -> (r: u128)
    requires
        0 < price,
        liquidity * Q64 > amount * price,
    ensures
        r == sat((liquidity * price * Q64) / (liquidity * Q64 - amount * price)),
{
    let ghost n: int = liquidity * price * Q64;
    let ghost d: int = liquidity * Q64 - amount * price;
    let (moved, scaled) = move_and_amount(price, u128::MAX, liquidity, amount);
    proof {
        lemma_price_and_amount(price as int, u128::MAX as int, liquidity as int, amount as int);
    }
    if triple_at_most(moved, scaled) {
        proof {
            lemma_quotient_at_least(n, d, u128::MAX as int);
        }
        return u128::MAX;
    }
    let mut low: u128 = price;
    let mut high: u128 = u128::MAX;
    proof {
        assert(amount * price * price >= 0) by (nonlinear_arith);
        assert(liquidity * (price - price) * Q64 == 0);
        lemma_price_and_amount(price as int, price as int, liquidity as int, amount as int);
        assert(price != u128::MAX);
    }
    while high - low > 1
        invariant
            0 < price <= low < high,
            n == liquidity * price * Q64,
            d == liquidity * Q64 - amount * price,
            d * low <= n < d * high,
        decreases high - low,
    {
        let middle: u128 = low + (high - low) / 2;
        let (moved, scaled) = move_and_amount(price, middle, liquidity, amount);
        proof {
            lemma_price_and_amount(price as int, middle as int, liquidity as int, amount as int);
        }
        if triple_at_most(moved, scaled) {
            low = middle;
        } else {
            high = middle;
        }
    }
    proof {
        lemma_quotient_at_least(n, d, low as int);
        lemma_quotient_at_most(n, d, low as int);
    }
    low
}

/// The square root price after `amount` of token 0 was added to the pool, which lowers it,
/// or removed from it, which raises it.
pub fn get_next_sqrt_price_from_amount_0(
    sqrt_price_current: u128,
    liquidity: u128,
    amount: u128,
    add: bool,
) -> (r: u128)
    ensures
        r == if add {
            price_after_adding_0(sqrt_price_current as int, liquidity as int, amount as int)
        } else {
            price_after_removing_0(sqrt_price_current as int, liquidity as int, amount as int)
        },
{
    if amount == 0 {
        return sqrt_price_current;
    }
    if add {
        if sqrt_price_current == 0 {
            return 0;
        }
        proof {
            assert(amount * sqrt_price_current > 0) by (nonlinear_arith)
                requires
                    amount > 0,
                    sqrt_price_current > 0,
            ;
        }
        return divide_downward(sqrt_price_current, liquidity, amount);
    }
    let (held_hi, held_lo) = mul_wide(liquidity, Q64);
    let (removed_hi, removed_lo) = mul_wide(amount, sqrt_price_current);
    if removed_hi > held_hi || removed_hi == held_hi && removed_lo >= held_lo {
        return u128::MAX;
    }
    if sqrt_price_current == 0 {
        return 0;
    }
    divide_upward(sqrt_price_current, liquidity, amount)
}

/// The square root price after `amount` of token 1 was added to the pool, which raises it,
/// or removed from it, which lowers it.
pub fn get_next_sqrt_price_from_amount_1(
    sqrt_price_current: u128,
    liquidity: u128,
    amount: u128,
    add: bool,
) -> (r: u128)
    ensures
        add ==> r == sat(sqrt_price_current + price_move_of_1(liquidity as int, amount as int)),
        !add ==> r == if price_move_of_1(liquidity as int, amount as int) <= sqrt_price_current {
            sqrt_price_current - price_move_of_1(liquidity as int, amount as int)
        } else {
            0
        },
{
    let delta: u128 = if liquidity == 0 {
        0
    } else {
        mul_div(amount, Q64, liquidity)
    };
    if add {
        sqrt_price_current.saturating_add(delta)
    } else {
        sqrt_price_current.saturating_sub(delta)
    }
}

/// Result of one swap step.
#[derive(Debug, Clone, Copy, PartialEq, Eq, Structural)]
pub struct SwapStepResult {
    /// The square root price that was reached.
    pub sqrt_price_next: u128,
    /// Input that was used for the move, net of the fee.
    pub amount_in: u128,
    /// Output that was produced.
    pub amount_out: u128,
    /// Fee that was taken: the rest of the input.
    pub fee_amount: u128,
}

/// Net input that takes the price from `current` all the way to `target`.
pub open spec fn input_to_reach(current: u128, target: u128, liquidity: int) -> int {
    if current >= target {
        amount_0_between(target, current, liquidity, true)
    } else {
        amount_1_between(current, target, liquidity, true)
    }
}

/// The price that `net` of token 0 moves down to, out of a gross input of `gross`. It is
/// rounded down, or up where the move would else take more than the gross input.
pub open spec fn price_paid_with_0(current: u128, liquidity: int, net: int, gross: int) -> int {
    let price = price_after_adding_0(current as int, liquidity, net);
    if price < current && amount_0_between(price as u128, current, liquidity, true) > gross {
        price + 1
    } else {
        price
    }
}

/// The price that one step reaches: the target where the net input suffices for it, else
/// the price that the net input moves to.
pub open spec fn step_price(
    current: u128,
    target: u128,
    liquidity: int,
    amount_remaining: int,
    fee_rate: int,
) -> int {
    let net = net_of_fee(amount_remaining, fee_rate);
    if net >= input_to_reach(current, target, liquidity) {
        target as int
    } else if current >= target {
        price_paid_with_0(current, liquidity, net, amount_remaining)
    } else {
        sat(current + price_move_of_1(liquidity, net))
    }
}

/// One whole step: the move's input is rounded up, its output down, and what the input
/// leaves of `amount_remaining` is the fee.
pub open spec fn step_result(
    current: u128,
    target: u128,
    liquidity: int,
    amount_remaining: int,
    fee_rate: int,
) -> SwapStepResult {
    let next = step_price(current, target, liquidity, amount_remaining, fee_rate) as u128;
    let amount_in = if current >= target {
        amount_0_between(next, current, liquidity, true)
    } else {
        amount_1_between(current, next, liquidity, true)
    };
    let amount_out = if current >= target {
        amount_1_between(next, current, liquidity, false)
    } else {
        amount_0_between(current, next, liquidity, false)
    };
    SwapStepResult {
        sqrt_price_next: next,
        amount_in: amount_in as u128,
        amount_out: amount_out as u128,
        fee_amount: (if amount_in <= amount_remaining {
            amount_remaining - amount_in
        } else {
            0
        }) as u128,
    }
}

/// Computes one swap step from `sqrt_price_current` towards `sqrt_price_target`. A target
/// at or below the current price swaps token 0 for token 1, one above it token 1 for
/// token 0. The price never passes the target, and the step takes no more than
/// `amount_remaining`.
pub fn compute_swap_step(
    sqrt_price_current: u128,
    sqrt_price_target: u128,
    liquidity: u128,
    amount_remaining: u128,
    fee_rate: u128,
) -> (r: SwapStepResult)
    ensures
        r == step_result(
            sqrt_price_current,
            sqrt_price_target,
            liquidity as int,
            amount_remaining as int,
            fee_rate as int,
        ),
        sqrt_price_target <= sqrt_price_current ==> sqrt_price_target <= r.sqrt_price_next
            <= sqrt_price_current,
        sqrt_price_current < sqrt_price_target ==> sqrt_price_current <= r.sqrt_price_next
            <= sqrt_price_target,
        sqrt_price_current > 0 || sqrt_price_target > 0 ==> r.amount_in + r.fee_amount
            == amount_remaining,
{
    proof {
        if sqrt_price_current > 0 || sqrt_price_target > 0 {
            law_step_uses_up_input(
                sqrt_price_current,
                sqrt_price_target,
                liquidity,
                amount_remaining,
                fee_rate,
            );
        }
        lemma_step_in_range(
            sqrt_price_current,
            sqrt_price_target,
            liquidity,
            amount_remaining,
            fee_rate,
        );
        if sqrt_price_target <= sqrt_price_current {
            law_downward_step_stays_on_its_way(
                sqrt_price_current,
                sqrt_price_target,
                liquidity,
                amount_remaining,
                fee_rate,
            );
        } else {
            law_upward_step_stays_on_its_way(
                sqrt_price_current,
                sqrt_price_target,
                liquidity,
                amount_remaining,
                fee_rate,
            );
        }
    }
    let zero_for_one: bool = sqrt_price_current >= sqrt_price_target;
    let amount_to_target: u128 = if zero_for_one {
        get_amount_0_delta(sqrt_price_target, sqrt_price_current, liquidity, true)
    } else {
        get_amount_1_delta(sqrt_price_current, sqrt_price_target, liquidity, true)
    };
    let amount_remaining_net: u128 = amount_less_fee(amount_remaining, fee_rate);
    let sqrt_price_next: u128;
    let amount_in: u128;
    let amount_out: u128;
    if amount_remaining_net >= amount_to_target {
        sqrt_price_next = sqrt_price_target;
        amount_in = amount_to_target;
        amount_out = if zero_for_one {
            get_amount_1_delta(sqrt_price_target, sqrt_price_current, liquidity, false)
        } else {
            get_amount_0_delta(sqrt_price_target, sqrt_price_current, liquidity, false)
        };
    } else {
        sqrt_price_next = if zero_for_one {
            let price: u128 = get_next_sqrt_price_from_amount_0(
                sqrt_price_current,
                liquidity,
                amount_remaining_net,
                true,
            );
            if price < sqrt_price_current && get_amount_0_delta(
                price,
                sqrt_price_current,
                liquidity,
                true,
            ) > amount_remaining {
                price + 1
            } else {
                price
            }
        } else {
            get_next_sqrt_price_from_amount_1(
                sqrt_price_current,
                liquidity,
                amount_remaining_net,
                true,
            )
        };
        amount_in = if zero_for_one {
            get_amount_0_delta(sqrt_price_next, sqrt_price_current, liquidity, true)
        } else {
            get_amount_1_delta(sqrt_price_current, sqrt_price_next, liquidity, true)
        };
        amount_out = if zero_for_one {
            get_amount_1_delta(sqrt_price_next, sqrt_price_current, liquidity, false)
        } else {
            get_amount_0_delta(sqrt_price_current, sqrt_price_next, liquidity, false)
        };
    }
    let fee_amount: u128 = amount_remaining.saturating_sub(amount_in);
    SwapStepResult { sqrt_price_next, amount_in, amount_out, fee_amount }
}

/// The least gross amount whose net is at least `net`, for a fee rate below one:
/// `net / (1 - fee_rate)`, rounded up.
pub open spec fn gross_of(net: int, fee_rate: int) -> int {
    ceil_div(net * 1_000_000, 1_000_000 - fee_rate)
}

/// What a step towards `target` may take of the remaining input: just enough to get there
/// and pay the fee, or all of it where that does not suffice. Without liquidity there is
/// nothing to take it.
pub open spec fn segment_input(
    current: u128,
    target: u128,
    liquidity: int,
    amount_remaining: int,
    fee_rate: int,
) -> int {
    let needed = input_to_reach(current, target, liquidity);
    if needed == 0 {
        0
    } else if net_of_fee(amount_remaining, fee_rate) >= needed {
        gross_of(needed, fee_rate)
    } else if liquidity == 0 {
        0
    } else {
        amount_remaining
    }
}

/// The gross input of one segment of a swap: what the step to `sqrt_price_target` takes of
/// the remaining input.
pub fn get_segment_input(
    sqrt_price_current: u128,
    sqrt_price_target: u128,
    liquidity: u128,
    amount_remaining: u128,
    fee_rate: u128,
) -> (r: u128)
    ensures
        r == segment_input(
            sqrt_price_current,
            sqrt_price_target,
            liquidity as int,
            amount_remaining as int,
            fee_rate as int,
        ),
        r <= amount_remaining,
{
    proof {
        law_segment_input_suffices(
            sqrt_price_current,
            sqrt_price_target,
            liquidity,
            amount_remaining,
            fee_rate,
        );
    }
    let needed: u128 = if sqrt_price_current >= sqrt_price_target {
        get_amount_0_delta(sqrt_price_target, sqrt_price_current, liquidity, true)
    } else {
        get_amount_1_delta(sqrt_price_current, sqrt_price_target, liquidity, true)
    };
    if needed == 0 {
        return 0;
    }
    if amount_less_fee(amount_remaining, fee_rate) < needed {
        return if liquidity == 0 {
            0
        } else {
            amount_remaining
        };
    }
    proof {
        if fee_rate >= 1_000_000 {
            assert(amount_remaining * fee_rate >= amount_remaining * 1_000_000)
                by (nonlinear_arith)
                requires
                    fee_rate >= 1_000_000,
                    amount_remaining >= 0,
            ;
            lemma_ceil_div(amount_remaining * fee_rate, 1_000_000);
        }
    }
    mul_div_up(needed, FEE_DENOMINATOR, FEE_DENOMINATOR - fee_rate)
}

} // verus!
