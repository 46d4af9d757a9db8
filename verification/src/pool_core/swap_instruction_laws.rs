//! What a swap promises, in terms of its accounts and its orders.

use vstd::prelude::*;

use crate::arith::{lemma_quotient, Q64};
use crate::bytes::{le_i128, le_i32};
use crate::pool_core::{
    swap_outcome, swap_start, swapped, PoolError, Swap, SwapReceipt, MAX_TICK_CROSSINGS,
};
use crate::pool_core::laws::lemma_walk_accounts;
use crate::pool_core::segments::{segment, segment_step, state_after_step, walk};
use crate::pool_core::swap_lemmas::{
    ahead_by, lemma_downward_reach, lemma_downward_step, lemma_first_ahead, lemma_first_crossing,
    lemma_gap_is_nothing, lemma_nearest_ahead, lemma_nothing_ahead, lemma_on_grid,
    lemma_segment_is_stretch, lemma_shorter_walk, lemma_swap_accounts, lemma_swap_ends_by,
    lemma_ticks_behind, lemma_two_segments, lemma_upward_step, lemma_upward_walk_fee,
    lemma_walk_ahead_by, lemma_walk_behind_boundary, lemma_walk_crossings,
    lemma_walk_goes_all_the_way, lemma_walk_needs_no_more_crossings, lemma_walk_reads_whole_arrays,
    lemma_whole_arrays_tell_net,
};
use crate::pool_core::tick_loop::{
    decides, law_price_has_one_tick, law_recorded_net_is_applied, price_target, slot_of,
    tick_of_price,
};
use crate::tick_manager::price::{law_price_rises_with_tick, lemma_price_in_range, sqrt_price_at};

verus! {

/// Slot `slot` of tick array `i` is in use: its flag byte is there and set.
pub open spec fn flagged(accounts: Seq<Vec<u8>>, i: int, slot: int) -> bool {
    &&& 0 <= i < accounts.len()
    &&& 0 <= slot < 88
    &&& 120 + 80 * slot < accounts[i]@.len()
    &&& accounts[i]@[120 + 80 * slot] != 0
}

/// The tick of slot `slot` of tick array `i`.
pub open spec fn tick_held(accounts: Seq<Vec<u8>>, i: int, slot: int) -> int {
    le_i32(accounts[i]@, 8) + 64 * slot
}

/// Some slot in use has the tick.
pub open spec fn in_use(accounts: Seq<Vec<u8>>, tick: int) -> bool {
    exists|i: int, slot: int| #[trigger]
        flagged(accounts, i, slot) && tick_held(accounts, i, slot) == tick
}

/// No slot in use has a tick ahead of `tick`: at or below it downwards, above it upwards.
pub open spec fn nothing_ahead(accounts: Seq<Vec<u8>>, tick: int, zero_for_one: bool) -> bool {
    forall|i: int, slot: int| #[trigger]
        flagged(accounts, i, slot) ==> if zero_for_one {
            tick_held(accounts, i, slot) > tick
        } else {
            tick_held(accounts, i, slot) <= tick
        }
}

/// `boundary` is the nearest tick ahead of `tick` among the slots in use.
pub open spec fn first_ahead(
    accounts: Seq<Vec<u8>>,
    tick: int,
    zero_for_one: bool,
    boundary: int,
) -> bool {
    &&& -443_636 <= boundary <= 443_636
    &&& if zero_for_one {
        boundary <= tick
    } else {
        boundary > tick
    }
    &&& in_use(accounts, boundary)
    &&& forall|i: int, slot: int| #[trigger]
        flagged(accounts, i, slot) ==> if zero_for_one {
            tick_held(accounts, i, slot) <= boundary || tick_held(accounts, i, slot) > tick
        } else {
            tick_held(accounts, i, slot) >= boundary || tick_held(accounts, i, slot) <= tick
        }
}

/// All ticks in use are multiples of 64.
pub open spec fn all_on_grid(accounts: Seq<Vec<u8>>) -> bool {
    forall|i: int, slot: int| #[trigger]
        flagged(accounts, i, slot) ==> tick_held(accounts, i, slot) % 64 == 0
}

/// What a swap pays, is charged and gets on its way from one price to another.
pub struct Stretch {
    pub paid: int,
    pub fee: int,
    pub received: int,
    pub growth: int,
}

/// The way between two prices with this liquidity, at this fee rate: the payment is what it
/// takes, rounded up, and the payout what it gives, rounded down. Payment and fee are the least
/// amount that covers the payment once the rate is taken off. The growth is the fee per unit of
/// liquidity, rounded down. Without liquidity all of it is nothing.
pub open spec fn is_stretch(
    from: u128,
    to: u128,
    liquidity: u128,
    fee_rate: u32,
    way: Stretch,
) -> bool {
    let one = 0x1_0000_0000_0000_0000int;
    let gross = way.paid + way.fee;
    &&& 0 <= way.paid && 0 <= way.fee && 0 <= way.received && 0 <= way.growth
    &&& to == from ==> way.paid == 0 && way.received == 0
    &&& to < from ==> {
        let moved = liquidity * (from - to);
        &&& (way.paid - 1) * (from * to) < moved * one <= way.paid * (from * to)
        &&& way.received * one <= moved < (way.received + 1) * one
    }
    &&& to > from ==> {
        let moved = liquidity * (to - from);
        &&& (way.paid - 1) * one < moved <= way.paid * one
        &&& way.received * (from * to) <= moved * one < (way.received + 1) * (from * to)
    }
    &&& (gross - 1) * (1_000_000 - fee_rate) < way.paid * 1_000_000 <= gross * (1_000_000
        - fee_rate)
    &&& liquidity > 0 ==> way.growth * liquidity <= way.fee * one < (way.growth + 1) * liquidity
    &&& liquidity == 0 ==> way.growth == 0
}

/// Slot `slot` of array `i` records the net liquidity of `tick`, and no array before it spans
/// the tick.
pub open spec fn records_net(
    accounts: Seq<Vec<u8>>,
    tick: int,
    i: int,
    slot: int,
) -> bool {
    &&& flagged(accounts, i, slot)
    &&& tick_held(accounts, i, slot) == tick
    &&& le_i128(accounts[i]@, 56 + 80 * slot) > i128::MIN
    &&& forall|j: int|
        0 <= j < i ==> !(le_i32((#[trigger] accounts[j])@, 8) <= tick < le_i32(accounts[j]@, 8)
            + 5_632)
}

/// A liquidity on the other side of a tick: the net liquidity is added upwards and taken off
/// downwards, and the result clamped between zero and 128 bits.
pub open spec fn is_across(liquidity: u128, net: int, zero_for_one: bool, across: u128) -> bool {
    let sum = if zero_for_one {
        liquidity - net
    } else {
        liquidity + net
    };
    &&& 0 <= sum <= u128::MAX ==> across == sum
    &&& sum < 0 ==> across == 0
    &&& sum > u128::MAX ==> across == u128::MAX
}

/// The first thing that a swap from `tick` comes to is `stop`, and it does not go on from
/// there: the price limit, where no tick in use is ahead; or else the price of the first one,
/// where the limit is not beyond that, or where the swap ends at a price short of it.
pub open spec fn ends_by(
    accounts: Seq<Vec<u8>>,
    tick: int,
    zero_for_one: bool,
    sqrt_price_limit: u128,
    sqrt_price_after: u128,
    stop: u128,
) -> bool {
    ||| nothing_ahead(accounts, tick, zero_for_one) && stop == sqrt_price_limit
    ||| exists|boundary: int| #[trigger]
        first_ahead(accounts, tick, zero_for_one, boundary) && stop == sqrt_price_at(boundary)
            && if zero_for_one {
            sqrt_price_limit >= stop || all_on_grid(accounts) && sqrt_price_after > stop
        } else {
            sqrt_price_limit <= stop || all_on_grid(accounts) && sqrt_price_after < stop
        }
}

/// A swap of token 0 that crosses no more than the tick it stops at is charged the rate stored
/// in its pool. The payment is what the way takes of token 0, rounded up, and the payout what
/// it gives of token 1, rounded down. A swap that gets to its stop pays the fee of what it
/// takes, rounded up. One that does not uses up its amount: its price is, to within one unit,
/// that to which the amount less its fee moves it. `net` is the amount less its fee.
pub proof fn law_downward_swap_charges_pool_rate(
    before: Swap,
    accounts: Seq<Vec<u8>>,
    amount: u64,
    sqrt_price_limit: u128,
    amount_out_minimum: u64,
    after: Swap,
    r: Result<SwapReceipt, PoolError>,
    stop: u128,
    net: int,
)
    requires
        swapped(
            before,
            accounts,
            amount,
            true,
            sqrt_price_limit,
            amount_out_minimum,
            after,
            r,
        ),
        r is Ok,
        before.pool.fee_rate < 1_000_000,
        ends_by(
            accounts,
            before.pool.tick_current as int,
            true,
            sqrt_price_limit,
            after.pool.sqrt_price,
            stop,
        ),
        stop < before.pool.sqrt_price,
        net * 1_000_000 <= amount * (1_000_000 - before.pool.fee_rate) < (net + 1) * 1_000_000,
    ensures
        ({
            let liquidity = before.pool.liquidity as int;
            let price = before.pool.sqrt_price as int;
            let next = after.pool.sqrt_price as int;
            let paid = r->Ok_0.payment.amount as int;
            let fee = r->Ok_0.event.fee_amount as int;
            let received = r->Ok_0.payout.transfer.amount as int;
            &&& 0 < next
            &&& stop <= next <= price
            &&& (paid - 1) * (price * next) < liquidity * (price - next)
                * 0x1_0000_0000_0000_0000 <= paid * (price * next)
            &&& received * 0x1_0000_0000_0000_0000 <= liquidity * (price - next) < (received + 1)
                * 0x1_0000_0000_0000_0000
            &&& paid + fee <= amount
            &&& next == stop && paid <= net ==> {
                &&& (paid + fee) * before.pool.fee_rate <= fee * 1_000_000
                &&& (fee - 1) * 1_000_000 < (paid + fee) * before.pool.fee_rate
            }
            &&& next > stop || paid > net ==> {
                &&& paid + fee == amount
                &&& liquidity * (price - next - 1) * 0x1_0000_0000_0000_0000 <= net * (price
                    * (next + 1))
                &&& net * (price * (next - 1)) <= liquidity * (price - next + 1)
                    * 0x1_0000_0000_0000_0000
            }
        }),
{
    lemma_swap_ends_by(
        before,
        accounts,
        amount,
        true,
        sqrt_price_limit,
        amount_out_minimum,
        after,
        r,
        stop,
    );
    lemma_downward_step(
        swap_start(before.pool, amount),
        stop,
        before.pool.fee_rate as u128,
        net,
    );
}

/// A swap of token 1 that crosses no more than the tick it stops at is charged the rate stored
/// in its pool. The payment is what the way takes of token 1, rounded up, and the payout what
/// it gives of token 0, rounded down. A swap that gets to its stop pays the fee of what it
/// takes, rounded up. One that does not uses up its amount: its price is that to which the
/// amount less its fee moves it, rounded down. `net` is the amount less its fee.
pub proof fn law_upward_swap_charges_pool_rate(
    before: Swap,
    accounts: Seq<Vec<u8>>,
    amount: u64,
    sqrt_price_limit: u128,
    amount_out_minimum: u64,
    after: Swap,
    r: Result<SwapReceipt, PoolError>,
    stop: u128,
    net: int,
)
    requires
        swapped(
            before,
            accounts,
            amount,
            false,
            sqrt_price_limit,
            amount_out_minimum,
            after,
            r,
        ),
        r is Ok,
        before.pool.fee_rate < 1_000_000,
        ends_by(
            accounts,
            before.pool.tick_current as int,
            false,
            sqrt_price_limit,
            after.pool.sqrt_price,
            stop,
        ),
        0 < before.pool.sqrt_price < stop,
        net * 1_000_000 <= amount * (1_000_000 - before.pool.fee_rate) < (net + 1) * 1_000_000,
    ensures
        ({
            let liquidity = before.pool.liquidity as int;
            let price = before.pool.sqrt_price as int;
            let next = after.pool.sqrt_price as int;
            let paid = r->Ok_0.payment.amount as int;
            let fee = r->Ok_0.event.fee_amount as int;
            let received = r->Ok_0.payout.transfer.amount as int;
            &&& price <= next <= stop
            &&& (paid - 1) * 0x1_0000_0000_0000_0000 < liquidity * (next - price) <= paid
                * 0x1_0000_0000_0000_0000
            &&& received * (price * next) <= liquidity * (next - price) * 0x1_0000_0000_0000_0000
                < (received + 1) * (price * next)
            &&& paid <= net
            &&& paid + fee <= amount
            &&& next == stop ==> {
                &&& (paid + fee) * before.pool.fee_rate <= fee * 1_000_000
                &&& (fee - 1) * 1_000_000 < (paid + fee) * before.pool.fee_rate
            }
            &&& next < stop ==> {
                &&& paid + fee == amount
                &&& liquidity * (next - price) <= net * 0x1_0000_0000_0000_0000 < liquidity * (
                next - price + 1)
            }
        }),
{
    lemma_swap_ends_by(
        before,
        accounts,
        amount,
        false,
        sqrt_price_limit,
        amount_out_minimum,
        after,
        r,
        stop,
    );
    lemma_upward_step(swap_start(before.pool, amount), stop, before.pool.fee_rate as u128, net);
}

/// A swap that ends short of its stop pays, with its fee, all of its amount, and its fee is that
/// of the pool's rate on the amount, rounded up, but for what the price loses to rounding.
/// Upwards the fee is at least that, and what it is more is worth less than one unit of the
/// price. Downwards it lies between what one unit of the price less and one more would leave.
/// `charged` is `amount * fee_rate / 1_000_000`, rounded up.
pub proof fn law_short_swap_charges_pool_rate_on_amount(
    before: Swap,
    accounts: Seq<Vec<u8>>,
    amount: u64,
    zero_for_one: bool,
    sqrt_price_limit: u128,
    amount_out_minimum: u64,
    after: Swap,
    r: Result<SwapReceipt, PoolError>,
    stop: u128,
    charged: int,
)
    requires
        swapped(
            before,
            accounts,
            amount,
            zero_for_one,
            sqrt_price_limit,
            amount_out_minimum,
            after,
            r,
        ),
        r is Ok,
        before.pool.fee_rate < 1_000_000,
        ends_by(
            accounts,
            before.pool.tick_current as int,
            zero_for_one,
            sqrt_price_limit,
            after.pool.sqrt_price,
            stop,
        ),
        if zero_for_one {
            stop < after.pool.sqrt_price && stop < before.pool.sqrt_price
        } else {
            stop > after.pool.sqrt_price && stop > before.pool.sqrt_price > 0
        },
        (charged - 1) * 1_000_000 < amount * before.pool.fee_rate <= charged * 1_000_000,
    ensures
        ({
            let liquidity = before.pool.liquidity as int;
            let price = before.pool.sqrt_price as int;
            let next = after.pool.sqrt_price as int;
            let paid = r->Ok_0.payment.amount as int;
            let fee = r->Ok_0.event.fee_amount as int;
            &&& paid + fee == amount
            &&& !zero_for_one ==> charged <= fee && (fee - charged) * 0x1_0000_0000_0000_0000
                < liquidity
            &&& zero_for_one ==> {
                &&& liquidity * (price - next - 1) * 0x1_0000_0000_0000_0000 <= (amount - charged)
                    * (price * (next + 1))
                &&& (amount - charged) * (price * (next - 1)) <= liquidity * (price - next + 1)
                    * 0x1_0000_0000_0000_0000
            }
        }),
{
    let net = amount - charged;
    let rate = before.pool.fee_rate as int;
    assert(amount * (1_000_000 - rate) == amount * 1_000_000 - amount * rate) by (nonlinear_arith);
    if zero_for_one {
        law_downward_swap_charges_pool_rate(
            before,
            accounts,
            amount,
            sqrt_price_limit,
            amount_out_minimum,
            after,
            r,
            stop,
            net,
        );
    } else {
        law_upward_swap_charges_pool_rate(
            before,
            accounts,
            amount,
            sqrt_price_limit,
            amount_out_minimum,
            after,
            r,
            stop,
            net,
        );
        let l = before.pool.liquidity as int;
        let way = after.pool.sqrt_price - before.pool.sqrt_price;
        assert(l * (way + 1) == l * way + l) by (nonlinear_arith);
    }
}

/// A swap that crosses no tick keeps the active liquidity, and the pool's tick becomes that of
/// its price where the price has moved. The fee growth of the input token rises by the fee per
/// unit of liquidity, rounded down and clamped at 128 bits.
pub proof fn law_swap_without_crossing_keeps_liquidity(
    before: Swap,
    accounts: Seq<Vec<u8>>,
    amount: u64,
    zero_for_one: bool,
    sqrt_price_limit: u128,
    amount_out_minimum: u64,
    after: Swap,
    r: Result<SwapReceipt, PoolError>,
    stop: u128,
    growth: int,
)
    requires
        swapped(
            before,
            accounts,
            amount,
            zero_for_one,
            sqrt_price_limit,
            amount_out_minimum,
            after,
            r,
        ),
        r is Ok,
        ends_by(
            accounts,
            before.pool.tick_current as int,
            zero_for_one,
            sqrt_price_limit,
            after.pool.sqrt_price,
            stop,
        ),
        after.pool.sqrt_price != stop || nothing_ahead(
            accounts,
            before.pool.tick_current as int,
            zero_for_one,
        ),
        0 <= growth,
        growth * before.pool.liquidity <= r->Ok_0.event.fee_amount * 0x1_0000_0000_0000_0000 < (
        growth + 1) * before.pool.liquidity,
    ensures
        after.pool.liquidity == before.pool.liquidity,
        after.pool.sqrt_price == before.pool.sqrt_price ==> after.pool.tick_current
            == before.pool.tick_current,
        ({
            let tick = after.pool.tick_current as int;
            let price = after.pool.sqrt_price;
            price != before.pool.sqrt_price ==> {
                &&& -443_636 <= tick <= 443_636
                &&& tick > -443_636 ==> sqrt_price_at(tick) <= price
                &&& tick < 443_636 ==> price < sqrt_price_at(tick + 1)
            }
        }),
        zero_for_one && before.pool.fee_growth_global_0 + growth <= u128::MAX
            ==> after.pool.fee_growth_global_0 == before.pool.fee_growth_global_0 + growth,
        !zero_for_one && before.pool.fee_growth_global_1 + growth <= u128::MAX
            ==> after.pool.fee_growth_global_1 == before.pool.fee_growth_global_1 + growth,
        zero_for_one && before.pool.fee_growth_global_0 + growth > u128::MAX
            ==> after.pool.fee_growth_global_0 == u128::MAX,
        !zero_for_one && before.pool.fee_growth_global_1 + growth > u128::MAX
            ==> after.pool.fee_growth_global_1 == u128::MAX,
{
    lemma_swap_ends_by(
        before,
        accounts,
        amount,
        zero_for_one,
        sqrt_price_limit,
        amount_out_minimum,
        after,
        r,
        stop,
    );
    law_price_has_one_tick(
        after.pool.sqrt_price as int,
        tick_of_price(after.pool.sqrt_price as int),
    );
    let liquidity = before.pool.liquidity as int;
    let credited = r->Ok_0.event.fee_amount * Q64;
    lemma_quotient(credited, liquidity);
    let quotient = credited / liquidity;
    assert(quotient == growth) by (nonlinear_arith)
        requires
            liquidity * quotient <= credited < liquidity * quotient + liquidity,
            growth * liquidity <= credited < (growth + 1) * liquidity,
            liquidity > 0,
    ;
    let end = swap_outcome(before.pool, accounts, amount, zero_for_one, sqrt_price_limit)->0;
    lemma_swap_accounts(
        before,
        accounts,
        amount,
        zero_for_one,
        sqrt_price_limit,
        amount_out_minimum,
        after,
        r,
    );
    assert(end.fee == r->Ok_0.event.fee_amount);
}

/// A swap never takes more than the amount offered, whatever it crosses: payment and fee are
/// part of it. A tenth of the fee, rounded down, goes to the protocol, in the input token.
pub proof fn law_swap_takes_no_more_than_offered(
    before: Swap,
    accounts: Seq<Vec<u8>>,
    amount: u64,
    zero_for_one: bool,
    sqrt_price_limit: u128,
    amount_out_minimum: u64,
    after: Swap,
    r: Result<SwapReceipt, PoolError>,
)
    requires
        swapped(
            before,
            accounts,
            amount,
            zero_for_one,
            sqrt_price_limit,
            amount_out_minimum,
            after,
            r,
        ),
        r is Ok,
    ensures
        r->Ok_0.payment.amount + r->Ok_0.event.fee_amount <= amount,
        ({
            let fee = r->Ok_0.event.fee_amount;
            let share = fee as int / 10;
            let (kept, gained) = if zero_for_one {
                (before.pool.protocol_fee_0, after.pool.protocol_fee_0)
            } else {
                (before.pool.protocol_fee_1, after.pool.protocol_fee_1)
            };
            &&& kept + share <= u64::MAX ==> gained == kept + share
            &&& kept + share > u64::MAX ==> gained == u64::MAX
        }),
{
    lemma_swap_accounts(
        before,
        accounts,
        amount,
        zero_for_one,
        sqrt_price_limit,
        amount_out_minimum,
        after,
        r,
    );
}

/// What a swap orders and reports agrees, goes between the user and the vaults in the swap's
/// direction, and is not less than the minimum. Whatever is fixed when the pool is set up
/// stays, and so do the fee counters of the output token.
pub proof fn law_swap_orders_what_it_reports(
    before: Swap,
    accounts: Seq<Vec<u8>>,
    amount: u64,
    zero_for_one: bool,
    sqrt_price_limit: u128,
    amount_out_minimum: u64,
    after: Swap,
    r: Result<SwapReceipt, PoolError>,
)
    requires
        swapped(
            before,
            accounts,
            amount,
            zero_for_one,
            sqrt_price_limit,
            amount_out_minimum,
            after,
            r,
        ),
        r is Ok,
    ensures
        ({
            let receipt = r->Ok_0;
            &&& receipt.payment.amount == receipt.event.amount_in
            &&& receipt.payout.transfer.amount == receipt.event.amount_out
            &&& receipt.payout.transfer.amount > 0
            &&& receipt.payout.transfer.amount >= amount_out_minimum
            &&& receipt.payment.authority == before.user
            &&& receipt.payout.transfer.authority == before.pool_key
            &&& zero_for_one ==> {
                &&& receipt.payment.from == before.user_token_account_0.key
                &&& receipt.payment.to == before.token_vault_0.key
                &&& receipt.payout.transfer.from == before.token_vault_1.key
                &&& receipt.payout.transfer.to == before.user_token_account_1.key
                &&& after.pool.fee_growth_global_1 == before.pool.fee_growth_global_1
                &&& after.pool.protocol_fee_1 == before.pool.protocol_fee_1
                &&& after.pool.fee_growth_global_0 >= before.pool.fee_growth_global_0
            }
            &&& !zero_for_one ==> {
                &&& receipt.payment.from == before.user_token_account_1.key
                &&& receipt.payment.to == before.token_vault_1.key
                &&& receipt.payout.transfer.from == before.token_vault_0.key
                &&& receipt.payout.transfer.to == before.user_token_account_0.key
                &&& after.pool.fee_growth_global_0 == before.pool.fee_growth_global_0
                &&& after.pool.protocol_fee_0 == before.pool.protocol_fee_0
                &&& after.pool.fee_growth_global_1 >= before.pool.fee_growth_global_1
            }
            &&& receipt.payout.seeds.token_mint_0 == before.pool.token_mint_0
            &&& receipt.payout.seeds.token_mint_1 == before.pool.token_mint_1
            &&& receipt.payout.seeds.bump@[0] == before.pool.bump
            &&& receipt.payout.seeds.label@ == seq![0x70u8, 0x6f, 0x6f, 0x6c]
            &&& receipt.payout.seeds.fee_rate@[0] + 0x100 * receipt.payout.seeds.fee_rate@[1]
                + 0x1_0000 * receipt.payout.seeds.fee_rate@[2] + 0x100_0000
                * receipt.payout.seeds.fee_rate@[3] == before.pool.fee_rate
            &&& receipt.event.pool == before.pool_key
            &&& receipt.event.zero_for_one == zero_for_one
            &&& receipt.event.sqrt_price_before == before.pool.sqrt_price
            &&& receipt.event.sqrt_price_after == after.pool.sqrt_price
            &&& receipt.event.tick_before == before.pool.tick_current
            &&& receipt.event.tick_after == after.pool.tick_current
        }),
        after.pool.token_mint_0 == before.pool.token_mint_0,
        after.pool.token_mint_1 == before.pool.token_mint_1,
        after.pool.token_vault_0 == before.pool.token_vault_0,
        after.pool.token_vault_1 == before.pool.token_vault_1,
        after.pool.tick_manager_program == before.pool.tick_manager_program,
        after.pool.fee_rate == before.pool.fee_rate,
        after.pool.bump == before.pool.bump,
        after.pool.initialized,
        after.pool_key == before.pool_key,
        after.token_vault_0 == before.token_vault_0,
        after.token_vault_1 == before.token_vault_1,
        after.user_token_account_0 == before.user_token_account_0,
        after.user_token_account_1 == before.user_token_account_1,
        after.user == before.user,
{
    assert(seq![before.pool.bump][0] == before.pool.bump);
}

/// A swap is refused, for a reason that its accounts and arguments show, in this order: a token
/// account of the user does not fit, the pool is not set up, nothing is offered, the pool has
/// no active liquidity, or the limit is not on the side that the price moves to. A swap that
/// fails changes nothing.
pub proof fn law_refused_swaps_change_nothing(
    before: Swap,
    accounts: Seq<Vec<u8>>,
    amount: u64,
    zero_for_one: bool,
    sqrt_price_limit: u128,
    amount_out_minimum: u64,
    after: Swap,
    r: Result<SwapReceipt, PoolError>,
)
    requires
        swapped(
            before,
            accounts,
            amount,
            zero_for_one,
            sqrt_price_limit,
            amount_out_minimum,
            after,
            r,
        ),
    ensures
        r is Err ==> after == before,
        ({
            let accounts_fit = {
                &&& before.user_token_account_0.mint == before.pool.token_mint_0
                &&& before.user_token_account_1.mint == before.pool.token_mint_1
                &&& before.user_token_account_0.owner == before.user
                &&& before.user_token_account_1.owner == before.user
            };
            let limit_fits = if zero_for_one {
                sqrt_price_limit < before.pool.sqrt_price
            } else {
                sqrt_price_limit > before.pool.sqrt_price
            };
            &&& !accounts_fit ==> r == Err::<SwapReceipt, PoolError>(
                PoolError::InvalidTokenAccount,
            )
            &&& accounts_fit && !before.pool.initialized ==> r == Err::<SwapReceipt, PoolError>(
                PoolError::PoolNotInitialized,
            )
            &&& accounts_fit && before.pool.initialized ==> {
                &&& amount == 0 ==> r == Err::<SwapReceipt, PoolError>(PoolError::ZeroAmount)
                &&& amount > 0 && before.pool.liquidity == 0 ==> r == Err::<
                    SwapReceipt,
                    PoolError,
                >(PoolError::InsufficientLiquidity)
                &&& amount > 0 && before.pool.liquidity > 0 && !limit_fits ==> r == Err::<
                    SwapReceipt,
                    PoolError,
                >(PoolError::InvalidPriceLimit)
                &&& amount > 0 && before.pool.liquidity > 0 && limit_fits && r is Err ==> {
                    ||| r->Err_0 == PoolError::InvalidTickArray
                    ||| r->Err_0 == PoolError::ZeroOutput
                    ||| r->Err_0 == PoolError::SlippageExceeded
                    ||| r->Err_0 == PoolError::AmountOverflow
                }
            }
        }),
        r is Err && r->Err_0 == PoolError::SlippageExceeded ==> amount_out_minimum > 1,
{
}

/// A swap that comes to the first tick in use ahead, and goes no further, crosses it: the
/// active liquidity changes by the net liquidity in the first array that spans the tick, which
/// is added upwards and taken off downwards. Downwards the pool is then below the tick.
#[verifier::rlimit(30)]
pub proof fn law_swap_crosses_the_tick_it_comes_to(
    before: Swap,
    accounts: Seq<Vec<u8>>,
    amount: u64,
    zero_for_one: bool,
    sqrt_price_limit: u128,
    amount_out_minimum: u64,
    after: Swap,
    r: Result<SwapReceipt, PoolError>,
    boundary: int,
    i: int,
    slot: int,
)
    requires
        swapped(
            before,
            accounts,
            amount,
            zero_for_one,
            sqrt_price_limit,
            amount_out_minimum,
            after,
            r,
        ),
        r is Ok,
        first_ahead(accounts, before.pool.tick_current as int, zero_for_one, boundary),
        after.pool.sqrt_price == sqrt_price_at(boundary),
        if zero_for_one {
            sqrt_price_limit >= after.pool.sqrt_price
        } else {
            sqrt_price_limit <= after.pool.sqrt_price
        },
        flagged(accounts, i, slot),
        tick_held(accounts, i, slot) == boundary,
        forall|j: int|
            0 <= j < i ==> !(le_i32((#[trigger] accounts[j])@, 8) <= boundary < le_i32(
                accounts[j]@,
                8,
            ) + 5_632),
        le_i128(accounts[i]@, 56 + 80 * slot) > i128::MIN,
    ensures
        ({
            let net = le_i128(accounts[i]@, 56 + 80 * slot);
            let crossed = if zero_for_one {
                before.pool.liquidity - net
            } else {
                before.pool.liquidity + net
            };
            &&& 0 <= crossed <= u128::MAX ==> after.pool.liquidity == crossed
            &&& crossed < 0 ==> after.pool.liquidity == 0
            &&& crossed > u128::MAX ==> after.pool.liquidity == u128::MAX
        }),
        after.pool.tick_current == if zero_for_one {
            boundary - 1
        } else {
            boundary
        },
{
    let start = swap_start(before.pool, amount);
    let tick = before.pool.tick_current as int;
    lemma_first_ahead(accounts, tick, zero_for_one, boundary);
    assert(price_target(accounts, tick, zero_for_one, sqrt_price_limit) == Some(
        sqrt_price_at(boundary),
    ));
    let step = segment_step(start, sqrt_price_at(boundary) as u128, before.pool.fee_rate as int);
    let moved = state_after_step(start, step);
    law_price_has_one_tick(
        moved.sqrt_price as int,
        tick_of_price(moved.sqrt_price as int),
    );
    assert(slot_of(accounts[i]@, boundary) == slot);
    assert forall|j: int| 0 <= j < i implies !#[trigger] decides(accounts[j]@, boundary) by {
        assert(accounts[j] == accounts[j]);
    }
    law_recorded_net_is_applied(accounts, boundary, i, zero_for_one);
}

/// A swap past the first tick in use ahead is a swap to that tick, followed by a swap of what
/// is left from there: they end at the same price, tick and active liquidity, and payments,
/// fees, payouts and fee growth add up. So each stretch between two ticks is charged the
/// pool's rate, as a swap that ends there is.
#[verifier::rlimit(30)]
pub proof fn law_swap_goes_on_from_the_tick_it_crosses(
    before: Swap,
    accounts: Seq<Vec<u8>>,
    amount: u64,
    zero_for_one: bool,
    sqrt_price_limit: u128,
    amount_out_minimum: u64,
    after: Swap,
    r: Result<SwapReceipt, PoolError>,
    boundary: int,
    stop: u128,
    there: Swap,
    first: Result<SwapReceipt, PoolError>,
    rest: u64,
    end: Swap,
    second: Result<SwapReceipt, PoolError>,
)
    requires
        swapped(
            before,
            accounts,
            amount,
            zero_for_one,
            sqrt_price_limit,
            amount_out_minimum,
            after,
            r,
        ),
        r is Ok,
        first_ahead(accounts, before.pool.tick_current as int, zero_for_one, boundary),
        stop == sqrt_price_at(boundary),
        if zero_for_one {
            sqrt_price_limit < stop
        } else {
            sqrt_price_limit > stop
        },
        r->Ok_0.payment.amount + r->Ok_0.event.fee_amount == amount || if zero_for_one {
            after.pool.sqrt_price <= sqrt_price_limit
        } else {
            after.pool.sqrt_price >= sqrt_price_limit
        },
        swapped(before, accounts, amount, zero_for_one, stop, 0, there, first),
        first is Ok,
        there.pool.sqrt_price == stop,
        rest == amount - first->Ok_0.payment.amount - first->Ok_0.event.fee_amount,
        swapped(there, accounts, rest, zero_for_one, sqrt_price_limit, 0, end, second),
        second is Ok,
    ensures
        after.pool.sqrt_price == end.pool.sqrt_price,
        after.pool.tick_current == end.pool.tick_current,
        after.pool.liquidity == end.pool.liquidity,
        after.pool.fee_growth_global_0 == end.pool.fee_growth_global_0,
        after.pool.fee_growth_global_1 == end.pool.fee_growth_global_1,
        r->Ok_0.payment.amount == first->Ok_0.payment.amount + second->Ok_0.payment.amount,
        r->Ok_0.event.fee_amount == first->Ok_0.event.fee_amount
            + second->Ok_0.event.fee_amount,
        r->Ok_0.payout.transfer.amount == first->Ok_0.payout.transfer.amount
            + second->Ok_0.payout.transfer.amount,
{
    let rate = before.pool.fee_rate as u128;
    lemma_swap_accounts(
        before,
        accounts,
        amount,
        zero_for_one,
        sqrt_price_limit,
        amount_out_minimum,
        after,
        r,
    );
    lemma_swap_accounts(there, accounts, rest, zero_for_one, sqrt_price_limit, 0, end, second);
    lemma_first_crossing(
        before,
        accounts,
        amount,
        zero_for_one,
        sqrt_price_limit,
        boundary,
        stop,
        there,
        first,
        rest,
    );
    let crossed = swap_outcome(before.pool, accounts, amount, zero_for_one, stop)->0;
    let from = swap_start(there.pool, rest);
    let left = (MAX_TICK_CROSSINGS - 1) as nat;
    lemma_walk_ahead_by(
        crossed,
        from,
        crossed,
        accounts,
        zero_for_one,
        sqrt_price_limit,
        rate,
        left,
    );
    lemma_walk_needs_no_more_crossings(
        from,
        accounts,
        zero_for_one,
        sqrt_price_limit,
        rate,
        left,
    );
}

/// Upwards the fee is never less than the pool's rate of all that the swap takes, whatever it
/// crosses.
pub proof fn law_upward_fee_covers_pool_rate(
    before: Swap,
    accounts: Seq<Vec<u8>>,
    amount: u64,
    sqrt_price_limit: u128,
    amount_out_minimum: u64,
    after: Swap,
    r: Result<SwapReceipt, PoolError>,
)
    requires
        swapped(
            before,
            accounts,
            amount,
            false,
            sqrt_price_limit,
            amount_out_minimum,
            after,
            r,
        ),
        r is Ok,
        before.pool.fee_rate < 1_000_000,
        all_on_grid(accounts),
        before.pool.sqrt_price > 0,
        ({
            let tick = before.pool.tick_current as int;
            &&& -443_636 < tick < 443_636
            &&& sqrt_price_at(tick) <= before.pool.sqrt_price < sqrt_price_at(tick + 1)
        }),
    ensures
        (r->Ok_0.payment.amount + r->Ok_0.event.fee_amount) * before.pool.fee_rate
            <= r->Ok_0.event.fee_amount * 1_000_000,
{
    lemma_on_grid(accounts);
    law_price_has_one_tick(before.pool.sqrt_price as int, before.pool.tick_current as int);
    lemma_swap_accounts(
        before,
        accounts,
        amount,
        false,
        sqrt_price_limit,
        amount_out_minimum,
        after,
        r,
    );
    lemma_upward_walk_fee(
        swap_start(before.pool, amount),
        accounts,
        sqrt_price_limit,
        before.pool.fee_rate as u128,
        MAX_TICK_CROSSINGS as nat,
    );
}

/// A swap ahead of which there are at most nine ticks in use does not stop halfway: it uses up
/// its amount, or comes to its limit.
pub proof fn law_swap_goes_all_the_way(
    before: Swap,
    accounts: Seq<Vec<u8>>,
    amount: u64,
    zero_for_one: bool,
    sqrt_price_limit: u128,
    amount_out_minimum: u64,
    after: Swap,
    r: Result<SwapReceipt, PoolError>,
    ticks: Seq<int>,
)
    requires
        swapped(
            before,
            accounts,
            amount,
            zero_for_one,
            sqrt_price_limit,
            amount_out_minimum,
            after,
            r,
        ),
        r is Ok,
        before.pool.sqrt_price > 0,
        sqrt_price_limit > 0,
        ticks.len() <= 9,
        forall|i: int, slot: int| #[trigger]
            flagged(accounts, i, slot) && (if zero_for_one {
                tick_held(accounts, i, slot) <= before.pool.tick_current
            } else {
                tick_held(accounts, i, slot) > before.pool.tick_current
            }) ==> ticks.contains(tick_held(accounts, i, slot)),
    ensures
        r->Ok_0.payment.amount + r->Ok_0.event.fee_amount == amount || if zero_for_one {
            after.pool.sqrt_price <= sqrt_price_limit
        } else {
            after.pool.sqrt_price >= sqrt_price_limit
        },
{
    lemma_swap_accounts(
        before,
        accounts,
        amount,
        zero_for_one,
        sqrt_price_limit,
        amount_out_minimum,
        after,
        r,
    );
    lemma_walk_goes_all_the_way(
        swap_start(before.pool, amount),
        accounts,
        zero_for_one,
        sqrt_price_limit,
        before.pool.fee_rate as u128,
        MAX_TICK_CROSSINGS as nat,
        ticks,
    );
}

/// A swap passes no more than ten ticks in use.
pub proof fn law_swap_crosses_at_most_ten_ticks(
    before: Swap,
    accounts: Seq<Vec<u8>>,
    amount: u64,
    zero_for_one: bool,
    sqrt_price_limit: u128,
    amount_out_minimum: u64,
    after: Swap,
    r: Result<SwapReceipt, PoolError>,
    ticks: Seq<int>,
)
    requires
        swapped(
            before,
            accounts,
            amount,
            zero_for_one,
            sqrt_price_limit,
            amount_out_minimum,
            after,
            r,
        ),
        r is Ok,
        all_on_grid(accounts),
        ({
            let tick = before.pool.tick_current as int;
            &&& -443_636 < tick < 443_636
            &&& sqrt_price_at(tick) <= before.pool.sqrt_price < sqrt_price_at(tick + 1)
        }),
        forall|k: int, m: int| 0 <= k < m < ticks.len() ==> ticks[k] != ticks[m],
        forall|k: int|
            0 <= k < ticks.len() ==> if zero_for_one {
                after.pool.tick_current < #[trigger] ticks[k] <= before.pool.tick_current
            } else {
                before.pool.tick_current < ticks[k] <= after.pool.tick_current
            },
        forall|k: int| 0 <= k < ticks.len() ==> in_use(accounts, #[trigger] ticks[k]),
    ensures
        ticks.len() <= 10,
{
    lemma_on_grid(accounts);
    law_price_has_one_tick(before.pool.sqrt_price as int, before.pool.tick_current as int);
    lemma_walk_crossings(
        swap_start(before.pool, amount),
        accounts,
        zero_for_one,
        sqrt_price_limit,
        before.pool.fee_rate as u128,
        MAX_TICK_CROSSINGS as nat,
        ticks,
    );
}

/// A swap of token 0 is accepted whenever it should be: no tick in use is ahead, the amount
/// less its fee pays for the way to a price that the limit allows, and that way gives at least
/// one unit of token 1, no less than the minimum, and no more than 64 bits up to the limit. It
/// then gets at least as far as that price.
pub proof fn law_downward_swaps_are_accepted(
    before: Swap,
    accounts: Seq<Vec<u8>>,
    amount: u64,
    sqrt_price_limit: u128,
    amount_out_minimum: u64,
    after: Swap,
    r: Result<SwapReceipt, PoolError>,
    net: int,
    price: u128,
)
    requires
        swapped(
            before,
            accounts,
            amount,
            true,
            sqrt_price_limit,
            amount_out_minimum,
            after,
            r,
        ),
        before.user_token_account_0.mint == before.pool.token_mint_0,
        before.user_token_account_1.mint == before.pool.token_mint_1,
        before.user_token_account_0.owner == before.user,
        before.user_token_account_1.owner == before.user,
        before.pool.initialized,
        before.pool.liquidity > 0,
        before.pool.fee_rate < 1_000_000,
        amount > 0,
        nothing_ahead(accounts, before.pool.tick_current as int, true),
        net * 1_000_000 <= amount * (1_000_000 - before.pool.fee_rate) < (net + 1) * 1_000_000,
        sqrt_price_limit <= price < before.pool.sqrt_price,
        before.pool.liquidity * (before.pool.sqrt_price - price) * 0x1_0000_0000_0000_0000 <= net
            * (before.pool.sqrt_price * price),
        0x1_0000_0000_0000_0000 <= before.pool.liquidity * (before.pool.sqrt_price - price),
        amount_out_minimum * 0x1_0000_0000_0000_0000 <= before.pool.liquidity * (
        before.pool.sqrt_price - price),
        before.pool.liquidity * (before.pool.sqrt_price - sqrt_price_limit)
            < 0x1_0000_0000_0000_0000_0000_0000_0000_0000int,
    ensures
        r is Ok,
        after.pool.sqrt_price <= price,
{
    let start = swap_start(before.pool, amount);
    let rate = before.pool.fee_rate as u128;
    lemma_nothing_ahead(accounts, before.pool.tick_current as int, true);
    lemma_downward_step(start, sqrt_price_limit, rate, net);
    lemma_downward_reach(start, sqrt_price_limit, rate, net, price);
    let step = segment_step(start, sqrt_price_limit, rate as int);
    let l = before.pool.liquidity as int;
    let far = l * (before.pool.sqrt_price - step.sqrt_price_next);
    let near = l * (before.pool.sqrt_price - price);
    let all = l * (before.pool.sqrt_price - sqrt_price_limit);
    assert(near <= far <= all) by (nonlinear_arith)
        requires
            far == l * (before.pool.sqrt_price - step.sqrt_price_next),
            near == l * (before.pool.sqrt_price - price),
            all == l * (before.pool.sqrt_price - sqrt_price_limit),
            sqrt_price_limit <= step.sqrt_price_next <= price,
            l > 0,
    ;
}

/// A swap of token 1 is accepted whenever it should be: no tick in use is ahead, the amount
/// less its fee pays for the way to a price that the limit allows, and that way gives at least
/// one unit of token 0, no less than the minimum, and no more than 64 bits up to the limit. It
/// then gets at least as far as that price.
pub proof fn law_upward_swaps_are_accepted(
    before: Swap,
    accounts: Seq<Vec<u8>>,
    amount: u64,
    sqrt_price_limit: u128,
    amount_out_minimum: u64,
    after: Swap,
    r: Result<SwapReceipt, PoolError>,
    net: int,
    price: u128,
)
    requires
        swapped(
            before,
            accounts,
            amount,
            false,
            sqrt_price_limit,
            amount_out_minimum,
            after,
            r,
        ),
        before.user_token_account_0.mint == before.pool.token_mint_0,
        before.user_token_account_1.mint == before.pool.token_mint_1,
        before.user_token_account_0.owner == before.user,
        before.user_token_account_1.owner == before.user,
        before.pool.initialized,
        before.pool.liquidity > 0,
        before.pool.fee_rate < 1_000_000,
        amount > 0,
        nothing_ahead(accounts, before.pool.tick_current as int, false),
        net * 1_000_000 <= amount * (1_000_000 - before.pool.fee_rate) < (net + 1) * 1_000_000,
        0 < before.pool.sqrt_price < price <= sqrt_price_limit,
        before.pool.liquidity * (price - before.pool.sqrt_price) <= net
            * 0x1_0000_0000_0000_0000,
        before.pool.sqrt_price * price <= before.pool.liquidity * (price - before.pool.sqrt_price)
            * 0x1_0000_0000_0000_0000,
        amount_out_minimum * (before.pool.sqrt_price * price) <= before.pool.liquidity * (price
            - before.pool.sqrt_price) * 0x1_0000_0000_0000_0000,
        before.pool.liquidity <= u64::MAX * before.pool.sqrt_price / 0x1_0000_0000_0000_0000int,
    ensures
        r is Ok,
        after.pool.sqrt_price >= price,
{
    let start = swap_start(before.pool, amount);
    let rate = before.pool.fee_rate as u128;
    lemma_nothing_ahead(accounts, before.pool.tick_current as int, false);
    lemma_upward_step(start, sqrt_price_limit, rate, net);
    let step = segment_step(start, sqrt_price_limit, rate as int);
    let l = before.pool.liquidity as int;
    let from = before.pool.sqrt_price as int;
    let to = step.sqrt_price_next as int;
    let there = price as int;
    assert(there <= to) by {
        if to < sqrt_price_limit {
            assert(there <= to) by (nonlinear_arith)
                requires
                    l * (there - from) <= net * Q64,
                    net * Q64 < l * (to - from + 1),
                    l > 0,
            ;
        }
    }
    let out = step.amount_out as int;
    let moved = l * (to - from) * Q64;
    let least = if amount_out_minimum > 0 {
        amount_out_minimum as int
    } else {
        1
    };
    assert(least * (from * to) <= moved) by (nonlinear_arith)
        requires
            least * (from * there) <= l * (there - from) * Q64,
            0 < from < there <= to,
            moved == l * (to - from) * Q64,
            l > 0,
            least > 0,
    {
        let x = l * Q64;
        assert(least * from * there <= x * there - x * from);
        assert(x * from > 0);
        assert(x * from <= there * (x - least * from));
        assert(x - least * from > 0);
        assert(there * (x - least * from) <= to * (x - least * from));
    }
    assert(from * to > 0) by (nonlinear_arith)
        requires
            0 < from <= to,
    ;
    assert(least <= out) by (nonlinear_arith)
        requires
            least * (from * to) <= moved,
            moved < (out + 1) * (from * to) || out >= u64::MAX,
            least <= u64::MAX,
            from * to > 0,
    ;
    assert(out <= u64::MAX) by (nonlinear_arith)
        requires
            out * (from * to) <= moved,
            moved == l * (to - from) * Q64,
            l * Q64 <= u64::MAX * from,
            0 < from <= to,
    {
        assert(moved == (l * Q64) * (to - from));
        assert((l * Q64) * (to - from) <= (u64::MAX * from) * (to - from));
        assert((u64::MAX * from) * (to - from) <= (u64::MAX * from) * to);
        assert(out * (from * to) <= u64::MAX * (from * to));
        assert(from * to > 0);
    }
}

/// A swap reads every tick array that is whole, with ticks that have a price and net
/// liquidity that has a negative.
pub proof fn law_whole_tick_arrays_are_read(
    before: Swap,
    accounts: Seq<Vec<u8>>,
    amount: u64,
    zero_for_one: bool,
    sqrt_price_limit: u128,
    amount_out_minimum: u64,
    after: Swap,
    r: Result<SwapReceipt, PoolError>,
)
    requires
        swapped(
            before,
            accounts,
            amount,
            zero_for_one,
            sqrt_price_limit,
            amount_out_minimum,
            after,
            r,
        ),
        forall|i: int| 0 <= i < accounts.len() ==> (#[trigger] accounts[i])@.len() == 7_096,
        forall|i: int, slot: int| #[trigger]
            flagged(accounts, i, slot) ==> {
                &&& -443_636 <= tick_held(accounts, i, slot) <= 443_636
                &&& le_i128(accounts[i]@, 56 + 80 * slot) > i128::MIN
            },
    ensures
        r is Err ==> r->Err_0 != PoolError::InvalidTickArray,
{
    lemma_walk_reads_whole_arrays(
        swap_start(before.pool, amount),
        accounts,
        zero_for_one,
        sqrt_price_limit,
        before.pool.fee_rate as int,
        MAX_TICK_CROSSINGS as nat,
    );
}

/// The minimum decides about a swap as it should: one that goes through without it goes through
/// with it, to the same end, just where the payout meets it. Else it is refused and changes
/// nothing.
pub proof fn law_minimum_decides_swaps(
    before: Swap,
    accounts: Seq<Vec<u8>>,
    amount: u64,
    zero_for_one: bool,
    sqrt_price_limit: u128,
    amount_out_minimum: u64,
    unbound_after: Swap,
    unbound: Result<SwapReceipt, PoolError>,
    after: Swap,
    r: Result<SwapReceipt, PoolError>,
)
    requires
        swapped(
            before,
            accounts,
            amount,
            zero_for_one,
            sqrt_price_limit,
            0,
            unbound_after,
            unbound,
        ),
        unbound is Ok,
        swapped(
            before,
            accounts,
            amount,
            zero_for_one,
            sqrt_price_limit,
            amount_out_minimum,
            after,
            r,
        ),
    ensures
        ({
            let met = unbound->Ok_0.payout.transfer.amount >= amount_out_minimum;
            &&& met ==> r is Ok && after == unbound_after && r->Ok_0.event == unbound->Ok_0.event
            &&& !met ==> r == Err::<SwapReceipt, PoolError>(PoolError::SlippageExceeded) && after
                == before
        }),
{
}

/// The limit plays no part in a swap that ends short of the first tick in use ahead: with any
/// limit that is accepted, it comes to the same end.
#[verifier::rlimit(30)]
pub proof fn law_limit_plays_no_part_before_first_tick(
    before: Swap,
    accounts: Seq<Vec<u8>>,
    amount: u64,
    zero_for_one: bool,
    sqrt_price_limit: u128,
    amount_out_minimum: u64,
    after: Swap,
    r: Result<SwapReceipt, PoolError>,
    boundary: int,
    other_limit: u128,
    other_after: Swap,
    other: Result<SwapReceipt, PoolError>,
)
    requires
        swapped(
            before,
            accounts,
            amount,
            zero_for_one,
            sqrt_price_limit,
            amount_out_minimum,
            after,
            r,
        ),
        r is Ok,
        swapped(
            before,
            accounts,
            amount,
            zero_for_one,
            other_limit,
            amount_out_minimum,
            other_after,
            other,
        ),
        all_on_grid(accounts),
        first_ahead(accounts, before.pool.tick_current as int, zero_for_one, boundary),
        if zero_for_one {
            &&& after.pool.sqrt_price > sqrt_price_at(boundary)
            &&& other_limit < before.pool.sqrt_price
        } else {
            &&& after.pool.sqrt_price < sqrt_price_at(boundary)
            &&& other_limit > before.pool.sqrt_price
        },
    ensures
        other is Ok,
        other_after == after,
        other->Ok_0.event == r->Ok_0.event,
{
    let start = swap_start(before.pool, amount);
    let rate = before.pool.fee_rate as int;
    let tick = before.pool.tick_current as int;
    lemma_first_ahead(accounts, tick, zero_for_one, boundary);
    let target = sqrt_price_at(boundary) as u128;
    assert(price_target(accounts, tick, zero_for_one, sqrt_price_limit) == Some(
        sqrt_price_at(boundary),
    ));
    assert(price_target(accounts, tick, zero_for_one, other_limit) == Some(
        sqrt_price_at(boundary),
    ));
    let (next, go_on) = segment(start, accounts, zero_for_one, sqrt_price_limit, rate)->0;
    if go_on {
        lemma_walk_behind_boundary(
            next,
            accounts,
            zero_for_one,
            sqrt_price_limit,
            rate as u128,
            (MAX_TICK_CROSSINGS - 1) as nat,
            boundary,
        );
    }
    let step = segment_step(start, target, rate);
    assert(step.sqrt_price_next != target);
}

/// A swap to the first tick in use ahead is accepted whenever one to a limit at that tick's
/// price would be, were there no tick: it gets just as far and moves the same tokens, and only
/// crosses the tick on top where it comes to it.
#[verifier::rlimit(30)]
pub proof fn law_swap_to_first_tick_is_swap_to_its_price(
    before: Swap,
    accounts: Seq<Vec<u8>>,
    none: Seq<Vec<u8>>,
    amount: u64,
    zero_for_one: bool,
    sqrt_price_limit: u128,
    amount_out_minimum: u64,
    after: Swap,
    r: Result<SwapReceipt, PoolError>,
    plain_after: Swap,
    plain: Result<SwapReceipt, PoolError>,
    boundary: int,
    stop: u128,
)
    requires
        swapped(
            before,
            accounts,
            amount,
            zero_for_one,
            sqrt_price_limit,
            amount_out_minimum,
            after,
            r,
        ),
        none.len() == 0,
        swapped(
            before,
            none,
            amount,
            zero_for_one,
            stop,
            amount_out_minimum,
            plain_after,
            plain,
        ),
        plain is Ok,
        first_ahead(accounts, before.pool.tick_current as int, zero_for_one, boundary),
        stop == sqrt_price_at(boundary),
        if zero_for_one {
            stop <= sqrt_price_limit < before.pool.sqrt_price
        } else {
            before.pool.sqrt_price < sqrt_price_limit <= stop
        },
        forall|i: int| 0 <= i < accounts.len() ==> (#[trigger] accounts[i])@.len() == 7_096,
        forall|i: int, slot: int| #[trigger]
            flagged(accounts, i, slot) ==> le_i128(accounts[i]@, 56 + 80 * slot) > i128::MIN,
    ensures
        r is Ok,
        after.pool.sqrt_price == plain_after.pool.sqrt_price,
        after.pool.fee_growth_global_0 == plain_after.pool.fee_growth_global_0,
        after.pool.fee_growth_global_1 == plain_after.pool.fee_growth_global_1,
        after.pool.protocol_fee_0 == plain_after.pool.protocol_fee_0,
        after.pool.protocol_fee_1 == plain_after.pool.protocol_fee_1,
        r->Ok_0.payment == plain->Ok_0.payment,
        r->Ok_0.payout.transfer == plain->Ok_0.payout.transfer,
        r->Ok_0.event.fee_amount == plain->Ok_0.event.fee_amount,
{
    let start = swap_start(before.pool, amount);
    let rate = before.pool.fee_rate as int;
    let tick = before.pool.tick_current as int;
    lemma_first_ahead(accounts, tick, zero_for_one, boundary);
    assert(nothing_ahead(none, tick, zero_for_one));
    lemma_nothing_ahead(none, tick, zero_for_one);
    assert(price_target(accounts, tick, zero_for_one, sqrt_price_limit) == Some(
        sqrt_price_at(boundary),
    ));
    lemma_whole_arrays_tell_net(accounts, boundary, zero_for_one);
}

/// A swap past the first tick in use ahead is accepted whenever the swap to that tick is and
/// the swap of the rest from there is, with at most nine ticks in use ahead, as long as the
/// payouts together meet the minimum and fit 64 bits.
#[verifier::rlimit(30)]
pub proof fn law_swaps_past_a_tick_are_accepted(
    before: Swap,
    accounts: Seq<Vec<u8>>,
    amount: u64,
    zero_for_one: bool,
    sqrt_price_limit: u128,
    amount_out_minimum: u64,
    after: Swap,
    r: Result<SwapReceipt, PoolError>,
    boundary: int,
    stop: u128,
    there: Swap,
    first: Result<SwapReceipt, PoolError>,
    rest: u64,
    end: Swap,
    second: Result<SwapReceipt, PoolError>,
    ticks: Seq<int>,
)
    requires
        swapped(
            before,
            accounts,
            amount,
            zero_for_one,
            sqrt_price_limit,
            amount_out_minimum,
            after,
            r,
        ),
        first_ahead(accounts, before.pool.tick_current as int, zero_for_one, boundary),
        stop == sqrt_price_at(boundary),
        before.pool.sqrt_price > 0,
        0 < sqrt_price_limit,
        if zero_for_one {
            sqrt_price_limit < stop
        } else {
            sqrt_price_limit > stop
        },
        swapped(before, accounts, amount, zero_for_one, stop, 0, there, first),
        first is Ok,
        there.pool.sqrt_price == stop,
        rest == amount - first->Ok_0.payment.amount - first->Ok_0.event.fee_amount,
        swapped(there, accounts, rest, zero_for_one, sqrt_price_limit, 0, end, second),
        second is Ok,
        ticks.len() <= 9,
        forall|i: int, slot: int| #[trigger]
            flagged(accounts, i, slot) && (if zero_for_one {
                tick_held(accounts, i, slot) <= before.pool.tick_current
            } else {
                tick_held(accounts, i, slot) > before.pool.tick_current
            }) ==> ticks.contains(tick_held(accounts, i, slot)),
        amount_out_minimum <= first->Ok_0.payout.transfer.amount
            + second->Ok_0.payout.transfer.amount <= u64::MAX,
    ensures
        r is Ok,
{
    let start = swap_start(before.pool, amount);
    let rate = before.pool.fee_rate as u128;
    lemma_swap_accounts(there, accounts, rest, zero_for_one, sqrt_price_limit, 0, end, second);
    lemma_first_crossing(
        before,
        accounts,
        amount,
        zero_for_one,
        sqrt_price_limit,
        boundary,
        stop,
        there,
        first,
        rest,
    );
    let crossed = swap_outcome(before.pool, accounts, amount, zero_for_one, stop)->0;
    let from = swap_start(there.pool, rest);
    let left = (MAX_TICK_CROSSINGS - 1) as nat;
    lemma_walk_ahead_by(
        crossed,
        from,
        crossed,
        accounts,
        zero_for_one,
        sqrt_price_limit,
        rate,
        left,
    );
    lemma_shorter_walk(from, accounts, zero_for_one, sqrt_price_limit, rate, left);
    let others = lemma_ticks_behind(
        accounts,
        before.pool.tick_current as int,
        zero_for_one,
        boundary,
        ticks,
    );
    lemma_first_ahead(accounts, before.pool.tick_current as int, zero_for_one, boundary);
    lemma_walk_goes_all_the_way(
        from,
        accounts,
        zero_for_one,
        sqrt_price_limit,
        rate,
        left,
        others,
    );
    lemma_walk_needs_no_more_crossings(
        from,
        accounts,
        zero_for_one,
        sqrt_price_limit,
        rate,
        left,
    );
    let whole = swap_outcome(before.pool, accounts, amount, zero_for_one, sqrt_price_limit);
    assert(whole is Some);
    lemma_walk_accounts(
        start,
        accounts,
        zero_for_one,
        sqrt_price_limit,
        rate,
        MAX_TICK_CROSSINGS as nat,
        amount as int,
    );
}

/// A swap that can pay for the way to the first tick in use ahead is that way, at the pool's
/// rate, and a swap of what is left from behind the tick. A tick at the pool's price is crossed
/// for free. In a pool whose tick is not that of its price the way may lead back. `there` is
/// the pool behind the tick, `net` what is left of the amount after its fee.
#[verifier::rlimit(30)]
pub proof fn law_swap_is_way_to_first_tick_and_rest(
    before: Swap,
    accounts: Seq<Vec<u8>>,
    amount: u64,
    zero_for_one: bool,
    sqrt_price_limit: u128,
    amount_out_minimum: u64,
    after: Swap,
    r: Result<SwapReceipt, PoolError>,
    boundary: int,
    stop: u128,
    i: int,
    slot: int,
    net: int,
    way: Stretch,
    there: Swap,
    rest: u64,
    end: Swap,
    second: Result<SwapReceipt, PoolError>,
)
    requires
        swapped(
            before,
            accounts,
            amount,
            zero_for_one,
            sqrt_price_limit,
            amount_out_minimum,
            after,
            r,
        ),
        r is Ok,
        r->Ok_0.payment.amount + r->Ok_0.event.fee_amount == amount || if zero_for_one {
            after.pool.sqrt_price <= sqrt_price_limit
        } else {
            after.pool.sqrt_price >= sqrt_price_limit
        },
        before.pool.sqrt_price > 0,
        before.pool.fee_rate < 1_000_000,
        first_ahead(accounts, before.pool.tick_current as int, zero_for_one, boundary),
        stop == sqrt_price_at(boundary),
        if zero_for_one {
            sqrt_price_limit < stop && sqrt_price_limit < before.pool.sqrt_price
        } else {
            sqrt_price_limit > stop && sqrt_price_limit > before.pool.sqrt_price
        },
        records_net(accounts, boundary, i, slot),
        net * 1_000_000 <= amount * (1_000_000 - before.pool.fee_rate) < (net + 1) * 1_000_000,
        is_stretch(before.pool.sqrt_price, stop, before.pool.liquidity, before.pool.fee_rate, way),
        way.paid <= net,
        way.received <= u64::MAX,
        rest == amount - way.paid - way.fee,
        there.pool.sqrt_price == stop,
        there.pool.tick_current == if zero_for_one {
            boundary - 1
        } else {
            boundary
        },
        is_across(
            before.pool.liquidity,
            le_i128(accounts[i]@, 56 + 80 * slot),
            zero_for_one,
            there.pool.liquidity,
        ),
        there.pool.fee_rate == before.pool.fee_rate,
        ({
            let grown = before.pool.fee_growth_global_0 + if zero_for_one {
                way.growth
            } else {
                0
            };
            there.pool.fee_growth_global_0 == if grown <= u128::MAX {
                grown
            } else {
                u128::MAX as int
            }
        }),
        ({
            let grown = before.pool.fee_growth_global_1 + if !zero_for_one {
                way.growth
            } else {
                0
            };
            there.pool.fee_growth_global_1 == if grown <= u128::MAX {
                grown
            } else {
                u128::MAX as int
            }
        }),
        swapped(there, accounts, rest, zero_for_one, sqrt_price_limit, 0, end, second),
        second is Ok,
    ensures
        after.pool.sqrt_price == end.pool.sqrt_price,
        after.pool.tick_current == end.pool.tick_current,
        after.pool.liquidity == end.pool.liquidity,
        after.pool.fee_growth_global_0 == end.pool.fee_growth_global_0,
        after.pool.fee_growth_global_1 == end.pool.fee_growth_global_1,
        r->Ok_0.payment.amount == way.paid + second->Ok_0.payment.amount,
        r->Ok_0.event.fee_amount == way.fee + second->Ok_0.event.fee_amount,
        r->Ok_0.payout.transfer.amount == way.received + second->Ok_0.payout.transfer.amount,
{
    let start = swap_start(before.pool, amount);
    let rate = before.pool.fee_rate;
    lemma_segment_is_stretch(
        start,
        accounts,
        zero_for_one,
        sqrt_price_limit,
        rate,
        boundary,
        stop,
        i,
        slot,
        way,
    );
    let (crossed, _) = segment(start, accounts, zero_for_one, sqrt_price_limit, rate as int)->0;
    lemma_swap_accounts(
        before,
        accounts,
        amount,
        zero_for_one,
        sqrt_price_limit,
        amount_out_minimum,
        after,
        r,
    );
    lemma_swap_accounts(there, accounts, rest, zero_for_one, sqrt_price_limit, 0, end, second);
    let from = swap_start(there.pool, rest);
    let left = (MAX_TICK_CROSSINGS - 1) as nat;
    assert(ahead_by(crossed, from, crossed));
    lemma_walk_ahead_by(
        crossed,
        from,
        crossed,
        accounts,
        zero_for_one,
        sqrt_price_limit,
        rate as u128,
        left,
    );
    lemma_walk_needs_no_more_crossings(
        from,
        accounts,
        zero_for_one,
        sqrt_price_limit,
        rate as u128,
        left,
    );
}

/// Behind a tick where the active liquidity runs out, a swap passes on to the next tick in use
/// for free, and goes on from there with what is left.
#[verifier::rlimit(30)]
pub proof fn law_swap_passes_gap_for_free(
    before: Swap,
    accounts: Seq<Vec<u8>>,
    amount: u64,
    zero_for_one: bool,
    sqrt_price_limit: u128,
    amount_out_minimum: u64,
    after: Swap,
    r: Result<SwapReceipt, PoolError>,
    boundary: int,
    stop: u128,
    i: int,
    slot: int,
    net: int,
    way: Stretch,
    far: int,
    far_stop: u128,
    far_i: int,
    far_slot: int,
    there: Swap,
    rest: u64,
    end: Swap,
    second: Result<SwapReceipt, PoolError>,
)
    requires
        swapped(
            before,
            accounts,
            amount,
            zero_for_one,
            sqrt_price_limit,
            amount_out_minimum,
            after,
            r,
        ),
        r is Ok,
        r->Ok_0.payment.amount + r->Ok_0.event.fee_amount == amount || if zero_for_one {
            after.pool.sqrt_price <= sqrt_price_limit
        } else {
            after.pool.sqrt_price >= sqrt_price_limit
        },
        before.pool.sqrt_price > 0,
        before.pool.fee_rate < 1_000_000,
        first_ahead(accounts, before.pool.tick_current as int, zero_for_one, boundary),
        stop == sqrt_price_at(boundary),
        records_net(accounts, boundary, i, slot),
        is_across(
            before.pool.liquidity,
            le_i128(accounts[i]@, 56 + 80 * slot),
            zero_for_one,
            0,
        ),
        first_ahead(
            accounts,
            if zero_for_one {
                boundary - 1
            } else {
                boundary
            },
            zero_for_one,
            far,
        ),
        far_stop == sqrt_price_at(far),
        records_net(accounts, far, far_i, far_slot),
        if zero_for_one {
            sqrt_price_limit < far_stop
        } else {
            sqrt_price_limit > far_stop
        },
        net * 1_000_000 <= amount * (1_000_000 - before.pool.fee_rate) < (net + 1) * 1_000_000,
        is_stretch(before.pool.sqrt_price, stop, before.pool.liquidity, before.pool.fee_rate, way),
        way.paid <= net,
        way.received <= u64::MAX,
        rest == amount - way.paid - way.fee,
        there.pool.sqrt_price == far_stop,
        there.pool.tick_current == if zero_for_one {
            far - 1
        } else {
            far
        },
        is_across(
            0,
            le_i128(accounts[far_i]@, 56 + 80 * far_slot),
            zero_for_one,
            there.pool.liquidity,
        ),
        there.pool.fee_rate == before.pool.fee_rate,
        ({
            let grown = before.pool.fee_growth_global_0 + if zero_for_one {
                way.growth
            } else {
                0
            };
            there.pool.fee_growth_global_0 == if grown <= u128::MAX {
                grown
            } else {
                u128::MAX as int
            }
        }),
        ({
            let grown = before.pool.fee_growth_global_1 + if !zero_for_one {
                way.growth
            } else {
                0
            };
            there.pool.fee_growth_global_1 == if grown <= u128::MAX {
                grown
            } else {
                u128::MAX as int
            }
        }),
        swapped(there, accounts, rest, zero_for_one, sqrt_price_limit, 0, end, second),
        second is Ok,
    ensures
        after.pool.sqrt_price == end.pool.sqrt_price,
        after.pool.tick_current == end.pool.tick_current,
        after.pool.liquidity == end.pool.liquidity,
        after.pool.fee_growth_global_0 == end.pool.fee_growth_global_0,
        after.pool.fee_growth_global_1 == end.pool.fee_growth_global_1,
        r->Ok_0.payment.amount == way.paid + second->Ok_0.payment.amount,
        r->Ok_0.event.fee_amount == way.fee + second->Ok_0.event.fee_amount,
        r->Ok_0.payout.transfer.amount == way.received + second->Ok_0.payout.transfer.amount,
{
    let start = swap_start(before.pool, amount);
    let rate = before.pool.fee_rate;
    if zero_for_one {
        law_price_rises_with_tick(far, boundary);
    } else {
        law_price_rises_with_tick(boundary, far);
    }
    lemma_segment_is_stretch(
        start,
        accounts,
        zero_for_one,
        sqrt_price_limit,
        rate,
        boundary,
        stop,
        i,
        slot,
        way,
    );
    let (crossed, _) = segment(start, accounts, zero_for_one, sqrt_price_limit, rate as int)->0;
    let gap = Stretch { paid: 0, fee: 0, received: 0, growth: 0 };
    lemma_price_in_range(boundary);
    lemma_price_in_range(far);
    lemma_gap_is_nothing(crossed.sqrt_price, far_stop, rate);
    lemma_swap_accounts(
        before,
        accounts,
        amount,
        zero_for_one,
        sqrt_price_limit,
        amount_out_minimum,
        after,
        r,
    );
    lemma_swap_accounts(there, accounts, rest, zero_for_one, sqrt_price_limit, 0, end, second);
    assert(crossed.amount_remaining == rest);
    lemma_segment_is_stretch(
        crossed,
        accounts,
        zero_for_one,
        sqrt_price_limit,
        rate,
        far,
        far_stop,
        far_i,
        far_slot,
        gap,
    );
    let (beyond, _) = segment(crossed, accounts, zero_for_one, sqrt_price_limit, rate as int)->0;
    let from = swap_start(there.pool, rest);
    let left = (MAX_TICK_CROSSINGS - 2) as nat;
    assert(ahead_by(beyond, from, beyond));
    lemma_walk_ahead_by(
        beyond,
        from,
        beyond,
        accounts,
        zero_for_one,
        sqrt_price_limit,
        rate as u128,
        left,
    );
    lemma_two_segments(
        start,
        crossed,
        beyond,
        accounts,
        zero_for_one,
        sqrt_price_limit,
        rate as u128,
    );
    lemma_walk_needs_no_more_crossings(
        from,
        accounts,
        zero_for_one,
        sqrt_price_limit,
        rate as u128,
        left,
    );
    lemma_walk_needs_no_more_crossings(
        from,
        accounts,
        zero_for_one,
        sqrt_price_limit,
        rate as u128,
        (left + 1) as nat,
    );
}

/// A swap that uses up its amount on the way to the first tick in use ahead ends there, however
/// far its limit is.
#[verifier::rlimit(30)]
pub proof fn law_used_up_swap_ends_at_first_tick(
    before: Swap,
    accounts: Seq<Vec<u8>>,
    amount: u64,
    zero_for_one: bool,
    sqrt_price_limit: u128,
    amount_out_minimum: u64,
    after: Swap,
    r: Result<SwapReceipt, PoolError>,
    boundary: int,
    stop: u128,
    there: Swap,
    first: Result<SwapReceipt, PoolError>,
)
    requires
        swapped(
            before,
            accounts,
            amount,
            zero_for_one,
            sqrt_price_limit,
            amount_out_minimum,
            after,
            r,
        ),
        first_ahead(accounts, before.pool.tick_current as int, zero_for_one, boundary),
        stop == sqrt_price_at(boundary),
        if zero_for_one {
            sqrt_price_limit < stop
        } else {
            sqrt_price_limit > stop
        },
        swapped(
            before,
            accounts,
            amount,
            zero_for_one,
            stop,
            amount_out_minimum,
            there,
            first,
        ),
        first is Ok,
        there.pool.sqrt_price == stop,
        first->Ok_0.payment.amount + first->Ok_0.event.fee_amount == amount,
    ensures
        r is Ok,
        after == there,
        r->Ok_0.event == first->Ok_0.event,
{
    let start = swap_start(before.pool, amount);
    let rate = before.pool.fee_rate as int;
    let tick = before.pool.tick_current as int;
    lemma_first_ahead(accounts, tick, zero_for_one, boundary);
    assert(price_target(accounts, tick, zero_for_one, sqrt_price_limit) == Some(
        sqrt_price_at(boundary),
    ));
    assert(price_target(accounts, tick, zero_for_one, stop) == Some(sqrt_price_at(boundary)));
    lemma_swap_accounts(
        before,
        accounts,
        amount,
        zero_for_one,
        stop,
        amount_out_minimum,
        there,
        first,
    );
    let crossed = swap_outcome(before.pool, accounts, amount, zero_for_one, stop)->0;
    assert(segment(start, accounts, zero_for_one, sqrt_price_limit, rate) == Some((crossed, true)));
    assert(walk(crossed, accounts, zero_for_one, sqrt_price_limit, rate, 9) == Some(crossed));
}

/// A swap that can pay for the way to the first tick in use ahead is accepted whenever the swap
/// of what is left from behind the tick is, with at most nine ticks in use ahead, as long as
/// the payouts together meet the minimum and fit 64 bits.
#[verifier::rlimit(30)]
pub proof fn law_way_to_first_tick_and_rest_are_accepted(
    before: Swap,
    accounts: Seq<Vec<u8>>,
    amount: u64,
    zero_for_one: bool,
    sqrt_price_limit: u128,
    amount_out_minimum: u64,
    after: Swap,
    r: Result<SwapReceipt, PoolError>,
    boundary: int,
    stop: u128,
    i: int,
    slot: int,
    net: int,
    way: Stretch,
    there: Swap,
    rest: u64,
    end: Swap,
    second: Result<SwapReceipt, PoolError>,
    ticks: Seq<int>,
)
    requires
        swapped(
            before,
            accounts,
            amount,
            zero_for_one,
            sqrt_price_limit,
            amount_out_minimum,
            after,
            r,
        ),
        before.user_token_account_0.mint == before.pool.token_mint_0,
        before.user_token_account_1.mint == before.pool.token_mint_1,
        before.user_token_account_0.owner == before.user,
        before.user_token_account_1.owner == before.user,
        before.pool.initialized,
        before.pool.liquidity > 0,
        before.pool.sqrt_price > 0,
        before.pool.fee_rate < 1_000_000,
        amount > 0,
        sqrt_price_limit > 0,
        first_ahead(accounts, before.pool.tick_current as int, zero_for_one, boundary),
        stop == sqrt_price_at(boundary),
        if zero_for_one {
            sqrt_price_limit < stop && sqrt_price_limit < before.pool.sqrt_price
        } else {
            sqrt_price_limit > stop && sqrt_price_limit > before.pool.sqrt_price
        },
        records_net(accounts, boundary, i, slot),
        net * 1_000_000 <= amount * (1_000_000 - before.pool.fee_rate) < (net + 1) * 1_000_000,
        is_stretch(before.pool.sqrt_price, stop, before.pool.liquidity, before.pool.fee_rate, way),
        way.paid <= net,
        rest == amount - way.paid - way.fee,
        there.pool.sqrt_price == stop,
        there.pool.tick_current == if zero_for_one {
            boundary - 1
        } else {
            boundary
        },
        is_across(
            before.pool.liquidity,
            le_i128(accounts[i]@, 56 + 80 * slot),
            zero_for_one,
            there.pool.liquidity,
        ),
        there.pool.fee_rate == before.pool.fee_rate,
        swapped(there, accounts, rest, zero_for_one, sqrt_price_limit, 0, end, second),
        second is Ok,
        amount_out_minimum <= way.received + second->Ok_0.payout.transfer.amount <= u64::MAX,
        ticks.len() <= 9,
        forall|i: int, slot: int| #[trigger]
            flagged(accounts, i, slot) && (if zero_for_one {
                tick_held(accounts, i, slot) <= before.pool.tick_current
            } else {
                tick_held(accounts, i, slot) > before.pool.tick_current
            }) ==> ticks.contains(tick_held(accounts, i, slot)),
    ensures
        r is Ok,
{
    let start = swap_start(before.pool, amount);
    let rate = before.pool.fee_rate;
    lemma_segment_is_stretch(
        start,
        accounts,
        zero_for_one,
        sqrt_price_limit,
        rate,
        boundary,
        stop,
        i,
        slot,
        way,
    );
    let (crossed, _) = segment(start, accounts, zero_for_one, sqrt_price_limit, rate as int)->0;
    lemma_swap_accounts(there, accounts, rest, zero_for_one, sqrt_price_limit, 0, end, second);
    let from = swap_start(there.pool, rest);
    let left = (MAX_TICK_CROSSINGS - 1) as nat;
    assert(ahead_by(crossed, from, crossed));
    lemma_walk_ahead_by(
        crossed,
        from,
        crossed,
        accounts,
        zero_for_one,
        sqrt_price_limit,
        rate as u128,
        left,
    );
    lemma_shorter_walk(from, accounts, zero_for_one, sqrt_price_limit, rate as u128, left);
    let others = lemma_ticks_behind(
        accounts,
        before.pool.tick_current as int,
        zero_for_one,
        boundary,
        ticks,
    );
    lemma_first_ahead(accounts, before.pool.tick_current as int, zero_for_one, boundary);
    lemma_walk_goes_all_the_way(
        from,
        accounts,
        zero_for_one,
        sqrt_price_limit,
        rate as u128,
        left,
        others,
    );
    lemma_walk_needs_no_more_crossings(
        from,
        accounts,
        zero_for_one,
        sqrt_price_limit,
        rate as u128,
        left,
    );
    let whole = swap_outcome(before.pool, accounts, amount, zero_for_one, sqrt_price_limit);
    assert(whole == walk(
        crossed,
        accounts,
        zero_for_one,
        sqrt_price_limit,
        rate as int,
        left,
    ));
    lemma_walk_accounts(
        start,
        accounts,
        zero_for_one,
        sqrt_price_limit,
        rate as u128,
        MAX_TICK_CROSSINGS as nat,
        amount as int,
    );
}

/// A swap whose nearest tick in use ahead has no price is refused: that array cannot be right.
pub proof fn law_tick_without_price_is_refused(
    before: Swap,
    accounts: Seq<Vec<u8>>,
    amount: u64,
    zero_for_one: bool,
    sqrt_price_limit: u128,
    amount_out_minimum: u64,
    after: Swap,
    r: Result<SwapReceipt, PoolError>,
    boundary: int,
)
    requires
        swapped(
            before,
            accounts,
            amount,
            zero_for_one,
            sqrt_price_limit,
            amount_out_minimum,
            after,
            r,
        ),
        before.user_token_account_0.mint == before.pool.token_mint_0,
        before.user_token_account_1.mint == before.pool.token_mint_1,
        before.user_token_account_0.owner == before.user,
        before.user_token_account_1.owner == before.user,
        before.pool.initialized,
        before.pool.liquidity > 0,
        amount > 0,
        if zero_for_one {
            sqrt_price_limit < before.pool.sqrt_price
        } else {
            sqrt_price_limit > before.pool.sqrt_price
        },
        boundary < -443_636 || boundary > 443_636,
        in_use(accounts, boundary),
        if zero_for_one {
            boundary <= before.pool.tick_current
        } else {
            boundary > before.pool.tick_current
        },
        forall|i: int, slot: int| #[trigger]
            flagged(accounts, i, slot) ==> {
                let held = tick_held(accounts, i, slot);
                if zero_for_one {
                    held <= boundary || held > before.pool.tick_current
                } else {
                    held >= boundary || held <= before.pool.tick_current
                }
            },
    ensures
        r == Err::<SwapReceipt, PoolError>(PoolError::InvalidTickArray),
        after == before,
{
    lemma_nearest_ahead(accounts, before.pool.tick_current as int, zero_for_one, boundary);
}

} // verus!
