//! What swaps keep of the tie between a pool and its open positions.

use vstd::prelude::*;

use crate::arith::is_u128;
use crate::pool_core::laws::{
    law_segment_keeps_tick_fitting, lemma_boundary_is_ahead, lemma_boundary_price_is_ahead,
    lemma_segment_step, tick_fits_price,
};
use crate::pool_core::segments::{limit_beyond, segment, walk, SwapState};
use crate::pool_core::tick_loop::{
    boundary_ahead, boundary_at, decides, holds_array, initialized_in, is_first_to_decide,
    law_arrays_are_read_as_held, law_price_has_one_tick, law_tick_of_tick_price,
    law_tick_rises_with_price, net_at_tick, none_decides, price_target, recorded_net, slot_of,
    tick_in_slot, tick_of_price,
};
use crate::pool_core::{
    pool_after_swap, swap_failure, swap_outcome, swap_start, Swap, MAX_TICK_CROSSINGS,
};
use crate::position_mgr::ledger::{
    active_liquidity, law_crossing_keeps_active_liquidity, net_liquidity, tick_matches,
};
use crate::position_mgr::range_valid;
use crate::position_mgr::state::Position;
use crate::tick_manager::math::{MAX_TICK, MIN_TICK};
use crate::tick_manager::price::{law_price_rises_with_tick, lemma_price_in_range, sqrt_price_at};
use crate::tick_manager::state::TickArray;

verus! {

/// All positions have valid ranges, and their liquidity never adds up to more than 128 bits.
pub open spec fn positions_valid(positions: Seq<Position>) -> bool {
    &&& forall|i: int|
        0 <= i < positions.len() ==> range_valid(
            (#[trigger] positions[i]).tick_lower as int,
            positions[i].tick_upper as int,
        )
    &&& forall|tick: int| is_u128(#[trigger] active_liquidity(positions, tick))
}

/// The tick is initialized in one of the accounts.
pub open spec fn initialized_in_some(accounts: Seq<Vec<u8>>, tick: int) -> bool {
    exists|i: int| 0 <= i < accounts.len() && #[trigger] initialized_in(accounts[i]@, tick)
}

/// Every initialized tick of the accounts records the net liquidity of the positions.
pub open spec fn records_match(accounts: Seq<Vec<u8>>, positions: Seq<Position>) -> bool {
    forall|i: int, tick: int|
        0 <= i < accounts.len() && #[trigger] initialized_in(accounts[i]@, tick) ==> recorded_net(
            accounts[i]@,
            tick,
        ) == net_liquidity(positions, tick)
}

/// A swap from one tick to another passes over the tick.
pub open spec fn passes(tick: int, from: int, to: int) -> bool {
    to < tick <= from || from < tick <= to
}

/// Every tick with net liquidity between two ticks is initialized in one of the accounts.
pub open spec fn covered(
    accounts: Seq<Vec<u8>>,
    positions: Seq<Position>,
    from: int,
    to: int,
) -> bool {
    forall|tick: int|
        passes(tick, from, to) && #[trigger] net_liquidity(positions, tick) != 0
            ==> initialized_in_some(accounts, tick)
}

/// Where the accounts hold tick arrays whose initialized ticks are the sum of the positions
/// there, they record the positions' net liquidity.
pub proof fn law_matching_arrays_record_net(
    accounts: Seq<Vec<u8>>,
    arrays: Seq<TickArray>,
    positions: Seq<Position>,
)
    requires
        accounts.len() == arrays.len(),
        forall|i: int| 0 <= i < accounts.len() ==> holds_array(#[trigger] accounts[i]@, arrays[i]),
        forall|i: int, slot: int|
            0 <= i < arrays.len() && 0 <= slot < 88 && (#[trigger] arrays[i].slot(
                slot,
            )).initialized != 0 ==> tick_matches(
                arrays[i].slot(slot),
                positions,
                arrays[i].start_tick_index + 64 * slot,
            ),
    ensures
        records_match(accounts, positions),
{
    assert forall|i: int, tick: int|
        0 <= i < accounts.len() && #[trigger] initialized_in(
            accounts[i]@,
            tick,
        ) implies recorded_net(accounts[i]@, tick) == net_liquidity(positions, tick) by {
        assert(holds_array(accounts[i]@, arrays[i]));
        let slot = slot_of(accounts[i]@, tick);
        law_arrays_are_read_as_held(accounts[i]@, arrays[i], slot);
        assert(arrays[i].slot(slot).initialized != 0);
    }
}

/// No position begins or ends at the lowest tick or below it.
proof fn lemma_no_net_below(positions: Seq<Position>, tick: int)
    requires
        forall|i: int|
            0 <= i < positions.len() ==> range_valid(
                (#[trigger] positions[i]).tick_lower as int,
                positions[i].tick_upper as int,
            ),
        tick <= MIN_TICK,
    ensures
        net_liquidity(positions, tick) == 0,
    decreases positions.len(),
{
    if positions.len() > 0 {
        let rest = positions.drop_last();
        assert forall|i: int| 0 <= i < rest.len() implies range_valid(
            (#[trigger] rest[i]).tick_lower as int,
            rest[i].tick_upper as int,
        ) by {
            assert(rest[i] == positions[i]);
        }
        assert(positions.last() == positions[positions.len() - 1]);
        lemma_no_net_below(rest, tick);
    }
}

/// Where no net liquidity lies between two ticks, the same liquidity is active at both.
proof fn lemma_active_between(positions: Seq<Position>, low: int, high: int)
    requires
        positions_valid(positions),
        low <= high,
        forall|tick: int| low < tick <= high ==> #[trigger] net_liquidity(positions, tick) == 0,
    ensures
        active_liquidity(positions, low) == active_liquidity(positions, high),
    decreases high - low,
{
    if low < high {
        lemma_active_between(positions, low, high - 1);
        lemma_crossing(positions, high);
    }
}

proof fn lemma_crossing(positions: Seq<Position>, boundary: int)
    requires
        positions_valid(positions),
    ensures
        active_liquidity(positions, boundary) == active_liquidity(positions, boundary - 1)
            + net_liquidity(positions, boundary),
{
    assert forall|i: int| 0 <= i < positions.len() implies (#[trigger] positions[i]).tick_lower
        < positions[i].tick_upper by {
        assert(range_valid(positions[i].tick_lower as int, positions[i].tick_upper as int));
    }
    law_crossing_keeps_active_liquidity(positions, boundary);
}

/// A tick that is initialized somewhere ahead of the swap has the nearest boundary at or
/// before it.
proof fn lemma_boundary_before(
    accounts: Seq<Vec<u8>>,
    current_tick: int,
    zero_for_one: bool,
    tick: int,
)
    requires
        initialized_in_some(accounts, tick),
        if zero_for_one {
            tick <= current_tick
        } else {
            tick > current_tick
        },
    ensures
        boundary_ahead(accounts, current_tick, zero_for_one) is Some,
        ({
            let boundary = boundary_ahead(accounts, current_tick, zero_for_one)->0;
            if zero_for_one {
                tick <= boundary <= current_tick
            } else {
                current_tick < boundary <= tick
            }
        }),
{
    let i = choose|i: int| 0 <= i < accounts.len() && #[trigger] initialized_in(
        accounts[i]@,
        tick,
    );
    let slot = slot_of(accounts[i]@, tick);
    assert(boundary_at(accounts[i]@, slot, current_tick, zero_for_one));
    lemma_boundary_is_ahead(accounts, current_tick, zero_for_one);
}

/// Crossing the nearest boundary changes the active liquidity by what the positions have
/// there.
proof fn lemma_net_at_boundary(
    accounts: Seq<Vec<u8>>,
    positions: Seq<Position>,
    current_tick: int,
    zero_for_one: bool,
)
    requires
        records_match(accounts, positions),
        boundary_ahead(accounts, current_tick, zero_for_one) is Some,
        net_at_tick(
            accounts,
            boundary_ahead(accounts, current_tick, zero_for_one)->0,
            zero_for_one,
        ) is Some,
    ensures
        ({
            let boundary = boundary_ahead(accounts, current_tick, zero_for_one)->0;
            net_at_tick(accounts, boundary, zero_for_one)->0 == if zero_for_one {
                -net_liquidity(positions, boundary)
            } else {
                net_liquidity(positions, boundary)
            }
        }),
{
    let boundary = boundary_ahead(accounts, current_tick, zero_for_one)->0;
    lemma_boundary_is_ahead(accounts, current_tick, zero_for_one);
    let (i, slot) = choose|i: int, slot: int|
        0 <= i < accounts.len() && #[trigger] boundary_at(
            accounts[i]@,
            slot,
            current_tick,
            zero_for_one,
        ) && boundary == tick_in_slot(accounts[i]@, slot);
    assert(slot_of(accounts[i]@, boundary) == slot);
    assert(decides(accounts[i]@, boundary));
    assert(!none_decides(accounts, boundary));
    lemma_some_first(accounts, boundary, i);
    let first = choose|k: int| is_first_to_decide(accounts, boundary, k);
    assert(is_first_to_decide(accounts, boundary, first));
    assert(initialized_in(accounts[first]@, boundary));
}

/// Among the accounts that say something about a tick, one is the first.
proof fn lemma_some_first(accounts: Seq<Vec<u8>>, tick: int, i: int)
    requires
        0 <= i < accounts.len(),
        decides(accounts[i]@, tick),
    ensures
        exists|k: int| is_first_to_decide(accounts, tick, k),
    decreases i,
{
    if !is_first_to_decide(accounts, tick, i) {
        let j = choose|j: int| 0 <= j < i && #[trigger] decides(accounts[j]@, tick);
        lemma_some_first(accounts, tick, j);
    }
}

/// How the tick moves in a segment: with the price, but that the lowest tick is reported for
/// all prices below its own.
proof fn lemma_segment_moves_tick(
    state: SwapState,
    accounts: Seq<Vec<u8>>,
    zero_for_one: bool,
    sqrt_price_limit: u128,
    fee_rate: u128,
)
    requires
        limit_beyond(state.sqrt_price, sqrt_price_limit, zero_for_one),
        tick_fits_price(state.tick as int, state.sqrt_price),
        segment(state, accounts, zero_for_one, sqrt_price_limit, fee_rate as int) is Some,
    ensures
        ({
            let (next, _) = segment(
                state,
                accounts,
                zero_for_one,
                sqrt_price_limit,
                fee_rate as int,
            )->0;
            if zero_for_one {
                next.tick <= state.tick || next.tick == MIN_TICK == state.tick + 1
            } else {
                next.tick >= state.tick
            }
        }),
{
    let target = price_target(accounts, state.tick as int, zero_for_one, sqrt_price_limit)->0;
    lemma_segment_step(state, target as u128, fee_rate);
    let (next, _) = segment(state, accounts, zero_for_one, sqrt_price_limit, fee_rate as int)->0;
    let exact = tick_of_price(state.sqrt_price as int);
    let settled = tick_of_price(next.sqrt_price as int);
    law_price_has_one_tick(state.sqrt_price as int, exact);
    law_price_has_one_tick(next.sqrt_price as int, settled);
    let boundary = boundary_ahead(accounts, state.tick as int, zero_for_one);
    if boundary is Some {
        lemma_boundary_is_ahead(accounts, state.tick as int, zero_for_one);
        lemma_price_in_range(boundary->0);
        if !zero_for_one || boundary->0 > MIN_TICK {
            lemma_boundary_price_is_ahead(
                state.sqrt_price,
                state.tick as int,
                boundary->0,
                zero_for_one,
            );
        } else if next.sqrt_price <= sqrt_price_at(boundary->0) {
            law_tick_of_tick_price(boundary->0);
            law_tick_rises_with_price(next.sqrt_price as int, sqrt_price_at(boundary->0));
        }
    }
    if next.sqrt_price <= state.sqrt_price {
        law_tick_rises_with_price(next.sqrt_price as int, state.sqrt_price as int);
    } else {
        law_tick_rises_with_price(state.sqrt_price as int, next.sqrt_price as int);
    }
}

/// A segment keeps the liquidity that of the positions whose range holds the tick.
pub proof fn law_segment_keeps_active_liquidity(
    state: SwapState,
    accounts: Seq<Vec<u8>>,
    positions: Seq<Position>,
    zero_for_one: bool,
    sqrt_price_limit: u128,
    fee_rate: u128,
)
    requires
        limit_beyond(state.sqrt_price, sqrt_price_limit, zero_for_one),
        tick_fits_price(state.tick as int, state.sqrt_price),
        segment(state, accounts, zero_for_one, sqrt_price_limit, fee_rate as int) is Some,
        positions_valid(positions),
        records_match(accounts, positions),
        ({
            let (next, _) = segment(
                state,
                accounts,
                zero_for_one,
                sqrt_price_limit,
                fee_rate as int,
            )->0;
            covered(accounts, positions, state.tick as int, next.tick as int)
        }),
        state.liquidity == active_liquidity(positions, state.tick as int),
    ensures
        ({
            let (next, _) = segment(
                state,
                accounts,
                zero_for_one,
                sqrt_price_limit,
                fee_rate as int,
            )->0;
            next.liquidity == active_liquidity(positions, next.tick as int)
        }),
{
    let target = price_target(accounts, state.tick as int, zero_for_one, sqrt_price_limit)->0;
    lemma_segment_step(state, target as u128, fee_rate);
    lemma_segment_moves_tick(state, accounts, zero_for_one, sqrt_price_limit, fee_rate);
    let (next, _) = segment(state, accounts, zero_for_one, sqrt_price_limit, fee_rate as int)->0;
    let boundary = boundary_ahead(accounts, state.tick as int, zero_for_one);
    let crosses = boundary is Some && next.sqrt_price == target;
    lemma_no_net_below(positions, MIN_TICK as int);
    law_price_has_one_tick(next.sqrt_price as int, tick_of_price(next.sqrt_price as int));
    if boundary is Some {
        lemma_boundary_is_ahead(accounts, state.tick as int, zero_for_one);
        lemma_price_in_range(boundary->0);
    }
    if crosses {
        let tick = boundary->0;
        lemma_net_at_boundary(accounts, positions, state.tick as int, zero_for_one);
        let low = if zero_for_one {
            tick
        } else {
            state.tick as int
        };
        let high = if zero_for_one {
            state.tick as int
        } else {
            tick - 1
        };
        assert forall|t: int| low < t <= high implies #[trigger] net_liquidity(positions, t)
            == 0 by {
            if net_liquidity(positions, t) != 0 {
                assert(passes(t, state.tick as int, next.tick as int));
                lemma_boundary_before(accounts, state.tick as int, zero_for_one, t);
            }
        }
        lemma_active_between(positions, low, high);
        lemma_crossing(positions, tick);
        assert(is_u128(active_liquidity(positions, tick)));
        assert(is_u128(active_liquidity(positions, tick - 1)));
    } else if next.sqrt_price != state.sqrt_price {
        let low = if state.tick <= next.tick {
            state.tick as int
        } else {
            next.tick as int
        };
        let high = if state.tick <= next.tick {
            next.tick as int
        } else {
            state.tick as int
        };
        assert forall|t: int| low < t <= high implies #[trigger] net_liquidity(positions, t)
            == 0 by {
            if net_liquidity(positions, t) != 0 {
                assert(passes(t, state.tick as int, next.tick as int));
                if t <= MIN_TICK {
                    lemma_no_net_below(positions, t);
                } else if !(zero_for_one && state.tick < next.tick) {
                    lemma_boundary_before(accounts, state.tick as int, zero_for_one, t);
                    lemma_boundary_price_is_ahead(
                        state.sqrt_price,
                        state.tick as int,
                        boundary->0,
                        zero_for_one,
                    );
                    lemma_price_of_passed(
                        next.sqrt_price,
                        next.tick as int,
                        boundary->0,
                        zero_for_one,
                    );
                    assert(false);
                }
            }
        }
        lemma_active_between(positions, low, high);
    }
}

/// Against the tick of a price, a boundary that has been passed downwards has a higher price,
/// and one that has been passed upwards a price at most as high.
proof fn lemma_price_of_passed(sqrt_price: u128, settled: int, boundary: int, zero_for_one: bool)
    requires
        settled == tick_of_price(sqrt_price as int),
        if zero_for_one {
            boundary > settled
        } else {
            boundary <= settled && settled > MIN_TICK
        },
        MIN_TICK <= boundary <= MAX_TICK,
    ensures
        if zero_for_one {
            sqrt_price_at(boundary) > sqrt_price
        } else {
            sqrt_price_at(boundary) <= sqrt_price
        },
{
    law_price_has_one_tick(sqrt_price as int, settled);
    if zero_for_one {
        if settled + 1 < boundary {
            law_price_rises_with_tick(settled + 1, boundary);
        }
    } else if boundary < settled {
        law_price_rises_with_tick(boundary, settled);
    }
}

/// Where a walk ends, seen from where it stands.
proof fn lemma_walk_moves_tick(
    state: SwapState,
    accounts: Seq<Vec<u8>>,
    zero_for_one: bool,
    sqrt_price_limit: u128,
    fee_rate: u128,
    crossings: nat,
)
    requires
        limit_beyond(state.sqrt_price, sqrt_price_limit, zero_for_one),
        tick_fits_price(state.tick as int, state.sqrt_price),
        walk(state, accounts, zero_for_one, sqrt_price_limit, fee_rate as int, crossings) is Some,
    ensures
        ({
            let end = walk(
                state,
                accounts,
                zero_for_one,
                sqrt_price_limit,
                fee_rate as int,
                crossings,
            )->0;
            if zero_for_one {
                end.tick <= state.tick || end.tick <= MIN_TICK
            } else {
                end.tick >= state.tick
            }
        }),
    decreases crossings,
{
    if state.amount_remaining > 0 && crossings > 0 {
        lemma_segment_moves_tick(state, accounts, zero_for_one, sqrt_price_limit, fee_rate);
        law_segment_keeps_tick_fitting(state, accounts, zero_for_one, sqrt_price_limit, fee_rate);
        let (next, go_on) = segment(
            state,
            accounts,
            zero_for_one,
            sqrt_price_limit,
            fee_rate as int,
        )->0;
        if go_on {
            lemma_walk_moves_tick(
                next,
                accounts,
                zero_for_one,
                sqrt_price_limit,
                fee_rate,
                (crossings - 1) as nat,
            );
        }
    }
}

proof fn lemma_walk_keeps_active_liquidity(
    state: SwapState,
    accounts: Seq<Vec<u8>>,
    positions: Seq<Position>,
    zero_for_one: bool,
    sqrt_price_limit: u128,
    fee_rate: u128,
    crossings: nat,
)
    requires
        limit_beyond(state.sqrt_price, sqrt_price_limit, zero_for_one),
        tick_fits_price(state.tick as int, state.sqrt_price),
        walk(state, accounts, zero_for_one, sqrt_price_limit, fee_rate as int, crossings) is Some,
        positions_valid(positions),
        records_match(accounts, positions),
        covered(
            accounts,
            positions,
            state.tick as int,
            walk(
                state,
                accounts,
                zero_for_one,
                sqrt_price_limit,
                fee_rate as int,
                crossings,
            )->0.tick as int,
        ),
        state.liquidity == active_liquidity(positions, state.tick as int),
    ensures
        ({
            let end = walk(
                state,
                accounts,
                zero_for_one,
                sqrt_price_limit,
                fee_rate as int,
                crossings,
            )->0;
            end.liquidity == active_liquidity(positions, end.tick as int)
        }),
    decreases crossings,
{
    if state.amount_remaining > 0 && crossings > 0 {
        lemma_segment_moves_tick(state, accounts, zero_for_one, sqrt_price_limit, fee_rate);
        law_segment_keeps_tick_fitting(state, accounts, zero_for_one, sqrt_price_limit, fee_rate);
        let (next, go_on) = segment(
            state,
            accounts,
            zero_for_one,
            sqrt_price_limit,
            fee_rate as int,
        )->0;
        if go_on {
            lemma_walk_moves_tick(
                next,
                accounts,
                zero_for_one,
                sqrt_price_limit,
                fee_rate,
                (crossings - 1) as nat,
            );
        }
        let end = walk(
            state,
            accounts,
            zero_for_one,
            sqrt_price_limit,
            fee_rate as int,
            crossings,
        )->0;
        assert forall|tick: int|
            (passes(tick, state.tick as int, next.tick as int) || passes(
                tick,
                next.tick as int,
                end.tick as int,
            )) && #[trigger] net_liquidity(positions, tick) != 0 implies initialized_in_some(
            accounts,
            tick,
        ) by {
            if tick <= MIN_TICK {
                lemma_no_net_below(positions, tick);
            }
            assert(passes(tick, state.tick as int, end.tick as int));
        }
        law_segment_keeps_active_liquidity(
            state,
            accounts,
            positions,
            zero_for_one,
            sqrt_price_limit,
            fee_rate,
        );
        if go_on {
            lemma_walk_keeps_active_liquidity(
                next,
                accounts,
                positions,
                zero_for_one,
                sqrt_price_limit,
                fee_rate,
                (crossings - 1) as nat,
            );
        }
    }
}

/// A swap keeps the pool's active liquidity that of the positions whose range holds its tick.
/// The initialized ticks of the arrays that it is handed record the positions' net liquidity,
/// and every tick with net liquidity that the swap passes over is among them.
pub proof fn law_swap_keeps_active_liquidity(
    ctx: Swap,
    accounts: Seq<Vec<u8>>,
    positions: Seq<Position>,
    amount: u64,
    zero_for_one: bool,
    sqrt_price_limit: u128,
    amount_out_minimum: u64,
)
    requires
        swap_failure(
            ctx,
            accounts,
            amount,
            zero_for_one,
            sqrt_price_limit,
            amount_out_minimum,
        ) is None,
        tick_fits_price(ctx.pool.tick_current as int, ctx.pool.sqrt_price),
        positions_valid(positions),
        records_match(accounts, positions),
        covered(
            accounts,
            positions,
            ctx.pool.tick_current as int,
            swap_outcome(
                ctx.pool,
                accounts,
                amount,
                zero_for_one,
                sqrt_price_limit,
            )->0.tick as int,
        ),
        ctx.pool.liquidity == active_liquidity(positions, ctx.pool.tick_current as int),
    ensures
        ({
            let after = pool_after_swap(
                ctx.pool,
                zero_for_one,
                swap_outcome(ctx.pool, accounts, amount, zero_for_one, sqrt_price_limit)->0,
            );
            after.liquidity == active_liquidity(positions, after.tick_current as int)
        }),
{
    lemma_walk_keeps_active_liquidity(
        swap_start(ctx.pool, amount),
        accounts,
        positions,
        zero_for_one,
        sqrt_price_limit,
        ctx.pool.fee_rate as u128,
        MAX_TICK_CROSSINGS as nat,
    );
}

} // verus!
