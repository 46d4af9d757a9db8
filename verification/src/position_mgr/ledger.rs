//! What the open positions of a pool add up to: the pool's active liquidity, and the gross
//! and net liquidity of every tick.

use vstd::prelude::*;

use crate::arith::{is_i128, is_u128};
use crate::pool_core::pool_after_change;
use crate::pool_core::state::Pool;
use crate::position_mgr::state::Position;
use crate::tick_manager::state::TickData;
use crate::tick_manager::{gross_after, net_after, tick_after};

verus! {

/// What one position adds to the active liquidity at a tick.
pub open spec fn active_part(position: Position, tick: int) -> int {
    if position.tick_lower <= tick < position.tick_upper {
        position.liquidity as int
    } else {
        0
    }
}

/// What one position adds to the gross liquidity of a tick.
pub open spec fn gross_part(position: Position, tick: int) -> int {
    if position.tick_lower == tick || position.tick_upper == tick {
        position.liquidity as int
    } else {
        0
    }
}

/// What one position adds to the net liquidity of a tick.
pub open spec fn net_part(position: Position, tick: int) -> int {
    if position.tick_lower == tick {
        position.liquidity as int
    } else if position.tick_upper == tick {
        -(position.liquidity as int)
    } else {
        0
    }
}

/// The sum of all positions' parts.
pub open spec fn total(
    positions: Seq<Position>,
    tick: int,
    part: spec_fn(Position, int) -> int,
) -> int
    decreases positions.len(),
{
    if positions.len() == 0 {
        0
    } else {
        total(positions.drop_last(), tick, part) + part(positions.last(), tick)
    }
}

/// Liquidity of the positions whose range holds the tick.
pub open spec fn active_liquidity(positions: Seq<Position>, tick: int) -> int {
    total(positions, tick, |p: Position, t: int| active_part(p, t))
}

/// Liquidity of the positions that begin or end at the tick.
pub open spec fn gross_liquidity(positions: Seq<Position>, tick: int) -> int {
    total(positions, tick, |p: Position, t: int| gross_part(p, t))
}

/// Liquidity of the positions that begin at the tick, less that of those that end there.
pub open spec fn net_liquidity(positions: Seq<Position>, tick: int) -> int {
    total(positions, tick, |p: Position, t: int| net_part(p, t))
}

proof fn lemma_total_push(
    positions: Seq<Position>,
    position: Position,
    tick: int,
    part: spec_fn(Position, int) -> int,
)
    ensures
        total(positions.push(position), tick, part) == total(positions, tick, part) + part(
            position,
            tick,
        ),
{
    assert(positions.push(position).drop_last() =~= positions);
}

proof fn lemma_total_remove(
    positions: Seq<Position>,
    i: int,
    tick: int,
    part: spec_fn(Position, int) -> int,
)
    requires
        0 <= i < positions.len(),
    ensures
        total(positions.remove(i), tick, part) == total(positions, tick, part) - part(
            positions[i],
            tick,
        ),
    decreases positions.len(),
{
    let last = positions.len() - 1;
    if i == last {
        assert(positions.remove(i) =~= positions.drop_last());
    } else {
        lemma_total_remove(positions.drop_last(), i, tick, part);
        assert(positions.remove(i).drop_last() =~= positions.drop_last().remove(i));
        assert(positions.remove(i).last() == positions.last());
    }
}

/// The pool's active liquidity is that of the positions whose range holds its tick: opening
/// a position keeps it so.
pub proof fn law_opening_keeps_active_liquidity(
    pool: Pool,
    positions: Seq<Position>,
    position: Position,
)
    requires
        pool.liquidity == active_liquidity(positions, pool.tick_current as int),
        is_u128(pool.liquidity + position.liquidity),
    ensures
        pool_after_change(
            pool,
            position.liquidity as int,
            position.tick_lower,
            position.tick_upper,
        ).liquidity == active_liquidity(positions.push(position), pool.tick_current as int),
{
    lemma_total_push(
        positions,
        position,
        pool.tick_current as int,
        |p: Position, t: int| active_part(p, t),
    );
}

/// Closing a position keeps the active liquidity that of the open positions.
pub proof fn law_closing_keeps_active_liquidity(pool: Pool, positions: Seq<Position>, i: int)
    requires
        0 <= i < positions.len(),
        pool.liquidity == active_liquidity(positions, pool.tick_current as int),
    ensures
        pool_after_change(
            pool,
            -(positions[i].liquidity as int),
            positions[i].tick_lower,
            positions[i].tick_upper,
        ).liquidity == active_liquidity(positions.remove(i), pool.tick_current as int),
{
    let part = |p: Position, t: int| active_part(p, t);
    lemma_total_remove(positions, i, pool.tick_current as int, part);
    lemma_parts_nonnegative(positions.remove(i), pool.tick_current as int);
}

proof fn lemma_parts_nonnegative(positions: Seq<Position>, tick: int)
    ensures
        active_liquidity(positions, tick) >= 0,
        gross_liquidity(positions, tick) >= 0,
    decreases positions.len(),
{
    if positions.len() > 0 {
        lemma_parts_nonnegative(positions.drop_last(), tick);
    }
}

/// The tick's data are those of the positions that begin or end there.
pub open spec fn tick_matches(data: TickData, positions: Seq<Position>, tick: int) -> bool {
    &&& data.liquidity_gross == gross_liquidity(positions, tick)
    &&& data.liquidity_net == net_liquidity(positions, tick)
}

/// Opening a position keeps its two ticks the sum of the positions there, and leaves all
/// other ticks alone.
pub proof fn law_opening_keeps_ticks(
    lower: TickData,
    upper: TickData,
    positions: Seq<Position>,
    position: Position,
)
    requires
        position.tick_lower < position.tick_upper,
        tick_matches(lower, positions, position.tick_lower as int),
        tick_matches(upper, positions, position.tick_upper as int),
        is_u128(gross_after(lower, position.liquidity as int)),
        is_i128(net_after(lower, position.liquidity as int, false)),
        is_u128(gross_after(upper, position.liquidity as int)),
        is_i128(net_after(upper, position.liquidity as int, true)),
    ensures
        tick_matches(
            tick_after(lower, position.liquidity as int, false),
            positions.push(position),
            position.tick_lower as int,
        ),
        tick_matches(
            tick_after(upper, position.liquidity as int, true),
            positions.push(position),
            position.tick_upper as int,
        ),
        forall|tick: int|
            tick != position.tick_lower && tick != position.tick_upper ==> #[trigger]
            gross_liquidity(positions.push(position), tick) == gross_liquidity(positions, tick)
                && net_liquidity(positions.push(position), tick) == net_liquidity(
                positions,
                tick,
            ),
{
    let gross = |p: Position, t: int| gross_part(p, t);
    let net = |p: Position, t: int| net_part(p, t);
    assert forall|tick: int|
        #[trigger] gross_liquidity(positions.push(position), tick) == gross_liquidity(
            positions,
            tick,
        ) + gross_part(position, tick) && net_liquidity(positions.push(position), tick)
            == net_liquidity(positions, tick) + net_part(position, tick) by {
        lemma_total_push(positions, position, tick, gross);
        lemma_total_push(positions, position, tick, net);
    }
    let lo = position.tick_lower as int;
    let hi = position.tick_upper as int;
    assert(gross_liquidity(positions.push(position), lo) == gross_liquidity(positions, lo)
        + gross_part(position, lo));
    assert(gross_liquidity(positions.push(position), hi) == gross_liquidity(positions, hi)
        + gross_part(position, hi));
}

/// Closing a position keeps its two ticks the sum of the positions there.
pub proof fn law_closing_keeps_ticks(
    lower: TickData,
    upper: TickData,
    positions: Seq<Position>,
    i: int,
)
    requires
        0 <= i < positions.len(),
        positions[i].tick_lower < positions[i].tick_upper,
        tick_matches(lower, positions, positions[i].tick_lower as int),
        tick_matches(upper, positions, positions[i].tick_upper as int),
        is_i128(net_after(lower, -(positions[i].liquidity as int), false)),
        is_i128(net_after(upper, -(positions[i].liquidity as int), true)),
    ensures
        tick_matches(
            tick_after(lower, -(positions[i].liquidity as int), false),
            positions.remove(i),
            positions[i].tick_lower as int,
        ),
        tick_matches(
            tick_after(upper, -(positions[i].liquidity as int), true),
            positions.remove(i),
            positions[i].tick_upper as int,
        ),
{
    let gross = |p: Position, t: int| gross_part(p, t);
    let net = |p: Position, t: int| net_part(p, t);
    let lo = positions[i].tick_lower as int;
    let hi = positions[i].tick_upper as int;
    lemma_total_remove(positions, i, lo, gross);
    lemma_total_remove(positions, i, lo, net);
    lemma_total_remove(positions, i, hi, gross);
    lemma_total_remove(positions, i, hi, net);
    lemma_parts_nonnegative(positions.remove(i), lo);
    lemma_parts_nonnegative(positions.remove(i), hi);
}

/// Crossing an exact tick boundary keeps the active liquidity that of the positions whose
/// range holds the tick: upwards it changes by the boundary's net liquidity.
pub proof fn law_crossing_keeps_active_liquidity(positions: Seq<Position>, boundary: int)
    requires
        forall|i: int|
            0 <= i < positions.len() ==> (#[trigger] positions[i]).tick_lower
                < positions[i].tick_upper,
    ensures
        active_liquidity(positions, boundary) == active_liquidity(positions, boundary - 1)
            + net_liquidity(positions, boundary),
    decreases positions.len(),
{
    if positions.len() > 0 {
        let rest = positions.drop_last();
        assert forall|i: int| 0 <= i < rest.len() implies (#[trigger] rest[i]).tick_lower
            < rest[i].tick_upper by {
            assert(rest[i] == positions[i]);
        }
        assert(positions.last() == positions[positions.len() - 1]);
        law_crossing_keeps_active_liquidity(rest, boundary);
    }
}

} // verus!
