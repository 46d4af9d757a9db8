//! The price-range index: tick arrays, the tick bitmap and the instructions on them.

use vstd::prelude::*;

use crate::arith::{is_i128, is_u128, wrapping_difference};
use crate::pubkey::{is_default_key, Pubkey};
use crate::tick_manager::math::{
    array_start, array_start_to_bitmap_index, bitmap_bit, bitmap_index, bitmap_word,
    bitmap_word_and_bit, tick_in_range, tick_on_grid, tick_to_array_start_tick, validate_tick,
    validate_tick_spacing, TickManagerError, ARRAY_SPAN, TICK_SPACING,
};
use crate::tick_manager::state::{TickArray, TickBitmap, TickData};

pub mod laws;
pub mod math;
pub mod math_laws;
pub mod price;
pub mod state;

verus! {

/// Accounts of `initialize_tick_array`.
#[derive(Clone, Copy, Debug, PartialEq, Eq)]
pub struct InitializeTickArray {
    pub tick_array: TickArray,
    pub pool: Pubkey,
}

/// Accounts of `update_tick`.
#[derive(Clone, Copy, Debug, PartialEq, Eq)]
pub struct UpdateTick {
    pub tick_array: TickArray,
    pub tick_bitmap: TickBitmap,
    pub pool: Pubkey,
}

/// Accounts of `cross_tick`.
#[derive(Clone, Copy, Debug, PartialEq, Eq)]
pub struct CrossTick {
    pub tick_array: TickArray,
    pub pool: Pubkey,
}

/// Accounts of `get_next_initialized_tick`.
#[derive(Clone, Copy, Debug, PartialEq, Eq)]
pub struct GetNextTick {
    pub tick_array: TickArray,
    pub pool: Pubkey,
}

/// What `initialize_tick_array` does: it fails and leaves its accounts alone, or it gives the
/// array its start tick and its pool.
pub open spec fn tick_array_set_up(
    before: InitializeTickArray,
    start_tick_index: i32,
    after: InitializeTickArray,
    r: Result<(), TickManagerError>,
) -> bool {
    &&& start_tick_index as int % 5632 != 0 ==> r == Err::<(), TickManagerError>(
        TickManagerError::InvalidTickSpacing,
    )
    &&& start_tick_index as int % 5632 == 0 && !tick_in_range(start_tick_index as int) ==> r
        == Err::<(), TickManagerError>(TickManagerError::TickOutOfRange)
    &&& r is Err ==> after == before
    &&& start_tick_index as int % 5632 == 0 && tick_in_range(start_tick_index as int) ==> {
        &&& r is Ok
        &&& after == (InitializeTickArray {
            tick_array: TickArray { start_tick_index, pool: before.pool, ..before.tick_array },
            ..before
        })
    }
}

/// Gives a fresh tick array its start tick and its pool.
pub fn initialize_tick_array(ctx: &mut InitializeTickArray, start_tick_index: i32) -> (r: Result<
    (),
    TickManagerError,
>)
    ensures
        tick_array_set_up(*old(ctx), start_tick_index, *final(ctx), r),
{
    if start_tick_index % ARRAY_SPAN != 0 {
        return Err(TickManagerError::InvalidTickSpacing);
    }
    match validate_tick(start_tick_index) {
        Ok(_) => {},
        Err(e) => {
            return Err(e);
        },
    }
    ctx.tick_array.start_tick_index = start_tick_index;
    ctx.tick_array.pool = ctx.pool;
    Ok(())
}

/// Liquidity that begins or ends at a tick after a change by `delta`.
pub open spec fn gross_after(tick: TickData, delta: int) -> int {
    tick.liquidity_gross + delta
}

/// Net liquidity of a tick after a change by `delta`: a range adds at its lower tick what
/// it takes away at its upper one.
pub open spec fn net_after(tick: TickData, delta: int, is_upper_tick: bool) -> int {
    if is_upper_tick {
        tick.liquidity_net - delta
    } else {
        tick.liquidity_net + delta
    }
}

/// The tick's data after a change by `delta`. A tick that gets its first liquidity becomes
/// initialized, one that loses its last is reset.
pub open spec fn tick_after(tick: TickData, delta: int, is_upper_tick: bool) -> TickData {
    let gross = gross_after(tick, delta);
    let fresh = gross == 0 || tick.initialized == 0;
    TickData {
        liquidity_gross: gross as u128,
        liquidity_net: net_after(tick, delta, is_upper_tick) as i128,
        initialized: if gross == 0 {
            0
        } else if tick.initialized == 0 {
            1
        } else {
            tick.initialized
        },
        fee_growth_outside_0: if fresh {
            0
        } else {
            tick.fee_growth_outside_0
        },
        fee_growth_outside_1: if fresh {
            0
        } else {
            tick.fee_growth_outside_1
        },
        ..tick
    }
}

/// A change by `delta` takes the tick into or out of use.
pub open spec fn flips(tick: TickData, delta: int) -> bool {
    (tick.initialized != 0) != (gross_after(tick, delta) > 0)
}

/// Bitmap word of the array that holds a tick.
pub open spec fn word_of_tick(tick_index: int) -> int {
    bitmap_word(bitmap_index(array_start(tick_index)))
}

/// Bit of the array that holds a tick within its word.
pub open spec fn bit_of_tick(tick_index: int) -> int {
    bitmap_bit(bitmap_index(array_start(tick_index)))
}

/// The bitmap word is unused or already stands for this pool and these arrays.
pub open spec fn bitmap_matches(bitmap: TickBitmap, pool: Pubkey, word: int) -> bool {
    is_default_key(bitmap.pool) || (bitmap.pool == pool && bitmap.word_index == word)
}

/// Why `update_tick` fails, if it does.
pub open spec fn update_tick_failure(
    ctx: UpdateTick,
    tick_index: int,
    bitmap_word_index: int,
    liquidity_delta: int,
    is_upper_tick: bool,
) -> Option<TickManagerError> {
    let tick = ctx.tick_array.slot(ctx.tick_array.slot_of(tick_index));
    if !tick_in_range(tick_index) {
        Some(TickManagerError::TickOutOfRange)
    } else if !tick_on_grid(tick_index) {
        Some(TickManagerError::InvalidTickSpacing)
    } else if !ctx.tick_array.holds(tick_index) {
        Some(TickManagerError::TickNotInitialized)
    } else if !is_u128(gross_after(tick, liquidity_delta)) || !is_i128(
        net_after(tick, liquidity_delta, is_upper_tick),
    ) {
        Some(TickManagerError::TickOutOfRange)
    } else if flips(tick, liquidity_delta) && (bitmap_word_index != word_of_tick(tick_index)
        || !bitmap_matches(ctx.tick_bitmap, ctx.pool, word_of_tick(tick_index))) {
        Some(TickManagerError::BitmapOutOfRange)
    } else {
        None
    }
}

/// The bitmap word after the bit of an array has been set (`used`) or cleared.
pub open spec fn bitmap_flipped(
    before: TickBitmap,
    after: TickBitmap,
    pool: Pubkey,
    word: int,
    bit: int,
    used: bool,
) -> bool {
    &&& after.pool == pool
    &&& after.word_index == word
    &&& after._padding == before._padding
    &&& after.bits() == if used {
        before.bits().insert(bit as u32)
    } else {
        before.bits().remove(bit as u32)
    }
}

/// What `update_tick` does to its accounts where it succeeds. Where the tick comes into use or
/// falls out of it, the array's bit says whether any tick of the array is now in use.
pub open spec fn tick_updated(
    before: UpdateTick,
    after: UpdateTick,
    tick_index: int,
    liquidity_delta: int,
    is_upper_tick: bool,
) -> bool {
    let slot = before.tick_array.slot_of(tick_index);
    let tick = before.tick_array.slot(slot);
    &&& after.pool == before.pool
    &&& after.tick_array.slot(slot) == tick_after(tick, liquidity_delta, is_upper_tick)
    &&& after.tick_array.same_except_slot(before.tick_array, slot)
    &&& !flips(tick, liquidity_delta) ==> after.tick_bitmap == before.tick_bitmap
    &&& flips(tick, liquidity_delta) ==> bitmap_flipped(
        before.tick_bitmap,
        after.tick_bitmap,
        before.pool,
        word_of_tick(tick_index),
        bit_of_tick(tick_index),
        after.tick_array.in_use(),
    )
}

/// What `update_tick` does: it fails and leaves its accounts alone, or it updates the tick.
pub open spec fn tick_update_done(
    before: UpdateTick,
    tick_index: i32,
    bitmap_word_index: i32,
    liquidity_delta: i128,
    is_upper_tick: bool,
    after: UpdateTick,
    r: Result<(), TickManagerError>,
) -> bool {
    match update_tick_failure(
        before,
        tick_index as int,
        bitmap_word_index as int,
        liquidity_delta as int,
        is_upper_tick,
    ) {
        Some(e) => r == Err::<(), TickManagerError>(e) && after == before,
        None => r is Ok && tick_updated(
            before,
            after,
            tick_index as int,
            liquidity_delta as int,
            is_upper_tick,
        ),
    }
}

/// Registers `liquidity_delta` of a position's liquidity at one of its boundary ticks, and
/// keeps the bitmap in step where the tick comes into use or falls out of it.
pub fn update_tick(
    ctx: &mut UpdateTick,
    tick_index: i32,
    bitmap_word_index: i32,
    liquidity_delta: i128,
    is_upper_tick: bool,
    _fee_growth_global_0: u128,
    _fee_growth_global_1: u128,
) -> (r: Result<(), TickManagerError>)
    ensures
        tick_update_done(
            *old(ctx),
            tick_index,
            bitmap_word_index,
            liquidity_delta,
            is_upper_tick,
            *final(ctx),
            r,
        ),
{
    match validate_tick(tick_index) {
        Ok(_) => {},
        Err(e) => {
            return Err(e);
        },
    }
    match validate_tick_spacing(tick_index) {
        Ok(_) => {},
        Err(e) => {
            return Err(e);
        },
    }
    let mut tick: TickData = match ctx.tick_array.get_tick(tick_index) {
        Some(tick) => *tick,
        None => {
            return Err(TickManagerError::TickNotInitialized);
        },
    };
    let was_initialized: bool = tick.initialized != 0;

    tick.liquidity_gross = match tick.liquidity_gross.checked_add_signed(liquidity_delta) {
        Some(gross) => gross,
        None => {
            return Err(TickManagerError::TickOutOfRange);
        },
    };
    let net: Option<i128> = if is_upper_tick {
        tick.liquidity_net.checked_sub(liquidity_delta)
    } else {
        tick.liquidity_net.checked_add(liquidity_delta)
    };
    tick.liquidity_net = match net {
        Some(net) => net,
        None => {
            return Err(TickManagerError::TickOutOfRange);
        },
    };

    if !was_initialized && tick.liquidity_gross > 0 {
        tick.initialized = 1;
        tick.fee_growth_outside_0 = 0;
        tick.fee_growth_outside_1 = 0;
    }
    if tick.liquidity_gross == 0 {
        tick.initialized = 0;
        tick.fee_growth_outside_0 = 0;
        tick.fee_growth_outside_1 = 0;
    }
    let is_now_initialized: bool = tick.liquidity_gross > 0;

    if was_initialized != is_now_initialized {
        let array_index: i32 = array_start_to_bitmap_index(tick_to_array_start_tick(tick_index));
        let (word_index, bit_index) = bitmap_word_and_bit(array_index);
        if bitmap_word_index != word_index {
            return Err(TickManagerError::BitmapOutOfRange);
        }
        if ctx.tick_bitmap.pool.is_default() {
            ctx.tick_bitmap.pool = ctx.pool;
            ctx.tick_bitmap.word_index = word_index;
        } else if ctx.tick_bitmap.pool != ctx.pool || ctx.tick_bitmap.word_index != word_index {
            return Err(TickManagerError::BitmapOutOfRange);
        }
        let offset: usize = ((tick_index - ctx.tick_array.start_tick_index)
            / TICK_SPACING) as usize;
        if is_now_initialized || ctx.tick_array.is_in_use_besides(offset) {
            ctx.tick_bitmap.set_bit(bit_index);
        } else {
            ctx.tick_bitmap.clear_bit(bit_index);
        }
    }
    match ctx.tick_array.get_tick_mut(tick_index) {
        Some(stored) => {
            *stored = tick;
        },
        None => {},
    }
    proof {
        lemma_in_use_after(
            old(ctx).tick_array,
            ctx.tick_array,
            old(ctx).tick_array.slot_of(tick_index as int),
        );
    }
    Ok(())
}

/// An array after a change of one slot is in use if that slot is, or another one was.
proof fn lemma_in_use_after(before: TickArray, after: TickArray, slot: int)
    requires
        0 <= slot < 88,
        after.same_except_slot(before, slot),
    ensures
        after.in_use() == (after.slot(slot).initialized != 0 || before.in_use_besides(slot)),
        before.in_use() == (before.slot(slot).initialized != 0 || before.in_use_besides(slot)),
{
    if before.in_use_besides(slot) {
        let k = choose|k: int|
            0 <= k < 88 && k != slot && (#[trigger] before.slot(k)).initialized != 0;
        assert(after.slot(k).initialized != 0);
    }
    if after.in_use() {
        let k = choose|k: int| 0 <= k < 88 && (#[trigger] after.slot(k)).initialized != 0;
        if k != slot {
            assert(before.slot(k).initialized != 0);
        }
    }
}

/// Why `cross_tick` fails, if it does.
pub open spec fn cross_tick_failure(array: TickArray, tick_index: int) -> Option<TickManagerError> {
    if !array.holds(tick_index) || array.slot(array.slot_of(tick_index)).initialized == 0 {
        Some(TickManagerError::TickNotInitialized)
    } else {
        None
    }
}

/// The tick's data after the price has crossed it: what was outside is now inside.
pub open spec fn tick_crossed(tick: TickData, global_0: u128, global_1: u128) -> TickData {
    TickData {
        fee_growth_outside_0: wrapping_difference(global_0, tick.fee_growth_outside_0),
        fee_growth_outside_1: wrapping_difference(global_1, tick.fee_growth_outside_1),
        ..tick
    }
}

/// What `cross_tick` does: it fails and leaves its accounts alone, or it crosses the tick and
/// returns its net liquidity.
pub open spec fn tick_crossing_done(
    before: CrossTick,
    tick_index: i32,
    fee_growth_global_0: u128,
    fee_growth_global_1: u128,
    after: CrossTick,
    r: Result<i128, TickManagerError>,
) -> bool {
    match cross_tick_failure(before.tick_array, tick_index as int) {
        Some(e) => r == Err::<i128, TickManagerError>(e) && after == before,
        None => {
            let slot = before.tick_array.slot_of(tick_index as int);
            let tick = before.tick_array.slot(slot);
            &&& r == Ok::<i128, TickManagerError>(tick.liquidity_net)
            &&& after.pool == before.pool
            &&& after.tick_array.slot(slot) == tick_crossed(
                tick,
                fee_growth_global_0,
                fee_growth_global_1,
            )
            &&& after.tick_array.same_except_slot(before.tick_array, slot)
        },
    }
}

/// Takes the price across a tick. Returns the tick's net liquidity.
pub fn cross_tick(
    ctx: &mut CrossTick,
    tick_index: i32,
    fee_growth_global_0: u128,
    fee_growth_global_1: u128,
) -> (r: Result<i128, TickManagerError>)
    requires
        tick_index >= old(ctx).tick_array.start_tick_index ==> old(ctx).tick_array.start_tick_index
            + ARRAY_SPAN <= i32::MAX,
    ensures
        tick_crossing_done(
            *old(ctx),
            tick_index,
            fee_growth_global_0,
            fee_growth_global_1,
            *final(ctx),
            r,
        ),
{
    let tick: TickData = match ctx.tick_array.get_tick(tick_index) {
        Some(tick) => *tick,
        None => {
            return Err(TickManagerError::TickNotInitialized);
        },
    };
    if tick.initialized == 0 {
        return Err(TickManagerError::TickNotInitialized);
    }
    match ctx.tick_array.get_tick_mut(tick_index) {
        Some(stored) => {
            stored.fee_growth_outside_0 =
            fee_growth_global_0.wrapping_sub(tick.fee_growth_outside_0);
            stored.fee_growth_outside_1 =
            fee_growth_global_1.wrapping_sub(tick.fee_growth_outside_1);
        },
        None => {},
    }
    Ok(tick.liquidity_net)
}

/// The array holds the tick, and its slot is in use.
pub open spec fn initialized_at(array: TickArray, tick_index: int) -> bool {
    array.holds(tick_index) && array.slot(array.slot_of(tick_index)).initialized != 0
}

/// The tick `steps` spacings away from `current_tick` in the direction of the swap.
pub open spec fn tick_steps_away(current_tick: int, zero_for_one: bool, steps: int) -> int {
    if zero_for_one {
        current_tick - 64 * steps
    } else {
        current_tick + 64 * steps
    }
}

/// What `get_next_initialized_tick` answers: the nearest initialized tick whole spacings away,
/// or that there is none.
pub open spec fn next_tick_found(
    ctx: GetNextTick,
    current_tick: i32,
    zero_for_one: bool,
    r: Result<i32, TickManagerError>,
) -> bool {
    match r {
        Ok(t) => exists|steps: int|
            1 <= steps && t == #[trigger] tick_steps_away(
                current_tick as int,
                zero_for_one,
                steps,
            ) && initialized_at(ctx.tick_array, t as int) && forall|fewer: int|
                1 <= fewer < steps ==> !initialized_at(
                    ctx.tick_array,
                    #[trigger] tick_steps_away(current_tick as int, zero_for_one, fewer),
                ),
        Err(e) => e == TickManagerError::TickNotInitialized && forall|steps: int|
            1 <= steps ==> !initialized_at(
                ctx.tick_array,
                #[trigger] tick_steps_away(current_tick as int, zero_for_one, steps),
            ),
    }
}

/// The nearest initialized tick of an array, whole spacings away from `current_tick`: below
/// it for a swap of token 0, above it for a swap of token 1.
pub fn get_next_initialized_tick(ctx: &GetNextTick, current_tick: i32, zero_for_one: bool) -> (r:
    Result<i32, TickManagerError>)
    requires
        ctx.tick_array.start_tick_index + ARRAY_SPAN <= i32::MAX,
        i32::MIN <= tick_steps_away(current_tick as int, zero_for_one, 1) <= i32::MAX,
    ensures
        next_tick_found(*ctx, current_tick, zero_for_one, r),
{
    let start: i32 = ctx.tick_array.start_tick_index;
    let end: i32 = start + ARRAY_SPAN;
    let ghost mut steps: int = 1;
    if zero_for_one {
        let mut candidate: i32 = current_tick - TICK_SPACING;
        while candidate >= start
            invariant_except_break
                start == ctx.tick_array.start_tick_index,
                start + ARRAY_SPAN <= i32::MAX,
                candidate == tick_steps_away(current_tick as int, true, steps),
            invariant
                zero_for_one,
                1 <= steps,
                forall|fewer: int|
                    1 <= fewer < steps ==> !initialized_at(
                        ctx.tick_array,
                        #[trigger] tick_steps_away(current_tick as int, true, fewer),
                    ),
            ensures
                tick_steps_away(current_tick as int, true, steps) < start,
            decreases candidate - i32::MIN,
        {
            match ctx.tick_array.get_tick(candidate) {
                Some(tick) => {
                    if tick.initialized != 0 {
                        return Ok(candidate);
                    }
                },
                None => {},
            }
            proof {
                steps = steps + 1;
            }
            if candidate < i32::MIN + TICK_SPACING {
                break ;
            }
            candidate = candidate - TICK_SPACING;
        }
        assert forall|more: int| 1 <= more implies !initialized_at(
            ctx.tick_array,
            #[trigger] tick_steps_away(current_tick as int, true, more),
        ) by {
            if more >= steps {
                assert(tick_steps_away(current_tick as int, true, more) < start);
            }
        }
    } else {
        let mut candidate: i32 = current_tick + TICK_SPACING;
        while candidate < end
            invariant_except_break
                start == ctx.tick_array.start_tick_index,
                end == start + ARRAY_SPAN,
                candidate == tick_steps_away(current_tick as int, false, steps),
            invariant
                !zero_for_one,
                1 <= steps,
                forall|fewer: int|
                    1 <= fewer < steps ==> !initialized_at(
                        ctx.tick_array,
                        #[trigger] tick_steps_away(current_tick as int, false, fewer),
                    ),
            ensures
                tick_steps_away(current_tick as int, false, steps) >= end,
            decreases i32::MAX - candidate,
        {
            match ctx.tick_array.get_tick(candidate) {
                Some(tick) => {
                    if tick.initialized != 0 {
                        return Ok(candidate);
                    }
                },
                None => {},
            }
            proof {
                steps = steps + 1;
            }
            if candidate > i32::MAX - TICK_SPACING {
                break ;
            }
            candidate = candidate + TICK_SPACING;
        }
        assert forall|more: int| 1 <= more implies !initialized_at(
            ctx.tick_array,
            #[trigger] tick_steps_away(current_tick as int, false, more),
        ) by {
            if more >= steps {
                assert(tick_steps_away(current_tick as int, false, more) >= end);
            }
        }
    }
    Err(TickManagerError::TickNotInitialized)
}

/// A tick is initialized exactly while it holds liquidity, and an unused tick has no fee
/// growth on record.
pub open spec fn tick_consistent(tick: TickData) -> bool {
    &&& (tick.initialized != 0) == (tick.liquidity_gross > 0)
    &&& tick.initialized == 0 ==> tick.fee_growth_outside_0 == 0 && tick.fee_growth_outside_1 == 0
}

/// Every change of a tick's liquidity leaves the tick consistent.
pub proof fn law_updated_tick_is_consistent(tick: TickData, delta: int, is_upper_tick: bool)
    requires
        is_u128(gross_after(tick, delta)),
    ensures
        tick_consistent(tick_after(tick, delta, is_upper_tick)),
{
}

/// Crossing an initialized tick leaves it consistent.
pub proof fn law_crossed_tick_is_consistent(tick: TickData, global_0: u128, global_1: u128)
    requires
        tick_consistent(tick),
        tick.initialized != 0,
    ensures
        tick_consistent(tick_crossed(tick, global_0, global_1)),
{
}

/// Removing from a tick the liquidity that was just added to it restores the tick.
pub proof fn law_removing_undoes_adding(tick: TickData, delta: int, is_upper_tick: bool)
    requires
        tick_consistent(tick),
        delta >= 0,
        is_u128(gross_after(tick, delta)),
        is_i128(net_after(tick, delta, is_upper_tick)),
    ensures
        tick_after(tick_after(tick, delta, is_upper_tick), -delta, is_upper_tick) == tick,
{
}

/// A range adds at its lower tick exactly what it takes away at its upper tick.
pub proof fn law_net_liquidity_balances(lower: TickData, upper: TickData, delta: int)
    requires
        is_i128(net_after(lower, delta, false)),
        is_i128(net_after(upper, delta, true)),
    ensures
        tick_after(lower, delta, false).liquidity_net + tick_after(upper, delta, true).liquidity_net
            == lower.liquidity_net + upper.liquidity_net,
{
}

/// Crossing a tick twice at the same global fee growth restores it.
pub proof fn law_crossing_twice_restores(tick: TickData, global_0: u128, global_1: u128)
    ensures
        tick_crossed(tick_crossed(tick, global_0, global_1), global_0, global_1) == tick,
{
}

/// The bitmap marks exactly the arrays in use: every update keeps the array's bit equal to
/// whether any of its ticks is in use.
pub proof fn law_bitmap_marks_arrays_in_use(
    before: UpdateTick,
    after: UpdateTick,
    tick_index: int,
    liquidity_delta: int,
    is_upper_tick: bool,
)
    requires
        tick_in_range(tick_index),
        before.tick_array.holds(tick_index),
        is_u128(
            gross_after(
                before.tick_array.slot(before.tick_array.slot_of(tick_index)),
                liquidity_delta,
            ),
        ),
        tick_updated(before, after, tick_index, liquidity_delta, is_upper_tick),
        before.tick_bitmap.bits().contains(bit_of_tick(tick_index) as u32)
            == before.tick_array.in_use(),
    ensures
        after.tick_bitmap.bits().contains(bit_of_tick(tick_index) as u32)
            == after.tick_array.in_use(),
{
    lemma_in_use_after(
        before.tick_array,
        after.tick_array,
        before.tick_array.slot_of(tick_index),
    );
}

} // verus!
