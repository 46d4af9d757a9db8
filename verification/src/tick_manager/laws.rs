//! What the instructions on tick arrays promise, in terms of what the accounts hold.

use vstd::prelude::*;

use crate::tick_manager::math::TickManagerError;
use crate::tick_manager::state::TickArray;
use crate::tick_manager::{
    next_tick_found, tick_array_set_up, tick_crossing_done, tick_steps_away, tick_update_done,
    CrossTick, GetNextTick, InitializeTickArray, UpdateTick,
};

verus! {

/// A tick array is set up at every multiple of the span that is a valid tick, and nowhere
/// else. It gets its start tick and its pool, and nothing else of it changes.
pub proof fn law_tick_arrays_are_set_up_on_their_grid(
    before: InitializeTickArray,
    start_tick_index: i32,
    after: InitializeTickArray,
    r: Result<(), TickManagerError>,
)
    requires
        tick_array_set_up(before, start_tick_index, after, r),
    ensures
        r is Ok <==> -443_636 <= start_tick_index <= 443_636 && start_tick_index as int % 5_632
            == 0,
        r is Ok ==> after.tick_array.start_tick_index == start_tick_index && after.tick_array.pool
            == before.pool,
        r is Err ==> after == before,
        start_tick_index as int % 5_632 != 0 ==> r == Err::<(), TickManagerError>(
            TickManagerError::InvalidTickSpacing,
        ),
        start_tick_index as int % 5_632 == 0 && !(-443_636 <= start_tick_index <= 443_636) ==> r
            == Err::<(), TickManagerError>(TickManagerError::TickOutOfRange),
        after.tick_array.ticks == before.tick_array.ticks,
        after.pool == before.pool,
{
}

/// An update is accepted on every valid tick of the spacing's grid that lies in the array, as
/// long as the sums fit their types and the bitmap word is fresh or the pool's own.
pub proof fn law_valid_updates_are_accepted(
    before: UpdateTick,
    tick_index: i32,
    bitmap_word_index: i32,
    liquidity_delta: i128,
    is_upper_tick: bool,
    after: UpdateTick,
    r: Result<(), TickManagerError>,
    chunk: int,
    place: int,
)
    requires
        tick_update_done(
            before,
            tick_index,
            bitmap_word_index,
            liquidity_delta,
            is_upper_tick,
            after,
            r,
        ),
        -443_636 <= tick_index <= 443_636,
        tick_index as int % 64 == 0,
        before.tick_array.start_tick_index <= tick_index < before.tick_array.start_tick_index
            + 5_632,
        0 <= place < 11,
        chunk * 11 + place == (tick_index - before.tick_array.start_tick_index) / 64,
        ({
            let tick = before.tick_array.ticks@[chunk]@[place];
            &&& 0 <= tick.liquidity_gross + liquidity_delta <= u128::MAX
            &&& i128::MIN <= (if is_upper_tick {
                tick.liquidity_net - liquidity_delta
            } else {
                tick.liquidity_net + liquidity_delta
            }) <= i128::MAX
        }),
        bitmap_word_index == (tick_index as int / 5_632 + 79) / 8,
        (forall|i: int| 0 <= i < 32 ==> before.tick_bitmap.pool.bytes@[i] == 0) || (
        before.tick_bitmap.pool == before.pool && before.tick_bitmap.word_index
            == bitmap_word_index),
    ensures
        r is Ok,
{
    let slot = before.tick_array.slot_of(tick_index as int);
    assert(slot / 11 == chunk && slot % 11 == place);
}

/// An update that is accepted was to a valid tick of the array, and is exactly booked: gross
/// and net liquidity move by the delta, the tick is initialized just while liquidity begins or
/// ends there, and all other ticks stay as they were.
pub proof fn law_accepted_updates_are_booked(
    before: UpdateTick,
    tick_index: i32,
    bitmap_word_index: i32,
    liquidity_delta: i128,
    is_upper_tick: bool,
    after: UpdateTick,
    r: Result<(), TickManagerError>,
    chunk: int,
    place: int,
)
    requires
        tick_update_done(
            before,
            tick_index,
            bitmap_word_index,
            liquidity_delta,
            is_upper_tick,
            after,
            r,
        ),
        r is Ok,
        0 <= place < 11,
        chunk * 11 + place == (tick_index - before.tick_array.start_tick_index) / 64,
    ensures
        -443_636 <= tick_index <= 443_636,
        tick_index as int % 64 == 0,
        before.tick_array.start_tick_index <= tick_index < before.tick_array.start_tick_index
            + 5_632,
        ({
            let old_tick = before.tick_array.ticks@[chunk]@[place];
            let new_tick = after.tick_array.ticks@[chunk]@[place];
            &&& new_tick.liquidity_gross == old_tick.liquidity_gross + liquidity_delta
            &&& is_upper_tick ==> new_tick.liquidity_net == old_tick.liquidity_net
                - liquidity_delta
            &&& !is_upper_tick ==> new_tick.liquidity_net == old_tick.liquidity_net
                + liquidity_delta
            &&& (new_tick.initialized != 0) == (new_tick.liquidity_gross > 0)
            &&& old_tick.initialized == 0 && new_tick.liquidity_gross > 0 ==> new_tick.initialized
                == 1
            &&& old_tick.initialized != 0 && new_tick.liquidity_gross > 0 ==> new_tick.initialized
                == old_tick.initialized
            &&& new_tick._padding == old_tick._padding
            &&& old_tick.initialized != 0 && new_tick.liquidity_gross > 0
                ==> new_tick.fee_growth_outside_0 == old_tick.fee_growth_outside_0
                && new_tick.fee_growth_outside_1 == old_tick.fee_growth_outside_1
            &&& old_tick.initialized == 0 || new_tick.liquidity_gross == 0
                ==> new_tick.fee_growth_outside_0 == 0 && new_tick.fee_growth_outside_1 == 0
        }),
        forall|c: int, p: int|
            0 <= c < 8 && 0 <= p < 11 && !(c == chunk && p == place)
                ==> #[trigger] after.tick_array.ticks@[c]@[p] == before.tick_array.ticks@[c]@[p],
        after.tick_array.start_tick_index == before.tick_array.start_tick_index,
        after.tick_array.pool == before.tick_array.pool,
        after.pool == before.pool,
{
    let slot = before.tick_array.slot_of(tick_index as int);
    assert(slot / 11 == chunk && slot % 11 == place);
    assert forall|c: int, p: int|
        0 <= c < 8 && 0 <= p < 11 && !(c == chunk && p == place) implies #[trigger] after.tick_array
        .ticks@[c]@[p] == before.tick_array.ticks@[c]@[p] by {
        let k = c * 11 + p;
        assert(k / 11 == c && k % 11 == p);
        assert(after.tick_array.slot(k) == before.tick_array.slot(k));
    }
}

/// An update that takes no tick into use or out of it needs no bitmap word: it is accepted on
/// every valid tick of the array whose sums fit their types, whatever the word is.
pub proof fn law_updates_of_ticks_in_use_need_no_word(
    before: UpdateTick,
    tick_index: i32,
    bitmap_word_index: i32,
    liquidity_delta: i128,
    is_upper_tick: bool,
    after: UpdateTick,
    r: Result<(), TickManagerError>,
    chunk: int,
    place: int,
)
    requires
        tick_update_done(
            before,
            tick_index,
            bitmap_word_index,
            liquidity_delta,
            is_upper_tick,
            after,
            r,
        ),
        -443_636 <= tick_index <= 443_636,
        tick_index as int % 64 == 0,
        before.tick_array.start_tick_index <= tick_index < before.tick_array.start_tick_index
            + 5_632,
        0 <= place < 11,
        chunk * 11 + place == (tick_index - before.tick_array.start_tick_index) / 64,
        ({
            let tick = before.tick_array.ticks@[chunk]@[place];
            &&& 0 <= tick.liquidity_gross + liquidity_delta <= u128::MAX
            &&& i128::MIN <= (if is_upper_tick {
                tick.liquidity_net - liquidity_delta
            } else {
                tick.liquidity_net + liquidity_delta
            }) <= i128::MAX
            &&& (tick.initialized != 0) == (tick.liquidity_gross + liquidity_delta > 0)
        }),
    ensures
        r is Ok,
        after.tick_bitmap == before.tick_bitmap,
{
    let slot = before.tick_array.slot_of(tick_index as int);
    assert(slot / 11 == chunk && slot % 11 == place);
}

/// An update of a valid tick of the array is refused where a sum does not fit its type, or else
/// where it takes the tick into use or out of it and the bitmap word is another one's.
pub proof fn law_updates_are_refused_for_overflow_or_word(
    before: UpdateTick,
    tick_index: i32,
    bitmap_word_index: i32,
    liquidity_delta: i128,
    is_upper_tick: bool,
    after: UpdateTick,
    r: Result<(), TickManagerError>,
    chunk: int,
    place: int,
)
    requires
        tick_update_done(
            before,
            tick_index,
            bitmap_word_index,
            liquidity_delta,
            is_upper_tick,
            after,
            r,
        ),
        r is Err,
        -443_636 <= tick_index <= 443_636,
        tick_index as int % 64 == 0,
        before.tick_array.start_tick_index <= tick_index < before.tick_array.start_tick_index
            + 5_632,
        0 <= place < 11,
        chunk * 11 + place == (tick_index - before.tick_array.start_tick_index) / 64,
    ensures
        ({
            let tick = before.tick_array.ticks@[chunk]@[place];
            let net = if is_upper_tick {
                tick.liquidity_net - liquidity_delta
            } else {
                tick.liquidity_net + liquidity_delta
            };
            let fits = 0 <= tick.liquidity_gross + liquidity_delta <= u128::MAX && i128::MIN <= net
                <= i128::MAX;
            &&& !fits ==> r->Err_0 == TickManagerError::TickOutOfRange
            &&& fits ==> r->Err_0 == TickManagerError::BitmapOutOfRange
        }),
{
    let slot = before.tick_array.slot_of(tick_index as int);
    assert(slot / 11 == chunk && slot % 11 == place);
}

/// A search that finds nothing says so, and nothing else.
pub proof fn law_failed_search_says_not_initialized(
    ctx: GetNextTick,
    current_tick: i32,
    zero_for_one: bool,
    r: Result<i32, TickManagerError>,
)
    requires
        next_tick_found(ctx, current_tick, zero_for_one, r),
        r is Err,
    ensures
        r->Err_0 == TickManagerError::TickNotInitialized,
{
}

/// An update that is refused changes nothing.
pub proof fn law_refused_updates_change_nothing(
    before: UpdateTick,
    tick_index: i32,
    bitmap_word_index: i32,
    liquidity_delta: i128,
    is_upper_tick: bool,
    after: UpdateTick,
    r: Result<(), TickManagerError>,
)
    requires
        tick_update_done(
            before,
            tick_index,
            bitmap_word_index,
            liquidity_delta,
            is_upper_tick,
            after,
            r,
        ),
        r is Err,
    ensures
        after.tick_array == before.tick_array,
        after.tick_bitmap == before.tick_bitmap,
        tick_index < -443_636 || tick_index > 443_636 ==> r->Err_0
            == TickManagerError::TickOutOfRange,
        -443_636 <= tick_index <= 443_636 && tick_index as int % 64 != 0 ==> r->Err_0
            == TickManagerError::InvalidTickSpacing,
        -443_636 <= tick_index <= 443_636 && tick_index as int % 64 == 0 && !(
        before.tick_array.start_tick_index <= tick_index < before.tick_array.start_tick_index
            + 5_632) ==> r->Err_0 == TickManagerError::TickNotInitialized,
{
}

/// Where an update takes a tick into use or out of it, the bit of the tick's array says
/// afterwards whether any tick of the array is in use; the word belongs to the pool, and no
/// other bit changes. Any other update leaves the bitmap alone.
pub proof fn law_updates_keep_bitmap(
    before: UpdateTick,
    tick_index: i32,
    bitmap_word_index: i32,
    liquidity_delta: i128,
    is_upper_tick: bool,
    after: UpdateTick,
    r: Result<(), TickManagerError>,
    chunk: int,
    place: int,
)
    requires
        tick_update_done(
            before,
            tick_index,
            bitmap_word_index,
            liquidity_delta,
            is_upper_tick,
            after,
            r,
        ),
        r is Ok,
        0 <= place < 11,
        chunk * 11 + place == (tick_index - before.tick_array.start_tick_index) / 64,
    ensures
        ({
            let was = before.tick_array.ticks@[chunk]@[place].initialized != 0;
            let is = after.tick_array.ticks@[chunk]@[place].initialized != 0;
            let bit = ((tick_index as int / 5_632 + 79) % 8) as u32;
            &&& was == is ==> after.tick_bitmap == before.tick_bitmap
            &&& was != is ==> {
                &&& after.tick_bitmap.pool == before.pool
                &&& after.tick_bitmap.word_index == (tick_index as int / 5_632 + 79) / 8
                &&& after.tick_bitmap._padding == before.tick_bitmap._padding
                &&& bitmap_word_index == after.tick_bitmap.word_index
                &&& (forall|i: int| 0 <= i < 32 ==> before.tick_bitmap.pool.bytes@[i] == 0) || (
                before.tick_bitmap.pool == before.pool && before.tick_bitmap.word_index
                    == bitmap_word_index)
                &&& ((after.tick_bitmap.initialized_arrays >> bit) & 1u8 == 1u8) == (exists|
                    c: int,
                    p: int,
                |
                    0 <= c < 8 && 0 <= p < 11 && (#[trigger] after.tick_array.ticks@[c]@[p])
                        .initialized != 0)
                &&& forall|other: u32|
                    other < 8 && other != bit ==> ((#[trigger] (
                    after.tick_bitmap.initialized_arrays >> other)) & 1u8 == 1u8) == ((
                    before.tick_bitmap.initialized_arrays >> other) & 1u8 == 1u8)
            }
        }),
{
    let slot = before.tick_array.slot_of(tick_index as int);
    assert(slot / 11 == chunk && slot % 11 == place);
    let was = before.tick_array.ticks@[chunk]@[place].initialized != 0;
    let is = after.tick_array.ticks@[chunk]@[place].initialized != 0;
    let bit = ((tick_index as int / 5_632 + 79) % 8) as u32;
    if was != is {
        lemma_in_use_raw(after.tick_array);
        assert(after.tick_bitmap.bits().contains(bit) == after.tick_array.in_use());
        assert forall|other: u32|
            other < 8 && other != bit implies ((#[trigger] (after.tick_bitmap.initialized_arrays
            >> other)) & 1u8 == 1u8) == ((before.tick_bitmap.initialized_arrays >> other) & 1u8
            == 1u8) by {
            assert(after.tick_bitmap.bits().contains(other) == before.tick_bitmap.bits().contains(
                other,
            ));
        }
    }
}

proof fn lemma_in_use_raw(array: TickArray)
    ensures
        array.in_use() == (exists|c: int, p: int|
            0 <= c < 8 && 0 <= p < 11 && (#[trigger] array.ticks@[c]@[p]).initialized != 0),
{
    if array.in_use() {
        let k = choose|k: int| 0 <= k < 88 && (#[trigger] array.slot(k)).initialized != 0;
        assert(array.ticks@[k / 11]@[k % 11].initialized != 0);
    }
    if exists|c: int, p: int|
        0 <= c < 8 && 0 <= p < 11 && (#[trigger] array.ticks@[c]@[p]).initialized != 0 {
        let (c, p) = choose|c: int, p: int|
            0 <= c < 8 && 0 <= p < 11 && (#[trigger] array.ticks@[c]@[p]).initialized != 0;
        let k = c * 11 + p;
        assert(k / 11 == c && k % 11 == p);
        assert(array.slot(k).initialized != 0);
    }
}

/// Every initialized tick of an array can be crossed, and no other. A crossing answers the
/// tick's net liquidity, turns what was outside into what is inside, modulo `2^128`, and leaves
/// everything else alone.
pub proof fn law_crossing_turns_fees_inside_out(
    before: CrossTick,
    tick_index: i32,
    fee_growth_global_0: u128,
    fee_growth_global_1: u128,
    after: CrossTick,
    r: Result<i128, TickManagerError>,
    chunk: int,
    place: int,
)
    requires
        tick_crossing_done(
            before,
            tick_index,
            fee_growth_global_0,
            fee_growth_global_1,
            after,
            r,
        ),
        0 <= place < 11,
        chunk * 11 + place == (tick_index - before.tick_array.start_tick_index) / 64,
    ensures
        r is Ok <==> before.tick_array.start_tick_index <= tick_index
            < before.tick_array.start_tick_index + 5_632
            && before.tick_array.ticks@[chunk]@[place].initialized != 0,
        r is Err ==> after == before && r->Err_0 == TickManagerError::TickNotInitialized,
        r is Ok ==> {
            let old_tick = before.tick_array.ticks@[chunk]@[place];
            let new_tick = after.tick_array.ticks@[chunk]@[place];
            let whole = 0x1_0000_0000_0000_0000_0000_0000_0000_0000int;
            &&& r->Ok_0 == old_tick.liquidity_net
            &&& new_tick.liquidity_net == old_tick.liquidity_net
            &&& new_tick.liquidity_gross == old_tick.liquidity_gross
            &&& new_tick.initialized == old_tick.initialized
            &&& new_tick._padding == old_tick._padding
            &&& (old_tick.fee_growth_outside_0 + new_tick.fee_growth_outside_0
                - fee_growth_global_0) % whole == 0
            &&& (old_tick.fee_growth_outside_1 + new_tick.fee_growth_outside_1
                - fee_growth_global_1) % whole == 0
        },
        forall|c: int, p: int|
            0 <= c < 8 && 0 <= p < 11 && !(c == chunk && p == place)
                ==> #[trigger] after.tick_array.ticks@[c]@[p] == before.tick_array.ticks@[c]@[p],
        after.tick_array.start_tick_index == before.tick_array.start_tick_index,
        after.tick_array.pool == before.tick_array.pool,
        after.pool == before.pool,
{
    let slot = before.tick_array.slot_of(tick_index as int);
    assert(slot / 11 == chunk && slot % 11 == place);
    assert forall|c: int, p: int|
        0 <= c < 8 && 0 <= p < 11 && !(c == chunk && p == place) implies #[trigger] after.tick_array
        .ticks@[c]@[p] == before.tick_array.ticks@[c]@[p] by {
        let k = c * 11 + p;
        assert(k / 11 == c && k % 11 == p);
        if r is Ok {
            assert(after.tick_array.slot(k) == before.tick_array.slot(k));
        }
    }
}

/// The next initialized tick of an array lies in the array, in the direction of the swap and
/// whole spacings away, and no tick on the way there is initialized. Without an answer there
/// is no such tick.
pub proof fn law_next_tick_is_nearest(
    ctx: GetNextTick,
    current_tick: i32,
    zero_for_one: bool,
    r: Result<i32, TickManagerError>,
    other: int,
)
    requires
        next_tick_found(ctx, current_tick, zero_for_one, r),
        ctx.tick_array.start_tick_index <= other < ctx.tick_array.start_tick_index + 5_632,
        (other - current_tick) % 64 == 0,
        zero_for_one ==> other < current_tick,
        !zero_for_one ==> other > current_tick,
        ({
            let slot = (other - ctx.tick_array.start_tick_index) / 64;
            ctx.tick_array.ticks@[slot / 11]@[slot % 11].initialized != 0
        }),
    ensures
        r is Ok,
        zero_for_one ==> other <= r->Ok_0 < current_tick,
        !zero_for_one ==> current_tick < r->Ok_0 <= other,
{
    let away = if zero_for_one {
        current_tick - other
    } else {
        other - current_tick
    };
    let steps = away / 64;
    assert((other - current_tick) % 64 == 0);
    assert(tick_steps_away(current_tick as int, zero_for_one, steps) == other);
}

/// What the search answers is an initialized tick of the array, in the direction of the swap
/// and whole spacings away.
pub proof fn law_next_tick_is_initialized(
    ctx: GetNextTick,
    current_tick: i32,
    zero_for_one: bool,
    r: Result<i32, TickManagerError>,
)
    requires
        next_tick_found(ctx, current_tick, zero_for_one, r),
        r is Ok,
    ensures
        ctx.tick_array.start_tick_index <= r->Ok_0 < ctx.tick_array.start_tick_index + 5_632,
        (r->Ok_0 - current_tick) % 64 == 0,
        zero_for_one ==> r->Ok_0 < current_tick,
        !zero_for_one ==> r->Ok_0 > current_tick,
        ({
            let slot = (r->Ok_0 - ctx.tick_array.start_tick_index) / 64;
            ctx.tick_array.ticks@[slot / 11]@[slot % 11].initialized != 0
        }),
{
}

/// A fresh array that spans a tick, with a fresh bitmap word, takes any first liquidity of a
/// position at that tick.
pub proof fn law_fresh_arrays_take_liquidity(
    before: UpdateTick,
    tick_index: i32,
    bitmap_word_index: i32,
    liquidity_delta: i128,
    is_upper_tick: bool,
    after: UpdateTick,
    r: Result<(), TickManagerError>,
)
    requires
        tick_update_done(
            before,
            tick_index,
            bitmap_word_index,
            liquidity_delta,
            is_upper_tick,
            after,
            r,
        ),
        -443_636 <= tick_index <= 443_636,
        tick_index as int % 64 == 0,
        liquidity_delta >= 0,
        before.tick_array.start_tick_index <= tick_index < before.tick_array.start_tick_index
            + 5_632,
        bitmap_word_index == (tick_index as int / 5_632 + 79) / 8,
        forall|c: int, p: int|
            0 <= c < 8 && 0 <= p < 11 ==> (#[trigger] before.tick_array.ticks@[c]@[p])
                .liquidity_gross == 0 && before.tick_array.ticks@[c]@[p].liquidity_net == 0,
        forall|i: int| 0 <= i < 32 ==> before.tick_bitmap.pool.bytes@[i] == 0,
    ensures
        r is Ok,
{
    let k = (tick_index - before.tick_array.start_tick_index) / 64;
    assert(before.tick_array.ticks@[k / 11]@[k % 11].liquidity_gross == 0);
    law_valid_updates_are_accepted(
        before,
        tick_index,
        bitmap_word_index,
        liquidity_delta,
        is_upper_tick,
        after,
        r,
        k / 11,
        k % 11,
    );
}

} // verus!
