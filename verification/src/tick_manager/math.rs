//! Tick validation, tick-to-price conversion and the bitmap's index arithmetic.

use vstd::prelude::*;

use crate::arith::{trunc_div, trunc_rem};
use crate::tick_manager::price::{sqrt_price_at, sqrt_price_of_tick};

verus! {

/// Distance between two ticks that may hold liquidity.
pub const TICK_SPACING: i32 = 64;

/// Number of tick slots in one tick array.
pub const TICKS_PER_ARRAY: usize = 88;

/// Number of tick arrays that one bitmap word covers.
pub const ARRAYS_PER_BITMAP_WORD: usize = 8;

pub const MIN_TICK: i32 = -443_636;

pub const MAX_TICK: i32 = 443_636;

/// One in Q64.64 fixed point.
pub const Q64_RESOLUTION: u128 = 0x1_0000_0000_0000_0000;

/// Number of ticks that one tick array spans: `TICKS_PER_ARRAY * TICK_SPACING`.
pub const ARRAY_SPAN: i32 = 5_632;

/// First tick of the tick array that holds `MIN_TICK`.
pub const MIN_ARRAY_START: i32 = -444_928;

#[derive(Debug, Clone, Copy, PartialEq, Eq, Structural)]
pub enum TickManagerError {
    /// Tick index out of allowed range.
    TickOutOfRange,
    /// Tick is not a multiple of tick spacing.
    InvalidTickSpacing,
    /// TickArray is already initialized.
    TickArrayAlreadyInitialized,
    /// Tick is not initialized in this array.
    TickNotInitialized,
    /// Bitmap word index out of range.
    BitmapOutOfRange,
}

/// The tick lies in the range that has a price.
pub open spec fn tick_in_range(tick: int) -> bool {
    MIN_TICK <= tick <= MAX_TICK
}

/// The tick may hold liquidity.
pub open spec fn tick_on_grid(tick: int) -> bool {
    tick % 64 == 0
}

/// First tick of the tick array that holds `tick`.
pub open spec fn array_start(tick: int) -> int {
    (tick / 5632) * 5632
}

/// Place of a tick array in the bitmap, counted from the array that holds `MIN_TICK`.
pub open spec fn bitmap_index(start_tick: int) -> int {
    trunc_div(start_tick - MIN_ARRAY_START, 5632)
}

/// Bitmap word of an array, by its place in the bitmap.
pub open spec fn bitmap_word(array_index: int) -> int {
    trunc_div(array_index, 8)
}

/// Bit of an array within its bitmap word. A negative remainder is taken modulo `2^32`.
pub open spec fn bitmap_bit(array_index: int) -> int {
    if trunc_rem(array_index, 8) < 0 {
        trunc_rem(array_index, 8) + 0x1_0000_0000
    } else {
        trunc_rem(array_index, 8)
    }
}

/// Accepts a tick that has a price.
pub fn validate_tick(tick: i32) -> (r: Result<(), TickManagerError>)
    ensures
        tick_in_range(tick as int) ==> r == Ok::<(), TickManagerError>(()),
        !tick_in_range(tick as int) ==> r == Err::<(), TickManagerError>(
            TickManagerError::TickOutOfRange,
        ),
{
    if tick >= MIN_TICK && tick <= MAX_TICK {
        Ok(())
    } else {
        Err(TickManagerError::TickOutOfRange)
    }
}

/// Accepts a tick that is a multiple of the tick spacing.
pub fn validate_tick_spacing(tick: i32) -> (r: Result<(), TickManagerError>)
    ensures
        tick_on_grid(tick as int) ==> r == Ok::<(), TickManagerError>(()),
        !tick_on_grid(tick as int) ==> r == Err::<(), TickManagerError>(
            TickManagerError::InvalidTickSpacing,
        ),
{
    if tick % TICK_SPACING == 0 {
        Ok(())
    } else {
        Err(TickManagerError::InvalidTickSpacing)
    }
}

/// The square root price of a tick in Q64.64: `sqrt(1.0001^tick) * 2^64`.
pub fn tick_to_sqrt_price_q64(tick: i32) -> (r: Result<u128, TickManagerError>)
    ensures
        tick_in_range(tick as int) ==> r is Ok && r->Ok_0 == sqrt_price_at(tick as int),
        !tick_in_range(tick as int) ==> r == Err::<u128, TickManagerError>(
            TickManagerError::TickOutOfRange,
        ),
{
    match validate_tick(tick) {
        Ok(_) => Ok(sqrt_price_of_tick(tick)),
        Err(e) => Err(e),
    }
}

/// First tick of the array that holds `tick`.
pub fn tick_to_array_start_tick(tick: i32) -> (r: i32)
    requires
        array_start(tick as int) >= i32::MIN,
    ensures
        r == array_start(tick as int),
{
    let div: i32 = tick / ARRAY_SPAN;
    let rem: i32 = tick % ARRAY_SPAN;
    (if rem < 0 {
        div - 1
    } else {
        div
    }) * ARRAY_SPAN
}

/// Place of the array that starts at `start_tick` in the bitmap.
pub fn array_start_to_bitmap_index(start_tick: i32) -> (r: i32)
    requires
        start_tick - MIN_ARRAY_START <= i32::MAX,
    ensures
        r == bitmap_index(start_tick as int),
{
    let min_array_start: i32 = tick_to_array_start_tick(MIN_TICK);
    (start_tick - min_array_start) / ARRAY_SPAN
}

/// Bitmap word and bit of an array, by its place in the bitmap.
pub fn bitmap_word_and_bit(array_index: i32) -> (r: (i32, u32))
    ensures
        r.0 == bitmap_word(array_index as int),
        r.1 == bitmap_bit(array_index as int),
{
    let word_index: i32 = array_index / 8;
    let rem: i32 = array_index % 8;
    let bit_index: u32 = if rem < 0 {
        u32::MAX - ((-rem) as u32) + 1
    } else {
        rem as u32
    };
    (word_index, bit_index)
}

/// A tick lies in its array: at or after the array's start and within its span.
pub proof fn law_tick_lies_in_its_array(tick: int)
    ensures
        array_start(tick) <= tick < array_start(tick) + ARRAY_SPAN,
        array_start(tick) % 5632 == 0,
        array_start(array_start(tick)) == array_start(tick),
{
}

/// Every array of a valid tick has a place in the bitmap, two arrays never share one, and
/// word and bit tell the places apart.
pub proof fn law_bitmap_place_is_unique(tick: int, other: int)
    requires
        tick_in_range(tick),
        tick_in_range(other),
        bitmap_word(bitmap_index(array_start(tick))) == bitmap_word(
            bitmap_index(array_start(other)),
        ),
        bitmap_bit(bitmap_index(array_start(tick))) == bitmap_bit(bitmap_index(array_start(other))),
    ensures
        0 <= bitmap_bit(bitmap_index(array_start(tick))) < ARRAYS_PER_BITMAP_WORD,
        array_start(tick) == array_start(other),
{
}

} // verus!
