//! What the arithmetic of ticks computes, in plain numbers.

use vstd::arithmetic::power::pow;
use vstd::prelude::*;

use crate::tick_manager::math::{
    array_start, bitmap_bit, bitmap_index, bitmap_word, tick_in_range, tick_on_grid,
};
use crate::tick_manager::price::{law_price_is_power_of_tick, sqrt_price_at};
use crate::tick_manager::state::{has_bit, TickArray};

verus! {

/// The valid ticks are those from -443636 to 443636, and those that may hold liquidity are the
/// multiples of 64.
pub proof fn law_valid_ticks(tick: int)
    ensures
        tick_in_range(tick) <==> -443_636 <= tick <= 443_636,
        tick_on_grid(tick) <==> tick % 64 == 0,
{
}

/// The array of a tick starts at the greatest multiple of 5632 that is not above it, and its
/// place in the bitmap counts the arrays from the one that holds the lowest tick.
pub proof fn law_array_of_tick(tick: int)
    requires
        -443_636 <= tick <= 443_636,
    ensures
        ({
            let start = array_start(tick);
            let index = bitmap_index(start);
            &&& start <= tick < start + 5_632
            &&& start % 5_632 == 0
            &&& 0 <= index <= 157
            &&& start == -444_928 + 5_632 * index
            &&& 8 * bitmap_word(index) + bitmap_bit(index) == index
            &&& 0 <= bitmap_bit(index) < 8
        }),
{
}

/// Every tick lies in an array, which starts at a multiple of 5632.
pub proof fn law_every_tick_lies_in_an_array(tick: int)
    ensures
        array_start(tick) <= tick < array_start(tick) + 5_632,
        array_start(tick) % 5_632 == 0,
{
}

/// The place of an array in the bitmap is counted from the array of the lowest tick and rounded
/// towards zero, and so is its word. The bit is what the word leaves, modulo `2^32`.
pub proof fn law_bitmap_place_rounds_towards_zero(start: int, index: int)
    ensures
        ({
            let from = start + 444_928;
            let place = bitmap_index(start);
            &&& from >= 0 ==> 5_632 * place <= from < 5_632 * place + 5_632
            &&& from < 0 ==> 5_632 * place - 5_632 < from <= 5_632 * place
        }),
        ({
            let word = bitmap_word(index);
            let left = index - 8 * word;
            &&& index >= 0 ==> 0 <= left < 8
            &&& index < 0 ==> -8 < left <= 0
            &&& left >= 0 ==> bitmap_bit(index) == left
            &&& left < 0 ==> bitmap_bit(index) == left + 0x1_0000_0000
        }),
{
}

/// The square root price of a tick that is not negative is within one unit in the last place
/// and one part in `2^70` of `sqrt(1.0001^tick) * 2^64`.
pub proof fn law_price_of_tick_above_zero(tick: int)
    requires
        0 <= tick <= 443_636,
    ensures
        ({
            let price = sqrt_price_at(tick);
            let near = 0x3f_ffff_ffff_ffff_ffffint;
            let whole = 0x40_0000_0000_0000_0000int;
            let one = 0x1_0000_0000_0000_0000_0000_0000_0000_0000int;
            &&& ((price * price) * pow(10000, tick as nat)) * (near * near) <= (one * pow(
                10001,
                tick as nat,
            )) * (whole * whole)
            &&& (((price + 1) * (price + 1)) * pow(10000, tick as nat)) * (whole * whole) > (one
                * pow(10001, tick as nat)) * (near * near)
        }),
{
    law_price_is_power_of_tick(tick);
}

/// The square root price of a negative tick is within one unit in the last place and one part
/// in `2^70` of `sqrt(1.0001^tick) * 2^64`.
pub proof fn law_price_of_tick_below_zero(tick: int)
    requires
        -443_636 <= tick < 0,
    ensures
        ({
            let price = sqrt_price_at(tick);
            let near = 0x3f_ffff_ffff_ffff_ffffint;
            let whole = 0x40_0000_0000_0000_0000int;
            let one = 0x1_0000_0000_0000_0000_0000_0000_0000_0000int;
            &&& ((price * price) * pow(10001, (-tick) as nat)) * (near * near) <= (one * pow(
                10000,
                (-tick) as nat,
            )) * (whole * whole)
            &&& (((price + 1) * (price + 1)) * pow(10001, (-tick) as nat)) * (whole * whole) > (one
                * pow(10000, (-tick) as nat)) * (near * near)
        }),
{
    law_price_is_power_of_tick(tick);
}

/// A tick within the span of an array falls into the slot that lies as many spacings from its
/// start, eleven slots to a chunk.
pub proof fn law_slot_of_tick(array: TickArray, tick: int)
    ensures
        array.holds(tick) <==> array.start_tick_index <= tick < array.start_tick_index + 5_632,
        array.holds(tick) ==> {
            let offset = (tick - array.start_tick_index) / 64;
            &&& 0 <= offset < 88
            &&& array.slot_of(tick) == offset
            &&& array.slot(offset) == array.ticks@[offset / 11]@[offset % 11]
        },
{
}

/// The bits of a bitmap word count from the least significant one.
pub proof fn law_bits_of_word(word: u8)
    ensures
        has_bit(word, 0) <==> word % 2 == 1,
        has_bit(word, 1) <==> word / 2 % 2 == 1,
        has_bit(word, 2) <==> word / 4 % 2 == 1,
        has_bit(word, 3) <==> word / 8 % 2 == 1,
        has_bit(word, 4) <==> word / 16 % 2 == 1,
        has_bit(word, 5) <==> word / 32 % 2 == 1,
        has_bit(word, 6) <==> word / 64 % 2 == 1,
        has_bit(word, 7) <==> word / 128 == 1,
{
    assert((word >> 0u32) & 1u8 == word % 2 && (word >> 1u32) & 1u8 == word / 2 % 2 && (word
        >> 2u32) & 1u8 == word / 4 % 2 && (word >> 3u32) & 1u8 == word / 8 % 2 && (word >> 4u32)
        & 1u8 == word / 16 % 2 && (word >> 5u32) & 1u8 == word / 32 % 2 && (word >> 6u32) & 1u8
        == word / 64 % 2 && (word >> 7u32) & 1u8 == word / 128) by (bit_vector);
}

} // verus!
