//! Tick arrays and the tick bitmap.

use vstd::prelude::*;

use crate::pubkey::Pubkey;
use crate::tick_manager::math::{ARRAY_SPAN, TICK_SPACING};

verus! {

/// What is stored for one tick.
#[derive(Clone, Copy, Debug, PartialEq, Eq)]
pub struct TickData {
    /// How much the active liquidity changes when the price rises through this tick.
    pub liquidity_net: i128,
    /// Liquidity of all positions that begin or end at this tick.
    pub liquidity_gross: u128,
    pub fee_growth_outside_0: u128,
    pub fee_growth_outside_1: u128,
    /// Whether any position begins or ends here: zero means no.
    pub initialized: u8,
    pub _padding: [u8; 15],
}

/// 88 consecutive tick slots.
#[derive(Clone, Copy, Debug, PartialEq, Eq)]
pub struct TickArray {
    pub start_tick_index: i32,
    pub _padding0: [u8; 4],
    pub pool: Pubkey,
    pub _padding1: [u8; 8],
    pub ticks: [[TickData; 11]; 8],
}

impl TickArray {
    /// Account space: discriminator, start tick, padding, pool, padding and 88 slots.
    pub const LEN: usize = 8 + 4 + 4 + 32 + 8 + (88 * 80);

    /// The slot at `offset`, counted through all chunks.
    pub open spec fn slot(self, offset: int) -> TickData {
        self.ticks@[offset / 11]@[offset % 11]
    }

    /// The tick lies within the span of this array.
    pub open spec fn holds(self, tick_index: int) -> bool {
        self.start_tick_index <= tick_index < self.start_tick_index + ARRAY_SPAN
    }

    /// The slot that a tick within the span falls into.
    pub open spec fn slot_of(self, tick_index: int) -> int {
        (tick_index - self.start_tick_index) / 64
    }

    /// The slots before `offset` and after it are those of `other`, and so is everything
    /// besides the slots.
    pub open spec fn same_except_slot(self, other: TickArray, offset: int) -> bool {
        &&& self.start_tick_index == other.start_tick_index
        &&& self._padding0 == other._padding0
        &&& self.pool == other.pool
        &&& self._padding1 == other._padding1
        &&& forall|k: int|
            0 <= k < 88 && k != offset ==> #[trigger] self.slot(k) == other.slot(k)
    }

    /// What is stored for the tick, where it lies within the span of this array.
    pub fn get_tick(&self, tick_index: i32) -> (r: Option<&TickData>)
        requires
            tick_index >= self.start_tick_index ==> self.start_tick_index + ARRAY_SPAN <= i32::MAX,
        ensures
            !self.holds(tick_index as int) ==> r is None,
            self.holds(tick_index as int) ==> r is Some && *r->Some_0 == self.slot(
                self.slot_of(tick_index as int),
            ),
    {
        if tick_index < self.start_tick_index || tick_index >= self.start_tick_index + ARRAY_SPAN {
            return None;
        }
        let offset: usize = ((tick_index - self.start_tick_index) / TICK_SPACING) as usize;
        let chunk: usize = offset / 11;
        let slot: usize = offset % 11;
        Some(&self.ticks[chunk][slot])
    }

    /// Mutable access to what is stored for the tick, where it lies within the span of
    /// this array.
    pub fn get_tick_mut(&mut self, tick_index: i32) -> (r: Option<&mut TickData>)
        requires
            tick_index >= old(self).start_tick_index ==> old(self).start_tick_index + ARRAY_SPAN
                <= i32::MAX,
        ensures
            !old(self).holds(tick_index as int) ==> r is None && *final(self) == *old(self),
            old(self).holds(tick_index as int) ==> {
                &&& r matches Some(tick)
                &&& *tick == old(self).slot(old(self).slot_of(tick_index as int))
                &&& final(self).slot(old(self).slot_of(tick_index as int)) == *final(tick)
                &&& final(self).same_except_slot(
                    *old(self),
                    old(self).slot_of(tick_index as int),
                )
            },
    {
        if tick_index < self.start_tick_index || tick_index >= self.start_tick_index + ARRAY_SPAN {
            return None;
        }
        let offset: usize = ((tick_index - self.start_tick_index) / TICK_SPACING) as usize;
        let chunk: usize = offset / 11;
        let slot: usize = offset % 11;
        Some(&mut self.ticks[chunk][slot])
    }

    /// Some tick of the array is in use.
    pub open spec fn in_use(self) -> bool {
        exists|k: int| 0 <= k < 88 && (#[trigger] self.slot(k)).initialized != 0
    }

    /// Some tick of the array other than the one in slot `offset` is in use.
    pub open spec fn in_use_besides(self, offset: int) -> bool {
        exists|k: int| 0 <= k < 88 && k != offset && (#[trigger] self.slot(k)).initialized != 0
    }

    /// Whether some tick other than that in slot `offset` is in use.
    pub fn is_in_use_besides(&self, offset: usize) -> (r: bool)
        ensures
            r == self.in_use_besides(offset as int),
    {
        let mut k: usize = 0;
        while k < 88
            invariant
                k <= 88,
                forall|j: int|
                    0 <= j < k && j != offset ==> (#[trigger] self.slot(j)).initialized == 0,
            decreases 88 - k,
        {
            let tick: TickData = self.ticks[k / 11][k % 11];
            assert(tick == self.slot(k as int));
            if k != offset && tick.initialized != 0 {
                return true;
            }
            k = k + 1;
        }
        false
    }
}

/// One word of the bitmap over a pool's tick arrays: each bit stands for one array.
#[derive(Clone, Copy, Debug, PartialEq, Eq)]
pub struct TickBitmap {
    pub pool: Pubkey,
    pub word_index: i32,
    pub initialized_arrays: u8,
    pub _padding: [u8; 3],
}

/// Bit `i` of `word` is one.
pub open spec fn has_bit(word: u8, i: u32) -> bool {
    (word >> i) & 1u8 == 1u8
}

impl TickBitmap {
    /// Account space: discriminator, pool, word index, bits and padding.
    pub const LEN: usize = 8 + 32 + 4 + 1 + 3;

    /// The arrays whose bits are set.
    pub open spec fn bits(self) -> Set<u32> {
        Set::new(|i: u32| i < 8 && has_bit(self.initialized_arrays, i))
    }

    /// Everything besides the bits is that of `other`.
    pub open spec fn same_header(self, other: TickBitmap) -> bool {
        &&& self.pool == other.pool
        &&& self.word_index == other.word_index
        &&& self._padding == other._padding
    }

    /// Sets one bit.
    pub fn set_bit(&mut self, bit_index: u32)
        requires
            bit_index < 8,
        ensures
            final(self).bits() == old(self).bits().insert(bit_index),
            final(self).same_header(*old(self)),
    {
        let ghost word = self.initialized_arrays;
        self.initialized_arrays = self.initialized_arrays | (1u8 << bit_index);
        proof {
            assert forall|i: u32| self.bits().contains(i) == old(self).bits().insert(bit_index).contains(i) by {
                assert(i < 8 ==> (((word | (1u8 << bit_index)) >> i) & 1u8 == 1u8) == (i == bit_index
                    || (word >> i) & 1u8 == 1u8)) by (bit_vector)
                    requires
                        bit_index < 8,
                ;
            }
            assert(self.bits() =~= old(self).bits().insert(bit_index));
        }
    }

    /// Clears one bit.
    pub fn clear_bit(&mut self, bit_index: u32)
        requires
            bit_index < 8,
        ensures
            final(self).bits() == old(self).bits().remove(bit_index),
            final(self).same_header(*old(self)),
    {
        let ghost word = self.initialized_arrays;
        self.initialized_arrays = self.initialized_arrays & !(1u8 << bit_index);
        proof {
            assert forall|i: u32| self.bits().contains(i) == old(self).bits().remove(bit_index).contains(i) by {
                assert(i < 8 ==> (((word & !(1u8 << bit_index)) >> i) & 1u8 == 1u8) == (i
                    != bit_index && (word >> i) & 1u8 == 1u8)) by (bit_vector)
                    requires
                        bit_index < 8,
                ;
            }
            assert(self.bits() =~= old(self).bits().remove(bit_index));
        }
    }

    /// Whether a bit is set.
    pub fn is_set(&self, bit_index: u32) -> (r: bool)
        requires
            bit_index < 8,
        ensures
            r == self.bits().contains(bit_index),
    {
        (self.initialized_arrays >> bit_index) & 1 == 1
    }

    /// The first set bit at or after `from_bit`.
    pub fn next_initialized_array_from(&self, from_bit: u32) -> (r: Option<u32>)
        ensures
            match r {
                Some(i) => from_bit <= i && self.bits().contains(i) && forall|j: u32|
                    from_bit <= j < i ==> !self.bits().contains(j),
                None => forall|j: u32| from_bit <= j ==> !self.bits().contains(j),
            },
    {
        let mut i: u32 = from_bit;
        while i < 8
            invariant
                from_bit <= i,
                forall|j: u32| from_bit <= j < i ==> !self.bits().contains(j),
            decreases 8 - i,
        {
            if self.is_set(i) {
                return Some(i);
            }
            i = i + 1;
        }
        None
    }

    /// The last set bit at or before `from_bit`.
    pub fn prev_initialized_array_from(&self, from_bit: u32) -> (r: Option<u32>)
        requires
            from_bit < 8,
        ensures
            match r {
                Some(i) => i <= from_bit && self.bits().contains(i) && forall|j: u32|
                    i < j <= from_bit ==> !self.bits().contains(j),
                None => forall|j: u32| j <= from_bit ==> !self.bits().contains(j),
            },
    {
        let mut i: u32 = from_bit + 1;
        while i > 0
            invariant
                i <= from_bit + 1,
                from_bit < 8,
                forall|j: u32| i <= j <= from_bit ==> !self.bits().contains(j),
            decreases i,
        {
            i = i - 1;
            if self.is_set(i) {
                return Some(i);
            }
        }
        None
    }
}

} // verus!
