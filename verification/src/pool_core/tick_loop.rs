//! How a swap finds tick boundaries in the data of tick array accounts, and what crossing
//! one does to the pool.
//!
//! A swap is handed the raw data of the tick arrays around the current price: the account's
//! discriminator, then the array as `TickArray` lays it out. The first tick is the `i32` at
//! byte 8. The slots begin at byte 56 and take 80 bytes each: a slot begins with its net
//! liquidity and holds its initialized flag at byte 64.

use vstd::prelude::*;

use crate::arith::clamp_u128;
use crate::bytes::{le_i128, le_i32, read_i128, read_i32};
use crate::pool_core::PoolError;
use crate::tick_manager::math::{
    tick_in_range, tick_to_sqrt_price_q64, ARRAY_SPAN, MAX_TICK, MIN_TICK, TICKS_PER_ARRAY,
    TICK_SPACING,
};
use crate::tick_manager::price::{law_price_rises_with_tick, sqrt_price_at, sqrt_price_of_tick};
use crate::tick_manager::state::TickArray;

verus! {

/// Bytes before the first slot: discriminator, start tick, padding, pool and padding.
pub const HEADER_SIZE: usize = 56;

/// Bytes of one slot.
pub const TICK_DATA_SIZE: usize = 80;

/// Where a slot holds its initialized flag.
pub const INITIALIZED_OFFSET: usize = 64;

/// First tick of the array in an account's data.
pub open spec fn start_in(data: Seq<u8>) -> int {
    le_i32(data, 8)
}

/// The tick of a slot.
pub open spec fn tick_in_slot(data: Seq<u8>, slot: int) -> int {
    start_in(data) + 64 * slot
}

/// The data holds an array's header, and the slot's flag is present and set.
pub open spec fn slot_in_use(data: Seq<u8>, slot: int) -> bool {
    &&& 0 <= slot < 88
    &&& 56 + 80 * slot + 64 < data.len()
    &&& data[56 + 80 * slot + 64] != 0
}

/// The slot's tick lies ahead of a swap at `current_tick`: at or below it downwards, above it
/// upwards.
pub open spec fn slot_ahead(
    data: Seq<u8>,
    slot: int,
    current_tick: int,
    zero_for_one: bool,
) -> bool {
    if zero_for_one {
        tick_in_slot(data, slot) <= current_tick
    } else {
        tick_in_slot(data, slot) > current_tick
    }
}

/// The slot is an initialized tick boundary ahead of the swap.
pub open spec fn boundary_at(
    data: Seq<u8>,
    slot: int,
    current_tick: int,
    zero_for_one: bool,
) -> bool {
    slot_in_use(data, slot) && slot_ahead(data, slot, current_tick, zero_for_one)
}

/// `tick` is not farther ahead of the swap than `other`.
pub open spec fn not_after(tick: int, other: int, zero_for_one: bool) -> bool {
    if zero_for_one {
        tick >= other
    } else {
        tick <= other
    }
}

/// No account has a boundary ahead of the swap.
pub open spec fn no_boundary(
    accounts: Seq<Vec<u8>>,
    current_tick: int,
    zero_for_one: bool,
) -> bool {
    forall|i: int, slot: int|
        0 <= i < accounts.len() ==> !#[trigger] boundary_at(
            accounts[i]@,
            slot,
            current_tick,
            zero_for_one,
        )
}

/// `tick` is the nearest boundary ahead of the swap among all accounts.
pub open spec fn is_next_boundary(
    accounts: Seq<Vec<u8>>,
    current_tick: int,
    zero_for_one: bool,
    tick: int,
) -> bool {
    &&& exists|i: int, slot: int|
        0 <= i < accounts.len() && #[trigger] boundary_at(
            accounts[i]@,
            slot,
            current_tick,
            zero_for_one,
        ) && tick == tick_in_slot(accounts[i]@, slot)
    &&& forall|i: int, slot: int|
        0 <= i < accounts.len() && #[trigger] boundary_at(
            accounts[i]@,
            slot,
            current_tick,
            zero_for_one,
        ) ==> not_after(tick, tick_in_slot(accounts[i]@, slot), zero_for_one)
}

/// The nearest boundary ahead of the swap.
pub open spec fn next_boundary(
    accounts: Seq<Vec<u8>>,
    current_tick: int,
    zero_for_one: bool,
) -> int {
    choose|tick: int| is_next_boundary(accounts, current_tick, zero_for_one, tick)
}

/// The nearest boundary ahead of the swap, if there is one.
pub open spec fn boundary_ahead(
    accounts: Seq<Vec<u8>>,
    current_tick: int,
    zero_for_one: bool,
) -> Option<int> {
    if no_boundary(accounts, current_tick, zero_for_one) {
        None
    } else {
        Some(next_boundary(accounts, current_tick, zero_for_one))
    }
}

/// The price of the nearest boundary, or the price limit where there is none. A boundary
/// outside the tick range has no price.
pub open spec fn price_target(
    accounts: Seq<Vec<u8>>,
    current_tick: int,
    zero_for_one: bool,
    price_limit: u128,
) -> Option<int> {
    match boundary_ahead(accounts, current_tick, zero_for_one) {
        None => Some(price_limit as int),
        Some(tick) => if tick_in_range(tick) {
            Some(sqrt_price_at(tick))
        } else {
            None
        },
    }
}

/// `best` is the nearest boundary among the first `n` accounts and the slots of account `n`
/// that `seen` holds of.
spec fn best_so_far(
    best: Option<i64>,
    accounts: Seq<Vec<u8>>,
    n: int,
    seen: spec_fn(int) -> bool,
    current_tick: int,
    zero_for_one: bool,
) -> bool {
    &&& best matches Some(tick) ==> exists|i: int, slot: int|
        0 <= i < accounts.len() && #[trigger] boundary_at(
            accounts[i]@,
            slot,
            current_tick,
            zero_for_one,
        ) && tick == tick_in_slot(accounts[i]@, slot)
    &&& forall|i: int, slot: int|
        0 <= i < accounts.len() && (i < n || i == n && seen(slot)) && #[trigger] boundary_at(
            accounts[i]@,
            slot,
            current_tick,
            zero_for_one,
        ) ==> best is Some && not_after(
            best->0 as int,
            tick_in_slot(accounts[i]@, slot),
            zero_for_one,
        )
}

pub proof fn lemma_next_boundary(
    accounts: Seq<Vec<u8>>,
    current_tick: int,
    zero_for_one: bool,
    tick: int,
)
    requires
        is_next_boundary(accounts, current_tick, zero_for_one, tick),
    ensures
        next_boundary(accounts, current_tick, zero_for_one) == tick,
        !no_boundary(accounts, current_tick, zero_for_one),
{
    let chosen = next_boundary(accounts, current_tick, zero_for_one);
    assert(is_next_boundary(accounts, current_tick, zero_for_one, chosen));
    let (i, slot) = choose|i: int, slot: int|
        0 <= i < accounts.len() && #[trigger] boundary_at(
            accounts[i]@,
            slot,
            current_tick,
            zero_for_one,
        ) && tick == tick_in_slot(accounts[i]@, slot);
    let (k, other) = choose|i: int, slot: int|
        0 <= i < accounts.len() && #[trigger] boundary_at(
            accounts[i]@,
            slot,
            current_tick,
            zero_for_one,
        ) && chosen == tick_in_slot(accounts[i]@, slot);
    assert(boundary_at(accounts[i]@, slot, current_tick, zero_for_one));
    assert(boundary_at(accounts[k]@, other, current_tick, zero_for_one));
}

/// Where there are boundaries ahead, one of them is the nearest.
pub proof fn lemma_next_boundary_exists(
    accounts: Seq<Vec<u8>>,
    current_tick: int,
    zero_for_one: bool,
)
    requires
        !no_boundary(accounts, current_tick, zero_for_one),
    ensures
        is_next_boundary(
            accounts,
            current_tick,
            zero_for_one,
            next_boundary(accounts, current_tick, zero_for_one),
        ),
{
    let (i, slot) = choose|i: int, slot: int|
        0 <= i < accounts.len() && #[trigger] boundary_at(
            accounts[i]@,
            slot,
            current_tick,
            zero_for_one,
        );
    let tick = tick_in_slot(accounts[i]@, slot);
    lemma_nearest_from(accounts, current_tick, zero_for_one, tick);
}

/// From a boundary ahead, the nearest one can be found.
proof fn lemma_nearest_from(
    accounts: Seq<Vec<u8>>,
    current_tick: int,
    zero_for_one: bool,
    tick: int,
)
    requires
        exists|i: int, slot: int|
            0 <= i < accounts.len() && #[trigger] boundary_at(
                accounts[i]@,
                slot,
                current_tick,
                zero_for_one,
            ) && tick == tick_in_slot(accounts[i]@, slot),
    ensures
        exists|t: int| is_next_boundary(accounts, current_tick, zero_for_one, t),
    decreases
            (if zero_for_one {
                current_tick - tick
            } else {
                tick - current_tick
            }),
{
    if !is_next_boundary(accounts, current_tick, zero_for_one, tick) {
        let (i, slot) = choose|i: int, slot: int|
            0 <= i < accounts.len() && #[trigger] boundary_at(
                accounts[i]@,
                slot,
                current_tick,
                zero_for_one,
            ) && !not_after(tick, tick_in_slot(accounts[i]@, slot), zero_for_one);
        lemma_nearest_from(
            accounts,
            current_tick,
            zero_for_one,
            tick_in_slot(accounts[i]@, slot),
        );
    }
}

/// The nearer of two ticks ahead of a swap.
fn nearer(best: Option<i64>, tick: i64, zero_for_one: bool) -> (r: i64)
    ensures
        not_after(r as int, tick as int, zero_for_one),
        best is Some ==> not_after(r as int, best->0 as int, zero_for_one),
        r == tick || best == Some(r),
{
    match best {
        Some(other) => if (zero_for_one && other > tick) || (!zero_for_one && other < tick) {
            other
        } else {
            tick
        },
        None => tick,
    }
}

/// The nearest initialized tick boundary ahead of the swap, if the accounts hold one. A
/// boundary outside the tick range is an error.
pub fn find_next_boundary(remaining_accounts: &[Vec<u8>], current_tick: i32, zero_for_one: bool) -> (r:
    Result<Option<i32>, PoolError>)
    ensures
        match boundary_ahead(remaining_accounts@, current_tick as int, zero_for_one) {
            None => r == Ok::<Option<i32>, PoolError>(None),
            Some(tick) => if tick_in_range(tick) {
                r == Ok::<Option<i32>, PoolError>(Some(tick as i32))
            } else {
                r == Err::<Option<i32>, PoolError>(PoolError::InvalidTickArray)
            },
        },
{
    let mut best_tick: Option<i64> = None;
    let mut n: usize = 0;
    while n < remaining_accounts.len()
        invariant
            n <= remaining_accounts@.len(),
            best_so_far(
                best_tick,
                remaining_accounts@,
                n as int,
                |slot: int| false,
                current_tick as int,
                zero_for_one,
            ),
        decreases remaining_accounts@.len() - n,
    {
        let data: &Vec<u8> = &remaining_accounts[n];
        if data.len() >= HEADER_SIZE {
            let start_tick: i64 = read_i32(data.as_slice(), 8) as i64;
            let mut slot: usize = 0;
            while slot < TICKS_PER_ARRAY
                invariant
                    slot <= TICKS_PER_ARRAY,
                    n < remaining_accounts@.len(),
                    *data == remaining_accounts@[n as int],
                    data@.len() >= 56,
                    start_tick == start_in(data@),
                    i32::MIN <= start_tick <= i32::MAX,
                    best_so_far(
                        best_tick,
                        remaining_accounts@,
                        n as int,
                        |other: int| other < slot,
                        current_tick as int,
                        zero_for_one,
                    ),
                decreases TICKS_PER_ARRAY - slot,
            {
                let tick: i64 = start_tick + slot as i64 * TICK_SPACING as i64;
                let ahead: bool = if zero_for_one {
                    tick <= current_tick as i64
                } else {
                    tick > current_tick as i64
                };
                let flag: usize = HEADER_SIZE + slot * TICK_DATA_SIZE + INITIALIZED_OFFSET;
                if ahead && flag < data.len() && data[flag] != 0 {
                    assert(boundary_at(
                        remaining_accounts@[n as int]@,
                        slot as int,
                        current_tick as int,
                        zero_for_one,
                    ));
                    best_tick = Some(nearer(best_tick, tick, zero_for_one));
                }
                slot = slot + 1;
            }
        }
        n = n + 1;
    }
    match best_tick {
        Some(tick) => {
            proof {
                lemma_next_boundary(
                    remaining_accounts@,
                    current_tick as int,
                    zero_for_one,
                    tick as int,
                );
            }
            if tick < MIN_TICK as i64 || tick > MAX_TICK as i64 {
                Err(PoolError::InvalidTickArray)
            } else {
                Ok(Some(tick as i32))
            }
        },
        None => Ok(None),
    }
}

/// The square root price of the nearest initialized tick boundary ahead of the swap, or
/// `price_limit` where the accounts hold none.
pub fn find_next_sqrt_price_target(
    remaining_accounts: &[Vec<u8>],
    current_tick: i32,
    zero_for_one: bool,
    price_limit: u128,
) -> (r: Result<u128, PoolError>)
    ensures
        match price_target(
            remaining_accounts@,
            current_tick as int,
            zero_for_one,
            price_limit,
        ) {
            Some(target) => r is Ok && r->Ok_0 == target,
            None => r == Err::<u128, PoolError>(PoolError::InvalidTickArray),
        },
{
    match find_next_boundary(remaining_accounts, current_tick, zero_for_one) {
        Ok(Some(tick)) => match tick_to_sqrt_price_q64(tick) {
            Ok(target) => Ok(target),
            Err(_) => Err(PoolError::InvalidTickArray),
        },
        Ok(None) => Ok(price_limit),
        Err(e) => Err(e),
    }
}

/// `tick` is the greatest tick whose price is at most `sqrt_price`, or the lowest tick where
/// there is none.
pub open spec fn is_tick_of_price(sqrt_price: int, tick: int) -> bool {
    &&& tick_in_range(tick)
    &&& tick == MIN_TICK || sqrt_price_at(tick) <= sqrt_price
    &&& tick == MAX_TICK || sqrt_price < sqrt_price_at(tick + 1)
}

/// The tick of a square root price.
pub open spec fn tick_of_price(sqrt_price: int) -> int {
    choose|tick: int| is_tick_of_price(sqrt_price, tick)
}

/// No price has two ticks.
proof fn lemma_one_tick_per_price(sqrt_price: int, tick: int)
    requires
        is_tick_of_price(sqrt_price, tick),
    ensures
        tick_of_price(sqrt_price) == tick,
{
    let other = tick_of_price(sqrt_price);
    assert(is_tick_of_price(sqrt_price, other));
    if other < tick {
        if other + 1 < tick {
            law_price_rises_with_tick(other + 1, tick);
        }
    } else if tick < other {
        if tick + 1 < other {
            law_price_rises_with_tick(tick + 1, other);
        }
    }
}

proof fn lemma_some_tick_from(sqrt_price: int, tick: int)
    requires
        tick_in_range(tick),
        tick == MIN_TICK || sqrt_price_at(tick) <= sqrt_price,
    ensures
        exists|t: int| is_tick_of_price(sqrt_price, t),
    decreases MAX_TICK - tick,
{
    if tick < MAX_TICK && sqrt_price_at(tick + 1) <= sqrt_price {
        lemma_some_tick_from(sqrt_price, tick + 1);
    } else {
        assert(is_tick_of_price(sqrt_price, tick));
    }
}

/// Every price has one tick: the greatest whose price is at most that price.
pub proof fn law_price_has_one_tick(sqrt_price: int, tick: int)
    ensures
        is_tick_of_price(sqrt_price, tick) <==> tick == tick_of_price(sqrt_price),
{
    lemma_some_tick_from(sqrt_price, MIN_TICK as int);
    if is_tick_of_price(sqrt_price, tick) {
        lemma_one_tick_per_price(sqrt_price, tick);
    }
}

/// The tick of a tick's price is that tick.
pub proof fn law_tick_of_tick_price(tick: int)
    requires
        tick_in_range(tick),
    ensures
        tick_of_price(sqrt_price_at(tick)) == tick,
{
    if tick < MAX_TICK {
        law_price_rises_with_tick(tick, tick + 1);
    }
    law_price_has_one_tick(sqrt_price_at(tick), tick);
}

/// A higher price never has a lower tick.
pub proof fn law_tick_rises_with_price(lower: int, upper: int)
    requires
        lower <= upper,
    ensures
        tick_of_price(lower) <= tick_of_price(upper),
{
    let a = tick_of_price(lower);
    let b = tick_of_price(upper);
    law_price_has_one_tick(lower, a);
    law_price_has_one_tick(upper, b);
    if b + 1 < a {
        law_price_rises_with_tick(b + 1, a);
    }
}

/// The tick of a square root price: the greatest whose price is at most that.
pub fn tick_at_sqrt_price(sqrt_price_q64: u128) -> (r: i32)
    ensures
        r == tick_of_price(sqrt_price_q64 as int),
        tick_in_range(r as int),
{
    let mut low: i32 = MIN_TICK;
    let mut high: i32 = MAX_TICK;
    while low < high
        invariant
            MIN_TICK <= low <= high <= MAX_TICK,
            low == MIN_TICK || sqrt_price_at(low as int) <= sqrt_price_q64,
            high == MAX_TICK || sqrt_price_q64 < sqrt_price_at(high + 1),
        decreases high - low,
    {
        let middle: i32 = low + (high - low + 1) / 2;
        if sqrt_price_of_tick(middle) <= sqrt_price_q64 {
            low = middle;
        } else {
            high = middle - 1;
        }
    }
    proof {
        law_price_has_one_tick(sqrt_price_q64 as int, low as int);
    }
    low
}

/// The active liquidity after a change by `liquidity_net`, kept within 128 bits.
pub fn apply_liquidity_delta(liquidity: u128, liquidity_net: i128) -> (r: u128)
    ensures
        r == clamp_u128(liquidity + liquidity_net),
{
    if liquidity_net >= 0 {
        liquidity.saturating_add(liquidity_net as u128)
    } else if liquidity_net == i128::MIN {
        liquidity.saturating_sub(0x8000_0000_0000_0000_0000_0000_0000_0000)
    } else {
        liquidity.saturating_sub((-liquidity_net) as u128)
    }
}

/// The slot of an array that a tick falls into, if the array spans it.
pub open spec fn slot_of(data: Seq<u8>, tick: int) -> int {
    (tick - start_in(data)) / 64
}

/// The data is an array whose span holds the tick.
pub open spec fn spans(data: Seq<u8>, tick: int) -> bool {
    56 <= data.len() && start_in(data) <= tick < start_in(data) + ARRAY_SPAN
}

/// The tick is initialized in this array.
pub open spec fn initialized_in(data: Seq<u8>, tick: int) -> bool {
    slot_in_use(data, slot_of(data, tick)) && tick_in_slot(data, slot_of(data, tick)) == tick
}

/// Net liquidity that the slot of a tick records.
pub open spec fn recorded_net(data: Seq<u8>, tick: int) -> int {
    le_i128(data, 56 + 80 * slot_of(data, tick))
}

/// The data says something about the net liquidity of the tick: the tick is initialized in
/// it, or it should be there but the data ends before it.
pub open spec fn decides(data: Seq<u8>, tick: int) -> bool {
    ||| initialized_in(data, tick)
    ||| spans(data, tick) && 56 + 80 * slot_of(data, tick) + 16 > data.len()
}

/// No account says anything about the tick.
pub open spec fn none_decides(accounts: Seq<Vec<u8>>, tick: int) -> bool {
    forall|i: int| 0 <= i < accounts.len() ==> !#[trigger] decides(accounts[i]@, tick)
}

/// Account `i` is the first to say something about the tick.
pub open spec fn is_first_to_decide(accounts: Seq<Vec<u8>>, tick: int, i: int) -> bool {
    &&& 0 <= i < accounts.len()
    &&& decides(accounts[i]@, tick)
    &&& forall|j: int| 0 <= j < i ==> !#[trigger] decides(accounts[j]@, tick)
}

/// How the active liquidity changes when the price crosses the tick in this array: by the
/// tick's net liquidity upwards, by its negative downwards. It is unknown where the data
/// ends before the slot, or where the negative is not a 128-bit number.
pub open spec fn net_in(data: Seq<u8>, tick: int, zero_for_one: bool) -> Option<int> {
    let net = recorded_net(data, tick);
    if !initialized_in(data, tick) || zero_for_one && net == i128::MIN {
        None
    } else if zero_for_one {
        Some(-net)
    } else {
        Some(net)
    }
}

/// How the active liquidity changes when the price crosses a tick. The first array that
/// says something about the tick counts, and without one nothing changes.
pub open spec fn net_at_tick(accounts: Seq<Vec<u8>>, tick: int, zero_for_one: bool) -> Option<int> {
    if none_decides(accounts, tick) {
        Some(0)
    } else {
        net_in(
            accounts[choose|i: int| is_first_to_decide(accounts, tick, i)]@,
            tick,
            zero_for_one,
        )
    }
}

/// The data of an account that holds the tick array: what a swap reads of it stands at its
/// place.
pub open spec fn holds_array(data: Seq<u8>, array: TickArray) -> bool {
    &&& data.len() == TickArray::LEN
    &&& le_i32(data, 8) == array.start_tick_index
    &&& forall|slot: int|
        0 <= slot < 88 ==> {
            &&& le_i128(data, 56 + 80 * slot) == (#[trigger] array.slot(slot)).liquidity_net
            &&& data[56 + 80 * slot + 64] == array.slot(slot).initialized
        }
}

/// A swap reads of a tick array what the array holds: which ticks are initialized, and their
/// net liquidity.
pub proof fn law_arrays_are_read_as_held(data: Seq<u8>, array: TickArray, slot: int)
    requires
        holds_array(data, array),
        0 <= slot < 88,
    ensures
        tick_in_slot(data, slot) == array.start_tick_index + 64 * slot,
        slot_in_use(data, slot) == (array.slot(slot).initialized != 0),
        initialized_in(data, tick_in_slot(data, slot)) == (array.slot(slot).initialized != 0),
        recorded_net(data, tick_in_slot(data, slot)) == array.slot(slot).liquidity_net,
{
    assert(slot_of(data, tick_in_slot(data, slot)) == slot);
    assert(array.slot(slot) == array.slot(slot));
}

/// Crossing a tick applies the net liquidity that the first array with the tick records for
/// it, upwards as it stands and downwards its negative.
pub proof fn law_recorded_net_is_applied(
    accounts: Seq<Vec<u8>>,
    tick: int,
    i: int,
    zero_for_one: bool,
)
    requires
        0 <= i < accounts.len(),
        initialized_in(accounts[i]@, tick),
        forall|j: int| 0 <= j < i ==> !#[trigger] decides(accounts[j]@, tick),
        recorded_net(accounts[i]@, tick) > i128::MIN,
    ensures
        net_at_tick(accounts, tick, zero_for_one) == Some(
            if zero_for_one {
                -recorded_net(accounts[i]@, tick)
            } else {
                recorded_net(accounts[i]@, tick)
            },
        ),
{
    assert(decides(accounts[i]@, tick));
    lemma_first_to_decide(accounts, tick, i);
}

pub proof fn lemma_first_to_decide(accounts: Seq<Vec<u8>>, tick: int, i: int)
    requires
        is_first_to_decide(accounts, tick, i),
    ensures
        !none_decides(accounts, tick),
        i == choose|k: int| is_first_to_decide(accounts, tick, k),
{
    let k = choose|k: int| is_first_to_decide(accounts, tick, k);
    assert(is_first_to_decide(accounts, tick, k));
    assert(decides(accounts[i]@, tick) && decides(accounts[k]@, tick));
}

/// How the active liquidity changes when the price crosses the tick of `sqrt_price_target`.
pub fn read_liquidity_net_at_tick(
    remaining_accounts: &[Vec<u8>],
    sqrt_price_target: u128,
    zero_for_one: bool,
) -> (r: Result<i128, PoolError>)
    ensures
        match net_at_tick(
            remaining_accounts@,
            tick_of_price(sqrt_price_target as int),
            zero_for_one,
        ) {
            Some(net) => r is Ok && r->Ok_0 == net,
            None => r == Err::<i128, PoolError>(PoolError::InvalidTickArray),
        },
{
    let target_tick: i64 = tick_at_sqrt_price(sqrt_price_target) as i64;
    let mut n: usize = 0;
    while n < remaining_accounts.len()
        invariant
            n <= remaining_accounts@.len(),
            target_tick == tick_of_price(sqrt_price_target as int),
            MIN_TICK <= target_tick <= MAX_TICK,
            forall|j: int|
                0 <= j < n ==> !#[trigger] decides(
                    remaining_accounts@[j]@,
                    target_tick as int,
                ),
        decreases remaining_accounts@.len() - n,
    {
        let data: &Vec<u8> = &remaining_accounts[n];
        if data.len() >= HEADER_SIZE {
            let start_tick: i64 = read_i32(data.as_slice(), 8) as i64;
            if target_tick >= start_tick && target_tick < start_tick + ARRAY_SPAN as i64 {
                let slot: usize = ((target_tick - start_tick) / TICK_SPACING as i64) as usize;
                let offset: usize = HEADER_SIZE + slot * TICK_DATA_SIZE;
                if offset + 16 > data.len() {
                    proof {
                        lemma_first_to_decide(remaining_accounts@, target_tick as int, n as int);
                    }
                    return Err(PoolError::InvalidTickArray);
                }
                let flag: usize = offset + INITIALIZED_OFFSET;
                let aligned: bool = (target_tick - start_tick) % TICK_SPACING as i64 == 0;
                if aligned && flag < data.len() && data[flag] != 0 {
                    proof {
                        lemma_first_to_decide(remaining_accounts@, target_tick as int, n as int);
                    }
                    let net: i128 = read_i128(data.as_slice(), offset);
                    if !zero_for_one {
                        return Ok(net);
                    }
                    if net == i128::MIN {
                        return Err(PoolError::InvalidTickArray);
                    }
                    return Ok(-net);
                }
            }
        }
        n = n + 1;
    }
    Ok(0)
}

} // verus!
