//! Little-endian integers in account data.

use vstd::prelude::*;

verus! {

/// The unsigned number in the `len` bytes of `data` from `at` on, least significant byte
/// first.
pub open spec fn le_unsigned(data: Seq<u8>, at: int, len: nat) -> int
    decreases len,
{
    if len == 0 {
        0
    } else {
        data[at] + 256 * le_unsigned(data, at + 1, (len - 1) as nat)
    }
}

/// The `i32` in the four bytes of `data` from `at` on.
pub open spec fn le_i32(data: Seq<u8>, at: int) -> int {
    let value = le_unsigned(data, at, 4);
    if value < 0x8000_0000 {
        value
    } else {
        value - 0x1_0000_0000
    }
}

/// The `i128` in the sixteen bytes of `data` from `at` on.
pub open spec fn le_i128(data: Seq<u8>, at: int) -> int {
    let value = le_unsigned(data, at, 16);
    if value < 0x8000_0000_0000_0000_0000_0000_0000_0000 {
        value
    } else {
        value - 0x1_0000_0000_0000_0000_0000_0000_0000_0000int
    }
}

/// The bytes of `value`, least significant one first.
pub open spec fn le_bytes_of(value: u32) -> Seq<u8> {
    seq![
        (value % 256) as u8,
        (value / 0x100 % 256) as u8,
        (value / 0x1_0000 % 256) as u8,
        (value / 0x100_0000) as u8,
    ]
}

/// `256^len`.
spec fn place_value(len: nat) -> int
    decreases len,
{
    if len == 0 {
        1
    } else {
        256 * place_value((len - 1) as nat)
    }
}

proof fn lemma_unsigned_bound(data: Seq<u8>, at: int, len: nat)
    ensures
        0 <= le_unsigned(data, at, len) < place_value(len),
    decreases len,
{
    if len > 0 {
        lemma_unsigned_bound(data, at + 1, (len - 1) as nat);
    }
}

proof fn lemma_place_value_rises(a: nat, b: nat)
    requires
        a <= b,
    ensures
        0 < place_value(a) <= place_value(b),
    decreases b,
{
    if b > 0 {
        if a < b {
            lemma_place_value_rises(a, (b - 1) as nat);
        } else {
            lemma_place_value_rises((a - 1) as nat, (b - 1) as nat);
        }
    }
}

/// The number in an `i32`'s and in an `i128`'s bytes is that of some `i32` and `i128`.
pub proof fn lemma_signed_in_range(data: Seq<u8>, at: int)
    ensures
        0 <= le_unsigned(data, at, 4) < 0x1_0000_0000,
        0 <= le_unsigned(data, at, 16) < 0x1_0000_0000_0000_0000_0000_0000_0000_0000int,
        i32::MIN <= le_i32(data, at) <= i32::MAX,
        i128::MIN <= le_i128(data, at) <= i128::MAX,
{
    lemma_unsigned_bound(data, at, 4);
    lemma_unsigned_bound(data, at, 16);
    reveal_with_fuel(place_value, 17);
}

/// Reads the unsigned number in `len` bytes, sixteen at most.
fn read_unsigned(data: &[u8], at: usize, len: usize) -> (r: u128)
    requires
        at + len <= data@.len(),
        len <= 16,
    ensures
        r == le_unsigned(data@, at as int, len as nat),
{
    let size: usize = data.len();
    let mut value: u128 = 0;
    let mut left: usize = len;
    while left > 0
        invariant
            left <= len <= 16,
            at + len <= size == data@.len(),
            value == le_unsigned(data@, at + left, (len - left) as nat),
        decreases left,
    {
        left = left - 1;
        proof {
            lemma_unsigned_bound(data@, at + left, (len - left) as nat);
            lemma_place_value_rises((len - left) as nat, 16);
            reveal_with_fuel(place_value, 17);
        }
        value = data[at + left] as u128 + 256 * value;
    }
    value
}

/// Reads the `i32` in the four bytes from `at` on.
pub fn read_i32(data: &[u8], at: usize) -> (r: i32)
    requires
        at + 4 <= data@.len(),
    ensures
        r == le_i32(data@, at as int),
{
    let value: u128 = read_unsigned(data, at, 4);
    proof {
        lemma_signed_in_range(data@, at as int);
    }
    (value as i64 - if value < 0x8000_0000 {
        0
    } else {
        0x1_0000_0000
    }) as i32
}

/// Reads the `i128` in the sixteen bytes from `at` on.
pub fn read_i128(data: &[u8], at: usize) -> (r: i128)
    requires
        at + 16 <= data@.len(),
    ensures
        r == le_i128(data@, at as int),
{
    let value: u128 = read_unsigned(data, at, 16);
    if value < 0x8000_0000_0000_0000_0000_0000_0000_0000 {
        value as i128
    } else {
        (value - 0x8000_0000_0000_0000_0000_0000_0000_0000) as i128 + i128::MIN
    }
}

/// The bytes of `value`, least significant one first.
pub fn le_bytes(value: u32) -> (r: [u8; 4])
    ensures
        r@ == le_bytes_of(value),
{
    let bytes: [u8; 4] = [
        (value % 256) as u8,
        (value / 0x100 % 256) as u8,
        (value / 0x1_0000 % 256) as u8,
        (value / 0x100_0000) as u8,
    ];
    assert(bytes@ =~= le_bytes_of(value));
    bytes
}

/// Four bytes are a signed number in two's complement, the least significant byte first.
pub proof fn law_i32_is_little_endian(data: Seq<u8>, at: int)
    ensures
        ({
            let sum = data[at] + 0x100 * data[at + 1] + 0x1_0000 * data[at + 2] + 0x100_0000
                * data[at + 3];
            &&& sum < 0x8000_0000 ==> le_i32(data, at) == sum
            &&& sum >= 0x8000_0000 ==> le_i32(data, at) == sum - 0x1_0000_0000
        }),
{
    reveal_with_fuel(le_unsigned, 5);
    assert(at + 1 + 1 == at + 2 && at + 2 + 1 == at + 3);
}

/// Sixteen bytes are a signed number in two's complement, the least significant byte first.
pub proof fn law_i128_is_little_endian(data: Seq<u8>, at: int)
    ensures
        ({
            let sum = data[at]
                + 0x100int * data[at + 1]
                + 0x1_0000int * data[at + 2]
                + 0x100_0000int * data[at + 3]
                + 0x1_0000_0000int * data[at + 4]
                + 0x100_0000_0000int * data[at + 5]
                + 0x1_0000_0000_0000int * data[at + 6]
                + 0x100_0000_0000_0000int * data[at + 7]
                + 0x1_0000_0000_0000_0000int * data[at + 8]
                + 0x100_0000_0000_0000_0000int * data[at + 9]
                + 0x1_0000_0000_0000_0000_0000int * data[at + 10]
                + 0x100_0000_0000_0000_0000_0000int * data[at + 11]
                + 0x1_0000_0000_0000_0000_0000_0000int * data[at + 12]
                + 0x100_0000_0000_0000_0000_0000_0000int * data[at + 13]
                + 0x1_0000_0000_0000_0000_0000_0000_0000int * data[at + 14]
                + 0x100_0000_0000_0000_0000_0000_0000_0000int * data[at + 15];
            &&& sum < 0x8000_0000_0000_0000_0000_0000_0000_0000int ==> le_i128(data, at) == sum
            &&& sum >= 0x8000_0000_0000_0000_0000_0000_0000_0000int ==> le_i128(data, at) == sum
                - 0x1_0000_0000_0000_0000_0000_0000_0000_0000int
        }),
{
    reveal_with_fuel(le_unsigned, 17);
}

} // verus!
