//! Saturating and double-width integer arithmetic shared by the three programs.

use vstd::arithmetic::div_mod::{lemma_fundamental_div_mod, lemma_mod_bound};
use vstd::arithmetic::power2::{lemma2_to64, lemma2_to64_rest, lemma_pow2_adds, lemma_pow2_unfold, pow2};
use vstd::prelude::*;

verus! {

/// One in Q64.64 fixed point.
pub const Q64: u128 = 0x1_0000_0000_0000_0000;

/// `2^128`, one more than the largest `u128`.
pub open spec fn two_pow_128() -> int {
    0x1_0000_0000_0000_0000_0000_0000_0000_0000int
}

/// The value of `x` after clamping it into the `u128` range from above.
pub open spec fn sat(x: int) -> int {
    if x > u128::MAX {
        u128::MAX as int
    } else {
        x
    }
}

/// The value of `x` after clamping it into the `u128` range from both sides.
pub open spec fn clamp_u128(x: int) -> int {
    if x < 0 {
        0
    } else {
        sat(x)
    }
}

/// `x` is the value of some `u128`.
pub open spec fn is_u128(x: int) -> bool {
    0 <= x <= u128::MAX
}

/// `x` is the value of some `i128`.
pub open spec fn is_i128(x: int) -> bool {
    i128::MIN <= x <= i128::MAX
}

/// `a - b` modulo `2^128`.
pub open spec fn wrapping_difference(a: u128, b: u128) -> u128 {
    if a >= b {
        (a - b) as u128
    } else {
        (a - b + two_pow_128()) as u128
    }
}

/// The smaller of two integers.
pub open spec fn min_int(a: int, b: int) -> int {
    if a <= b {
        a
    } else {
        b
    }
}

/// The quotient of `a` by a positive `b`, rounded up.
pub open spec fn ceil_div(a: int, b: int) -> int {
    (a + b - 1) / b
}

/// The quotient of `a` by a positive `b`, rounded towards zero.
pub open spec fn trunc_div(a: int, b: int) -> int {
    if a >= 0 {
        a / b
    } else {
        -((-a) / b)
    }
}

/// The remainder that goes with [`trunc_div`]: it has the sign of `a`.
pub open spec fn trunc_rem(a: int, b: int) -> int {
    a - b * trunc_div(a, b)
}

/// Multiplies, clamping the product at `u128::MAX`.
pub fn saturating_mul(a: u128, b: u128) -> (r: u128)
    ensures
        r == sat(a * b),
{
    match a.checked_mul(b) {
        Some(product) => product,
        None => u128::MAX,
    }
}

/// The full 256-bit product of two 128-bit integers, as a high and a low half.
pub fn mul_wide(a: u128, b: u128) -> (r: (u128, u128))
    ensures
        r.0 * two_pow_128() + r.1 == a * b,
{
    let a1: u128 = a / Q64;
    let a0: u128 = a % Q64;
    let b1: u128 = b / Q64;
    let b0: u128 = b % Q64;
    proof {
        lemma_limb_product(a0 as int, b0 as int);
        lemma_limb_product(a0 as int, b1 as int);
        lemma_limb_product(a1 as int, b0 as int);
        lemma_limb_product(a1 as int, b1 as int);
    }
    let p00: u128 = a0 * b0;
    let p01: u128 = a0 * b1;
    let p10: u128 = a1 * b0;
    let p11: u128 = a1 * b1;
    let mid: u128 = p01 + p00 / Q64;
    let mid2: u128 = p10 + mid % Q64;
    proof {
        let q = Q64 as int;
        assert(a * b == p11 * (q * q) + (p10 + p01) * q + p00) by (nonlinear_arith)
            requires
                a == a1 * q + a0,
                b == b1 * q + b0,
                p00 == a0 * b0,
                p01 == a0 * b1,
                p10 == a1 * b0,
                p11 == a1 * b1,
        ;
        let high = p11 + mid as int / q + mid2 as int / q;
        let low = (mid2 as int % q) * q + p00 as int % q;
        assert(high * (q * q) + low == a * b) by (nonlinear_arith)
            requires
                q > 0,
                high == p11 + mid as int / q + mid2 as int / q,
                low == (mid2 as int % q) * q + p00 as int % q,
                mid == p01 + p00 as int / q,
                mid2 == p10 + mid as int % q,
                a * b == p11 * (q * q) + (p10 + p01) * q + p00,
        ;
        assert(a * b <= 0xffff_ffff_ffff_ffff_ffff_ffff_ffff_ffff
            * 0xffff_ffff_ffff_ffff_ffff_ffff_ffff_ffff) by (nonlinear_arith)
            requires
                0 <= a <= 0xffff_ffff_ffff_ffff_ffff_ffff_ffff_ffff,
                0 <= b <= 0xffff_ffff_ffff_ffff_ffff_ffff_ffff_ffff,
        ;
    }
    let hi: u128 = p11 + mid / Q64 + mid2 / Q64;
    let lo: u128 = (mid2 % Q64) * Q64 + p00 % Q64;
    (hi, lo)
}

proof fn lemma_limb_product(x: int, y: int)
    requires
        0 <= x < Q64,
        0 <= y < Q64,
    ensures
        0 <= x * y <= 0xffff_ffff_ffff_ffff * 0xffff_ffff_ffff_ffff,
{
    assert(0 <= x * y <= 0xffff_ffff_ffff_ffff * 0xffff_ffff_ffff_ffff) by (nonlinear_arith)
        requires
            0 <= x <= 0xffff_ffff_ffff_ffff,
            0 <= y <= 0xffff_ffff_ffff_ffff,
    ;
}

/// One step of binary long division: doubles the remainder, brings down `bit` and
/// subtracts `d` where it fits. Returns the quotient bit and the new remainder.
fn div_step(rem: u128, bit: u128, d: u128) -> (r: (u128, u128))
    requires
        rem < d,
        bit <= 1,
    ensures
        r.0 <= 1,
        r.1 < d,
        r.0 * d + r.1 == 2 * rem + bit,
{
    let gap: u128 = d - rem;
    if rem >= gap {
        (1, rem - gap + bit)
    } else if bit == 1 && rem + 1 == gap {
        (1, 0)
    } else {
        (0, rem + rem + bit)
    }
}

/// Divides the 256-bit number `hi * 2^128 + lo` by `d`. Returns the quotient, which has to
/// fit 128 bits, and the remainder.
pub fn div_wide(hi: u128, lo: u128, d: u128) -> (r: (u128, u128))
    requires
        hi < d,
    ensures
        r.0 == (hi * two_pow_128() + lo) / d as int,
        r.1 == (hi * two_pow_128() + lo) % d as int,
{
    let ghost n: int = hi * two_pow_128() + lo;
    let mut q: u128 = 0;
    let mut rem: u128 = hi;
    let mut place: u128 = 0x8000_0000_0000_0000_0000_0000_0000_0000;
    let mut k: u32 = 128;
    proof {
        lemma2_to64();
        lemma2_to64_rest();
        lemma_pow2_adds(63, 64);
        assert(pow2(127) == 0x8000_0000_0000_0000_0000_0000_0000_0000);
        assert((q * d + rem) * (2 * place) + lo as int % (2 * place) == n) by (nonlinear_arith)
            requires
                q == 0,
                rem == hi,
                2 * place == two_pow_128(),
                lo as int % (2 * place) == lo,
                n == hi * two_pow_128() + lo,
        ;
    }
    while k > 0
        invariant
            k <= 128,
            hi < d,
            n == hi * two_pow_128() + lo,
            rem < d,
            k > 0 ==> place == pow2((k - 1) as nat) && (q * d + rem) * (2 * place) + lo as int % (2
                * place) == n,
            k == 0 ==> q * d + rem == n,
        decreases k,
    {
        proof {
            vstd::arithmetic::power2::lemma_pow2_pos((k - 1) as nat);
        }
        let bit: u128 = (lo / place) % 2;
        let step: (u128, u128) = div_step(rem, bit, d);
        proof {
            let p = place as int;
            lemma_split_low_bit(lo as int, p);
            let q1: int = 2 * q + step.0;
            assert((q1 * d + step.1) * p + lo as int % p == n) by (nonlinear_arith)
                requires
                    (q * d + rem) * (2 * p) + lo as int % (2 * p) == n,
                    lo as int % (2 * p) == bit * p + lo as int % p,
                    step.0 * d + step.1 == 2 * rem + bit,
                    q1 == 2 * q + step.0,
            ;
            assert(q1 <= u128::MAX) by (nonlinear_arith)
                requires
                    (q1 * d + step.1) * p + lo as int % p == n,
                    n < d * two_pow_128(),
                    p >= 1,
                    d > 0,
                    lo as int % p >= 0,
                    step.1 >= 0,
                    q1 >= 0,
                    u128::MAX == two_pow_128() - 1,
            ;
            if k > 1 {
                lemma_pow2_unfold((k - 1) as nat);
            } else {
                lemma2_to64();
                assert(p == 1);
                assert((q1 * d + step.1) * 1 == q1 * d + step.1);
            }
        }
        q = q + q + step.0;
        rem = step.1;
        place = place / 2;
        k = k - 1;
    }
    proof {
        vstd::arithmetic::div_mod::lemma_fundamental_div_mod_converse(
            n,
            d as int,
            q as int,
            rem as int,
        );
    }
    (q, rem)
}

proof fn lemma_split_low_bit(x: int, p: int)
    requires
        x >= 0,
        p > 0,
    ensures
        x % (2 * p) == ((x / p) % 2) * p + x % p,
{
    vstd::arithmetic::div_mod::lemma_mod_breakdown(x, p, 2);
    assert(p * 2 == 2 * p);
    assert(p * ((x / p) % 2) == ((x / p) % 2) * p) by (nonlinear_arith);
}

/// `a * b / d` with a 256-bit intermediate product, rounded down and clamped at
/// `u128::MAX`.
pub fn mul_div(a: u128, b: u128, d: u128) -> (r: u128)
    requires
        d > 0,
    ensures
        r == sat((a * b) / d as int),
{
    let (hi, lo) = mul_wide(a, b);
    proof {
        let n = a * b;
        let m: int = two_pow_128();
        if hi >= d {
            assert(n / (d as int) >= m) by {
                assert(n >= d * m) by (nonlinear_arith)
                    requires
                        n == hi * m + lo,
                        hi >= d,
                        m > 0,
                        lo >= 0,
                ;
                vstd::arithmetic::div_mod::lemma_div_is_ordered(d * m, n, d as int);
                vstd::arithmetic::div_mod::lemma_div_multiples_vanish(m, d as int);
            }
        }
    }
    if hi >= d {
        u128::MAX
    } else {
        div_wide(hi, lo, d).0
    }
}

/// `a * b / d` with a 256-bit intermediate product, rounded up and clamped at `u128::MAX`.
pub fn mul_div_up(a: u128, b: u128, d: u128) -> (r: u128)
    requires
        d > 0,
    ensures
        r == sat(ceil_div(a * b, d as int)),
{
    let (hi, lo) = mul_wide(a, b);
    proof {
        let n = a * b;
        lemma_ceil_div(n, d as int);
        if hi >= d {
            let m: int = two_pow_128();
            assert(n >= d * m) by (nonlinear_arith)
                requires
                    n == hi * m + lo,
                    hi >= d,
                    m > 0,
                    lo >= 0,
            ;
            lemma_quotient_at_least(n, d as int, m);
        }
    }
    if hi >= d {
        return u128::MAX;
    }
    let (q, rem) = div_wide(hi, lo, d);
    if rem == 0 {
        q
    } else {
        q.saturating_add(1)
    }
}

/// The 384-bit number that three 128-bit digits make up, the highest first.
pub open spec fn triple_value(x: (u128, u128, u128)) -> int {
    x.0 * two_pow_128() * two_pow_128() + x.1 * two_pow_128() + x.2
}

/// Multiplies the 256-bit number `hi * 2^128 + lo` by `c`.
pub fn mul_wide_by(hi: u128, lo: u128, c: u128) -> (r: (u128, u128, u128))
    ensures
        triple_value(r) == (hi * two_pow_128() + lo) * c,
{
    let (high, middle) = mul_wide(hi, c);
    let (carry, low) = mul_wide(lo, c);
    proof {
        let m: int = two_pow_128();
        assert((hi * m + lo) * c == (hi * c) * m + lo * c) by (nonlinear_arith);
        assert(high * m + middle == hi * c);
        assert(carry * m + low == lo * c);
        assert(high + 1 < m) by (nonlinear_arith)
            requires
                high * m + middle == hi * c,
                middle >= 0,
                0 <= hi <= m - 1,
                0 <= c <= m - 1,
                m > 2,
        ;
    }
    if middle > u128::MAX - carry {
        (high + 1, middle - (u128::MAX - carry) - 1, low)
    } else {
        (high, middle + carry, low)
    }
}

/// Compares two 384-bit numbers.
pub fn triple_at_most(x: (u128, u128, u128), y: (u128, u128, u128)) -> (r: bool)
    ensures
        r == (triple_value(x) <= triple_value(y)),
{
    x.0 < y.0 || x.0 == y.0 && (x.1 < y.1 || x.1 == y.1 && x.2 <= y.2)
}

/// The multiple of `d` that the quotient stands for is the last one not above `x`.
pub proof fn lemma_quotient(x: int, d: int)
    requires
        d > 0,
    ensures
        d * (x / d) <= x < d * (x / d) + d,
{
    lemma_fundamental_div_mod(x, d);
    lemma_mod_bound(x, d);
}

pub proof fn lemma_quotient_at_most(x: int, d: int, y: int)
    requires
        d > 0,
        x < d * (y + 1),
    ensures
        x / d <= y,
{
    lemma_quotient(x, d);
    assert(x / d <= y) by (nonlinear_arith)
        requires
            d * (x / d) <= x,
            x < d * (y + 1),
            d > 0,
    ;
}

pub proof fn lemma_quotient_at_least(x: int, d: int, y: int)
    requires
        d > 0,
        d * y <= x,
    ensures
        x / d >= y,
{
    lemma_quotient(x, d);
    assert(x / d >= y) by (nonlinear_arith)
        requires
            x < d * (x / d) + d,
            d * y <= x,
            d > 0,
    ;
}

/// Rounding up adds one where there is a remainder.
pub proof fn lemma_ceil_div(x: int, d: int)
    requires
        d > 0,
    ensures
        ceil_div(x, d) == x / d + if x % d == 0 {
            0int
        } else {
            1int
        },
        d * (ceil_div(x, d) - 1) < x <= d * ceil_div(x, d),
{
    lemma_fundamental_div_mod(x, d);
    lemma_mod_bound(x, d);
    let q = x / d;
    let r = x % d;
    if r == 0 {
        assert(q * d == d * q) by (nonlinear_arith);
        vstd::arithmetic::div_mod::lemma_fundamental_div_mod_converse(x + d - 1, d, q, d - 1);
    } else {
        assert(d * (q + 1) + (r - 1) == x + d - 1) by (nonlinear_arith)
            requires
                x == d * q + r,
        ;
        vstd::arithmetic::div_mod::lemma_fundamental_div_mod_converse(x + d - 1, d, q + 1, r - 1);
    }
    assert(d * (q + 1) == d * q + d) by (nonlinear_arith);
    assert(d * (q - 1) == d * q - d) by (nonlinear_arith);
}

/// What clamping, the lesser of two numbers and a difference modulo `2^128` are, and that a
/// quotient towards zero has the sign of its dividend.
pub proof fn law_clamped_values(x: int, y: int, a: u128, b: u128)
    ensures
        x <= u128::MAX ==> sat(x) == x,
        x > u128::MAX ==> sat(x) == u128::MAX,
        0 <= x <= u128::MAX ==> clamp_u128(x) == x,
        x < 0 ==> clamp_u128(x) == 0,
        x > u128::MAX ==> clamp_u128(x) == u128::MAX,
        x <= y ==> min_int(x, y) == x && min_int(y, x) == x,
        a >= b ==> wrapping_difference(a, b) == a - b,
        a < b ==> wrapping_difference(a, b) == a - b
            + 0x1_0000_0000_0000_0000_0000_0000_0000_0000int,
        y > 0 && x >= 0 ==> y * trunc_div(x, y) <= x < y * trunc_div(x, y) + y,
        y > 0 ==> trunc_div(-x, y) == -trunc_div(x, y),
        trunc_rem(x, y) == x - y * trunc_div(x, y),
{
    if y > 0 {
        if x >= 0 {
            lemma_quotient(x, y);
        }
        if x == 0 {
            let q = 0int / y;
            lemma_quotient(0, y);
            assert(q == 0) by (nonlinear_arith)
                requires
                    y * q <= 0 < y * q + y,
                    y > 0,
            ;
        }
    }
}

} // verus!
