//! What the square root price of a tick is, and how close it comes to `1.0001^(tick / 2)`.
//!
//! Powers of `sqrt(1.0001)` are held in fixed point with 90 fractional bits. The power for
//! the exponent `2^i` comes out of the one for `2^(i - 1)` by squaring, and every other
//! power is a product of those for the binary digits of its exponent.

use vstd::arithmetic::div_mod::{lemma_div_is_ordered, lemma_mod_breakdown, lemma_small_mod};
use vstd::arithmetic::mul::{lemma_mul_inequality, lemma_mul_upper_bound};
use vstd::arithmetic::power::{lemma_pow0, lemma_pow1, lemma_pow_adds, lemma_pow_positive, pow};
use vstd::arithmetic::power2::{
    lemma2_to64, lemma_pow2_pos, lemma_pow2_strictly_increases, lemma_pow2_unfold, pow2,
};
use vstd::prelude::*;

use crate::arith::{mul_div, two_pow_128, Q64};

verus! {

/// One in fixed point with 90 fractional bits: `2^90`.
pub const Q90: u128 = 0x400_0000_0000_0000_0000_0000;

/// `sqrt(1.0001)` with 90 fractional bits, rounded down.
pub const ROOT_Q90: u128 = 0x400_0d1b_5bfc_459c_ab95_6b40;

/// `1.0001^(2^i / 2)` with 90 fractional bits, by repeated squaring.
pub open spec fn root_power(i: nat) -> int
    decreases i,
{
    if i == 0 {
        ROOT_Q90 as int
    } else {
        root_power((i - 1) as nat) * root_power((i - 1) as nat) / Q90 as int
    }
}

/// `1.0001^(m / 2)` with 90 fractional bits, where `m` is the number that the lowest `k`
/// binary digits of `n` make up.
pub open spec fn ratio_q90(n: nat, k: nat) -> int
    decreases k,
{
    if k == 0 {
        Q90 as int
    } else {
        let lower = ratio_q90(n, (k - 1) as nat);
        if (n / pow2((k - 1) as nat)) % 2 == 1 {
            lower * root_power((k - 1) as nat) / Q90 as int
        } else {
            lower
        }
    }
}

/// `r` is `1.0001^(n / 2)` with 90 fractional bits: not above it, and below it by at most
/// `c` parts in `2^90`.
pub open spec fn approximates(r: int, n: nat, c: int) -> bool {
    let q = Q90 as int;
    &&& r >= q
    &&& 0 <= c <= q
    &&& (r * r) * pow(10000, n) <= (q * q) * pow(10001, n)
    &&& ((q - c) * (q - c)) * pow(10001, n) <= (r * r) * pow(10000, n)
}

proof fn lemma_product_not_above(r1: int, d1: int, m1: int, r2: int, d2: int, m2: int, q: int)
    requires
        q > 0,
        r1 >= 0,
        r2 >= 0,
        d1 > 0,
        d2 > 0,
        m1 > 0,
        m2 > 0,
        (r1 * r1) * d1 <= (q * q) * m1,
        (r2 * r2) * d2 <= (q * q) * m2,
    ensures
        ((r1 * r2) / q * ((r1 * r2) / q)) * (d1 * d2) <= (q * q) * (m1 * m2),
{
    let s = r1 * r2;
    let r3 = s / q;
    let d = d1 * d2;
    let m = m1 * m2;
    assert(s >= 0) by (nonlinear_arith)
        requires
            s == r1 * r2,
            r1 >= 0,
            r2 >= 0,
    ;
    assert(0 <= r3 && r3 * q <= s) by (nonlinear_arith)
        requires
            s >= 0,
            q > 0,
            r3 == s / q,
    ;
    assert(d > 0) by (nonlinear_arith)
        requires
            d == d1 * d2,
            d1 > 0,
            d2 > 0,
    ;
    let x1 = (r1 * r1) * d1;
    let x2 = (r2 * r2) * d2;
    let y1 = (q * q) * m1;
    let y2 = (q * q) * m2;
    assert(x1 >= 0 && x2 >= 0) by (nonlinear_arith)
        requires
            x1 == (r1 * r1) * d1,
            x2 == (r2 * r2) * d2,
            d1 > 0,
            d2 > 0,
    ;
    lemma_mul_upper_bound(x1, y1, x2, y2);
    assert(x1 * x2 == (s * s) * d) by (nonlinear_arith)
        requires
            x1 == (r1 * r1) * d1,
            x2 == (r2 * r2) * d2,
            s == r1 * r2,
            d == d1 * d2,
    ;
    assert(y1 * y2 == (q * q) * ((q * q) * m)) by (nonlinear_arith)
        requires
            y1 == (q * q) * m1,
            y2 == (q * q) * m2,
            m == m1 * m2,
    ;
    assert((r3 * q) * (r3 * q) <= s * s) by (nonlinear_arith)
        requires
            0 <= r3,
            q > 0,
            r3 * q <= s,
    ;
    lemma_mul_inequality((r3 * q) * (r3 * q), s * s, d);
    assert(((r3 * q) * (r3 * q)) * d == (q * q) * ((r3 * r3) * d)) by (nonlinear_arith);
    assert((r3 * r3) * d <= (q * q) * m) by (nonlinear_arith)
        requires
            (q * q) * ((r3 * r3) * d) <= (q * q) * ((q * q) * m),
            q > 0,
    ;
}

proof fn lemma_product_not_far_below(
    r1: int,
    d1: int,
    m1: int,
    c1: int,
    r2: int,
    d2: int,
    m2: int,
    c2: int,
    q: int,
)
    requires
        q > 0,
        r1 >= q,
        r2 >= q,
        d1 > 0,
        d2 > 0,
        m1 > 0,
        m2 > 0,
        c1 >= 0,
        c2 >= 0,
        c1 + c2 + 1 <= q,
        ((q - c1) * (q - c1)) * m1 <= (r1 * r1) * d1,
        ((q - c2) * (q - c2)) * m2 <= (r2 * r2) * d2,
    ensures
        (r1 * r2) / q >= q,
        ((q - (c1 + c2 + 1)) * (q - (c1 + c2 + 1))) * (m1 * m2) <= ((r1 * r2) / q * ((r1 * r2) / q))
            * (d1 * d2),
{
    let s = r1 * r2;
    let r3 = s / q;
    let d = d1 * d2;
    let m = m1 * m2;
    let c = c1 + c2 + 1;
    assert(s >= q * q) by (nonlinear_arith)
        requires
            s == r1 * r2,
            r1 >= q,
            r2 >= q,
            q > 0,
    ;
    assert(r3 >= q && s - q < r3 * q) by (nonlinear_arith)
        requires
            s >= q * q,
            q > 0,
            r3 == s / q,
    ;
    assert(d > 0 && m > 0) by (nonlinear_arith)
        requires
            d == d1 * d2,
            m == m1 * m2,
            d1 > 0,
            d2 > 0,
            m1 > 0,
            m2 > 0,
    ;
    // The quotient loses less than one part in q.
    assert(s * (q - 1) <= r3 * (q * q)) by (nonlinear_arith)
        requires
            s >= q * q,
            s - q < r3 * q,
            q > 0,
    ;
    let e = s * (q - 1);
    let f = r3 * (q * q);
    assert(e * e <= f * f) by (nonlinear_arith)
        requires
            0 <= e <= f,
    ;
    lemma_mul_inequality(e * e, f * f, d);
    // The factors' own losses multiply.
    let a1 = (q - c1) * (q - c1);
    let a2 = (q - c2) * (q - c2);
    let x1 = a1 * m1;
    let x2 = a2 * m2;
    assert(x1 >= 0 && x2 >= 0) by (nonlinear_arith)
        requires
            a1 == (q - c1) * (q - c1),
            a2 == (q - c2) * (q - c2),
            x1 == a1 * m1,
            x2 == a2 * m2,
            m1 > 0,
            m2 > 0,
    ;
    lemma_mul_upper_bound(x1, (r1 * r1) * d1, x2, (r2 * r2) * d2);
    assert(((r1 * r1) * d1) * ((r2 * r2) * d2) == (s * s) * d) by (nonlinear_arith)
        requires
            s == r1 * r2,
            d == d1 * d2,
    ;
    assert(x1 * x2 == (a1 * a2) * m) by (nonlinear_arith)
        requires
            x1 == a1 * m1,
            x2 == a2 * m2,
            m == m1 * m2,
    ;
    let g = (q - c1) * (q - c2);
    assert(a1 * a2 == g * g) by (nonlinear_arith)
        requires
            a1 == (q - c1) * (q - c1),
            a2 == (q - c2) * (q - c2),
            g == (q - c1) * (q - c2),
    ;
    let w = (q - 1) * (q - 1);
    assert((e * e) * d == ((s * s) * d) * w) by (nonlinear_arith)
        requires
            e == s * (q - 1),
            w == (q - 1) * (q - 1),
    ;
    assert(w >= 0) by (nonlinear_arith)
        requires
            w == (q - 1) * (q - 1),
    ;
    lemma_mul_inequality((g * g) * m, (s * s) * d, w);
    // Losses add up to at most their sum.
    assert(g * (q - 1) >= (q * q) * (q - c)) by {
        assert(g >= q * (q - c1 - c2)) by (nonlinear_arith)
            requires
                g == (q - c1) * (q - c2),
                c1 >= 0,
                c2 >= 0,
        ;
        lemma_mul_inequality(q * (q - c1 - c2), g, q - 1);
        assert((q * (q - c1 - c2)) * (q - 1) >= (q * q) * (q - c)) by (nonlinear_arith)
            requires
                q > 0,
                c1 >= 0,
                c2 >= 0,
                c == c1 + c2 + 1,
        ;
    }
    let h = (q * q) * (q - c);
    let gw = g * (q - 1);
    assert(h >= 0) by (nonlinear_arith)
        requires
            h == (q * q) * (q - c),
            c <= q,
    ;
    assert(h * h <= gw * gw) by (nonlinear_arith)
        requires
            0 <= h <= gw,
    ;
    lemma_mul_inequality(h * h, gw * gw, m);
    assert((gw * gw) * m == ((g * g) * m) * w) by (nonlinear_arith)
        requires
            gw == g * (q - 1),
            w == (q - 1) * (q - 1),
    ;
    let k = (q * q) * (q * q);
    assert((h * h) * m == k * (((q - c) * (q - c)) * m)) by (nonlinear_arith)
        requires
            h == (q * q) * (q - c),
            k == (q * q) * (q * q),
    ;
    assert((f * f) * d == k * ((r3 * r3) * d)) by (nonlinear_arith)
        requires
            f == r3 * (q * q),
            k == (q * q) * (q * q),
    ;
    assert(k > 0) by (nonlinear_arith)
        requires
            k == (q * q) * (q * q),
            q > 0,
    ;
    let left = ((q - c) * (q - c)) * m;
    let right = (r3 * r3) * d;
    assert(left <= right) by (nonlinear_arith)
        requires
            k * left <= k * right,
            k > 0,
    ;
}

/// Approximations multiply, and their errors add up.
pub proof fn lemma_approximates_product(r1: int, n1: nat, c1: int, r2: int, n2: nat, c2: int)
    requires
        approximates(r1, n1, c1),
        approximates(r2, n2, c2),
        c1 + c2 + 1 <= Q90,
    ensures
        approximates(r1 * r2 / Q90 as int, n1 + n2, c1 + c2 + 1),
{
    let q = Q90 as int;
    lemma_pow_positive(10000, n1);
    lemma_pow_positive(10000, n2);
    lemma_pow_positive(10001, n1);
    lemma_pow_positive(10001, n2);
    lemma_pow_adds(10000, n1, n2);
    lemma_pow_adds(10001, n1, n2);
    lemma_product_not_above(
        r1,
        pow(10000, n1),
        pow(10001, n1),
        r2,
        pow(10000, n2),
        pow(10001, n2),
        q,
    );
    lemma_product_not_far_below(
        r1,
        pow(10000, n1),
        pow(10001, n1),
        c1,
        r2,
        pow(10000, n2),
        pow(10001, n2),
        c2,
        q,
    );
}

proof fn lemma_approximates_weaken(r: int, n: nat, c: int, c2: int)
    requires
        approximates(r, n, c),
        c <= c2 <= Q90,
    ensures
        approximates(r, n, c2),
{
    let q = Q90 as int;
    assert((q - c2) * (q - c2) <= (q - c) * (q - c)) by (nonlinear_arith)
        requires
            0 <= q - c2 <= q - c,
    ;
    lemma_pow_positive(10001, n);
    lemma_mul_inequality((q - c2) * (q - c2), (q - c) * (q - c), pow(10001, n));
}

/// The power for the exponent `2^i` is off by less than `2^(i + 1)` parts in `2^90`.
pub proof fn lemma_root_power(i: nat)
    requires
        i <= 19,
    ensures
        approximates(root_power(i), pow2(i), pow2(i + 1) - 1),
    decreases i,
{
    lemma2_to64();
    if i == 0 {
        lemma_pow1(10000);
        lemma_pow1(10001);
    } else {
        let j = (i - 1) as nat;
        lemma_root_power(j);
        lemma_pow2_unfold(i);
        lemma_pow2_unfold(i + 1);
        assert(pow2(i + 1) <= pow2(20)) by {
            if i + 1 < 20 {
                lemma_pow2_strictly_increases(i + 1, 20);
            }
        }
        lemma_approximates_product(
            root_power(j),
            pow2(j),
            pow2(j + 1) - 1,
            root_power(j),
            pow2(j),
            pow2(j + 1) - 1,
        );
    }
}

proof fn lemma_next_digit(n: nat, k: nat)
    ensures
        n % pow2(k + 1) == n % pow2(k) + pow2(k) * ((n / pow2(k)) % 2),
{
    lemma_pow2_unfold(k + 1);
    lemma_pow2_pos(k);
    lemma_mod_breakdown(n as int, pow2(k) as int, 2);
    assert(pow2(k) * 2 == 2 * pow2(k));
}

/// The ratio over `k` binary digits is off by less than `2^(k + 1)` parts in `2^90`.
pub proof fn lemma_ratio(n: nat, k: nat)
    requires
        k <= 19,
    ensures
        approximates(ratio_q90(n, k), n % pow2(k), pow2(k + 1) - 2),
    decreases k,
{
    lemma2_to64();
    if k == 0 {
        lemma_pow0(10000);
        lemma_pow0(10001);
        assert(n % 1 == 0);
    } else {
        let j = (k - 1) as nat;
        lemma_ratio(n, j);
        lemma_root_power(j);
        lemma_next_digit(n, j);
        lemma_pow2_unfold(k + 1);
        assert(pow2(k + 1) <= pow2(20)) by {
            if k + 1 < 20 {
                lemma_pow2_strictly_increases(k + 1, 20);
            }
        }
        let lower = ratio_q90(n, j);
        if (n / pow2(j)) % 2 == 1 {
            lemma_approximates_product(
                lower,
                n % pow2(j),
                pow2(k) - 2,
                root_power(j),
                pow2(j),
                pow2(k) - 1,
            );
            assert(pow2(j) * 1 == pow2(j));
        } else {
            assert((n / pow2(j)) % 2 == 0);
            assert(pow2(j) * 0 == 0);
            lemma_approximates_weaken(lower, n % pow2(j), pow2(k) - 2, pow2(k + 1) - 2);
        }
    }
}

/// A ratio over `k` binary digits is never above the power for the exponent `2^k`.
pub proof fn lemma_ratio_bound(n: nat, k: nat)
    requires
        k <= 19,
    ensures
        Q90 <= ratio_q90(n, k) <= root_power(k),
    decreases k,
{
    lemma_root_power(k);
    lemma_ratio(n, k);
    if k > 0 {
        let j = (k - 1) as nat;
        lemma_ratio_bound(n, j);
        lemma_root_power(j);
        let lower = ratio_q90(n, j);
        let power = root_power(j);
        let q = Q90 as int;
        assert(lower * power <= power * power) by (nonlinear_arith)
            requires
                lower <= power,
                power >= 0,
        ;
        lemma_div_is_ordered(lower * power, power * power, q);
        assert(power <= power * power / q) by (nonlinear_arith)
            requires
                power >= q,
                q > 0,
        ;
    }
}

/// The values of the powers, from the exponent 1 up to `2^19`.
proof fn lemma_root_power_values()
    ensures
        root_power(0) == 0x400_0d1b_5bfc_459c_ab95_6b40int,
        root_power(1) == 0x400_1a36_e2eb_1c43_2ca5_7a77int,
        root_power(2) == 0x400_346e_71a2_af97_ddac_c3eaint,
        root_power(3) == 0x400_68df_9288_d32c_20c1_45b1int,
        root_power(4) == 0x400_d1c9_e2ac_3a4a_b689_6ac0int,
        root_power(5) == 0x401_a3be_c029_4952_0297_5fd4int,
        root_power(6) == 0x403_4829_8ed0_5ce0_e77e_7664int,
        root_power(7) == 0x406_9304_71d0_b75d_ca5c_e2efint,
        root_power(8) == 0x40d_30d7_0c7d_933e_9b70_3498int,
        root_power(9) == 0x41a_8d2d_e322_abfe_fe06_f910int,
        root_power(10) == 0x435_ca9a_91b3_362f_3a6b_991bint,
        root_power(11) == 0x46e_6896_398e_4a16_5b71_cc29int,
        root_power(12) == 0x4e8_b8af_6813_e0de_7cf3_3025int,
        root_power(13) == 0x606_552f_9a78_36a3_f9df_9530int,
        root_power(14) == 0x913_0995_7461_680a_41ff_f381int,
        root_power(15) == 0x1496_05bb_ae7e_4d6c_7182_c2d6int,
        root_power(16) == 0x69f2_3402_d545_a13f_d32f_069aint,
        root_power(17) == 0xa_f624_f42c_b7df_25e2_0b4f_186fint,
        root_power(18) == 0x1e09_e387_8679_1233_e2c4_1e73_f3c3int,
        root_power(19) == 0xe194_6d63_515d_4050_5a06_07b4_77e6_feb3int,
{
    lemma_square(0, 0x400_0d1b_5bfc_459c_ab95_6b40int, 0x400_1a36_e2eb_1c43_2ca5_7a77int);
    lemma_square(1, 0x400_1a36_e2eb_1c43_2ca5_7a77int, 0x400_346e_71a2_af97_ddac_c3eaint);
    lemma_square(2, 0x400_346e_71a2_af97_ddac_c3eaint, 0x400_68df_9288_d32c_20c1_45b1int);
    lemma_square(3, 0x400_68df_9288_d32c_20c1_45b1int, 0x400_d1c9_e2ac_3a4a_b689_6ac0int);
    lemma_square(4, 0x400_d1c9_e2ac_3a4a_b689_6ac0int, 0x401_a3be_c029_4952_0297_5fd4int);
    lemma_square(5, 0x401_a3be_c029_4952_0297_5fd4int, 0x403_4829_8ed0_5ce0_e77e_7664int);
    lemma_square(6, 0x403_4829_8ed0_5ce0_e77e_7664int, 0x406_9304_71d0_b75d_ca5c_e2efint);
    lemma_square(7, 0x406_9304_71d0_b75d_ca5c_e2efint, 0x40d_30d7_0c7d_933e_9b70_3498int);
    lemma_square(8, 0x40d_30d7_0c7d_933e_9b70_3498int, 0x41a_8d2d_e322_abfe_fe06_f910int);
    lemma_square(9, 0x41a_8d2d_e322_abfe_fe06_f910int, 0x435_ca9a_91b3_362f_3a6b_991bint);
    lemma_square(10, 0x435_ca9a_91b3_362f_3a6b_991bint, 0x46e_6896_398e_4a16_5b71_cc29int);
    lemma_square(11, 0x46e_6896_398e_4a16_5b71_cc29int, 0x4e8_b8af_6813_e0de_7cf3_3025int);
    lemma_square(12, 0x4e8_b8af_6813_e0de_7cf3_3025int, 0x606_552f_9a78_36a3_f9df_9530int);
    lemma_square(13, 0x606_552f_9a78_36a3_f9df_9530int, 0x913_0995_7461_680a_41ff_f381int);
    lemma_square(14, 0x913_0995_7461_680a_41ff_f381int, 0x1496_05bb_ae7e_4d6c_7182_c2d6int);
    lemma_square(15, 0x1496_05bb_ae7e_4d6c_7182_c2d6int, 0x69f2_3402_d545_a13f_d32f_069aint);
    lemma_square(16, 0x69f2_3402_d545_a13f_d32f_069aint, 0xa_f624_f42c_b7df_25e2_0b4f_186fint);
    lemma_square(17, 0xa_f624_f42c_b7df_25e2_0b4f_186fint, 0x1e09_e387_8679_1233_e2c4_1e73_f3c3int);
    lemma_square(18, 0x1e09_e387_8679_1233_e2c4_1e73_f3c3int, 0xe194_6d63_515d_4050_5a06_07b4_77e6_feb3int);
}

proof fn lemma_square(i: nat, power: int, square: int)
    requires
        root_power(i) == power,
        power * power / Q90 as int == square,
    ensures
        root_power(i + 1) == square,
{
}

/// The power for the exponent `2^i`.
pub fn magic_number(i: u32) -> (r: u128)
    requires
        i < 19,
    ensures
        r == root_power(i as nat),
{
    proof {
        lemma_root_power_values();
    }
    match i {
        0 => 0x400_0d1b_5bfc_459c_ab95_6b40,
        1 => 0x400_1a36_e2eb_1c43_2ca5_7a77,
        2 => 0x400_346e_71a2_af97_ddac_c3ea,
        3 => 0x400_68df_9288_d32c_20c1_45b1,
        4 => 0x400_d1c9_e2ac_3a4a_b689_6ac0,
        5 => 0x401_a3be_c029_4952_0297_5fd4,
        6 => 0x403_4829_8ed0_5ce0_e77e_7664,
        7 => 0x406_9304_71d0_b75d_ca5c_e2ef,
        8 => 0x40d_30d7_0c7d_933e_9b70_3498,
        9 => 0x41a_8d2d_e322_abfe_fe06_f910,
        10 => 0x435_ca9a_91b3_362f_3a6b_991b,
        11 => 0x46e_6896_398e_4a16_5b71_cc29,
        12 => 0x4e8_b8af_6813_e0de_7cf3_3025,
        13 => 0x606_552f_9a78_36a3_f9df_9530,
        14 => 0x913_0995_7461_680a_41ff_f381,
        15 => 0x1496_05bb_ae7e_4d6c_7182_c2d6,
        16 => 0x69f2_3402_d545_a13f_d32f_069a,
        17 => 0xa_f624_f42c_b7df_25e2_0b4f_186f,
        _ => 0x1e09_e387_8679_1233_e2c4_1e73_f3c3,
    }
}

/// The power `1.0001^(n / 2)` with 90 fractional bits.
pub fn ratio(n: u32) -> (r: u128)
    requires
        n < 0x8_0000,
    ensures
        r == ratio_q90(n as nat, 19),
{
    let mut r: u128 = Q90;
    let mut digits: u32 = n;
    let mut k: u32 = 0;
    proof {
        lemma2_to64();
        lemma_root_power_values();
    }
    while k < 19
        invariant
            k <= 19,
            digits as nat == n as nat / pow2(k as nat),
            r == ratio_q90(n as nat, k as nat),
            root_power(19) <= u128::MAX,
        decreases 19 - k,
    {
        proof {
            lemma_ratio_bound(n as nat, k as nat + 1);
            lemma_power_at_most(k as nat + 1, 19);
            lemma_pow2_unfold(k as nat + 1);
            lemma_pow2_pos(k as nat);
            vstd::arithmetic::div_mod::lemma_div_denominator(
                n as int,
                pow2(k as nat) as int,
                2,
            );
            assert(pow2(k as nat) * 2 == 2 * pow2(k as nat));
        }
        if digits % 2 == 1 {
            r = mul_div(r, magic_number(k), Q90);
        }
        digits = digits / 2;
        k = k + 1;
    }
    r
}

proof fn lemma_power_at_most(i: nat, j: nat)
    requires
        i <= j <= 19,
    ensures
        root_power(i) <= root_power(j),
    decreases j,
{
    if i < j {
        lemma_power_at_most(i, (j - 1) as nat);
        lemma_root_power((j - 1) as nat);
        let power = root_power((j - 1) as nat);
        let q = Q90 as int;
        assert(power <= power * power / q) by (nonlinear_arith)
            requires
                power >= q,
                q > 0,
        ;
    }
}

/// The square root price of a tick in Q64.64: `1.0001^(tick / 2) * 2^64`, from the ratio
/// for the tick's absolute value.
pub open spec fn sqrt_price_at(tick: int) -> int {
    if tick >= 0 {
        ratio_q90(tick as nat, 19) / 0x400_0000
    } else {
        two_pow_154() / ratio_q90((-tick) as nat, 19)
    }
}

/// `2^154`: one with 90 fractional bits times one in Q64.64.
pub open spec fn two_pow_154() -> int {
    0x400_0000_0000_0000_0000_0000_0000_0000_0000_0000int
}

/// The numerator of `1.0001^tick` as a fraction.
pub open spec fn price_numerator(tick: int) -> int {
    if tick >= 0 {
        pow(10001, tick as nat)
    } else {
        pow(10000, (-tick) as nat)
    }
}

/// The denominator of `1.0001^tick` as a fraction.
pub open spec fn price_denominator(tick: int) -> int {
    if tick >= 0 {
        pow(10000, tick as nat)
    } else {
        pow(10001, (-tick) as nat)
    }
}

/// `2^70`.
pub open spec fn two_pow_70() -> int {
    0x40_0000_0000_0000_0000int
}

/// The ratio over all nineteen digits, with its error bound.
proof fn lemma_full_ratio(n: nat)
    requires
        n < 0x8_0000,
    ensures
        approximates(ratio_q90(n, 19), n, 0x10_0000),
        Q90 <= ratio_q90(n, 19) <= u128::MAX,
{
    lemma2_to64();
    lemma_ratio(n, 19);
    lemma_small_mod(n, pow2(19));
    lemma_approximates_weaken(ratio_q90(n, 19), n, pow2(20) - 2, 0x10_0000);
    lemma_ratio_bound(n, 19);
    lemma_root_power_values();
}

/// The error of a rounded-down quotient of the ratio.
proof fn lemma_error_of_quotient(r: int, p: int, d: int, m: int)
    requires
        d > 0,
        m > 0,
        r >= Q90,
        p == r / 0x400_0000,
        (r * r) * d <= (Q90 * Q90) * m,
        ((Q90 - 0x10_0000) * (Q90 - 0x10_0000)) * m <= (r * r) * d,
    ensures
        ((p * p) * d) * ((two_pow_70() - 1) * (two_pow_70() - 1)) <= (two_pow_128() * m) * (
        two_pow_70() * two_pow_70()),
        (((p + 1) * (p + 1)) * d) * (two_pow_70() * two_pow_70()) > (two_pow_128() * m) * ((
        two_pow_70() - 1) * (two_pow_70() - 1)),
{
    let a = two_pow_70();
    let u = 0x400_0000int;
    let pd = (p * p) * d;
    let pd1 = ((p + 1) * (p + 1)) * d;
    let rd = (r * r) * d;
    assert(p >= 0 && p * u <= r && r < (p + 1) * u);
    assert((p * u) * (p * u) <= r * r) by (nonlinear_arith)
        requires
            0 <= p * u <= r,
    ;
    lemma_mul_inequality((p * u) * (p * u), r * r, d);
    assert(((p * u) * (p * u)) * d == (u * u) * pd) by (nonlinear_arith)
        requires
            pd == (p * p) * d,
    ;
    assert(r * r < ((p + 1) * u) * ((p + 1) * u)) by (nonlinear_arith)
        requires
            0 <= r < (p + 1) * u,
    ;
    assert(rd < (((p + 1) * u) * ((p + 1) * u)) * d) by (nonlinear_arith)
        requires
            r * r < ((p + 1) * u) * ((p + 1) * u),
            d > 0,
            rd == (r * r) * d,
    ;
    assert((((p + 1) * u) * ((p + 1) * u)) * d == (u * u) * pd1) by (nonlinear_arith)
        requires
            pd1 == ((p + 1) * (p + 1)) * d,
    ;
    let t = two_pow_128();
    let q = Q90 as int;
    let v = 0x10_0000int;
    let b = (a - 1) * (a - 1);
    assert(q * q == (u * u) * t);
    assert((q - v) * (q - v) == (v * v) * b) by (nonlinear_arith)
        requires
            q - v == v * (a - 1),
            b == (a - 1) * (a - 1),
    ;
    assert((v * v) * (a * a) == (u * u) * t);
    // Not above.
    assert(pd <= t * m) by (nonlinear_arith)
        requires
            (u * u) * pd <= (q * q) * m,
            q * q == (u * u) * t,
            u > 0,
    ;
    assert(pd * b <= (t * m) * (a * a)) by {
        assert(pd >= 0) by (nonlinear_arith)
            requires
                pd == (p * p) * d,
                d > 0,
        ;
        lemma_mul_upper_bound(pd, t * m, b, a * a);
    }
    // Not far below.
    assert(pd1 * (a * a) > (t * m) * b) by (nonlinear_arith)
        requires
            (u * u) * pd1 > ((q - v) * (q - v)) * m,
            (q - v) * (q - v) == (v * v) * b,
            (v * v) * (a * a) == (u * u) * t,
            u > 0,
            a > 0,
            v > 0,
    ;
}

/// The error of a rounded-down reciprocal of the ratio.
proof fn lemma_error_of_reciprocal(r: int, p: int, d: int, m: int)
    requires
        d > 0,
        m > 0,
        r >= Q90,
        p == two_pow_154() / r,
        (r * r) * d <= (Q90 * Q90) * m,
        ((Q90 - 0x10_0000) * (Q90 - 0x10_0000)) * m <= (r * r) * d,
    ensures
        ((p * p) * m) * ((two_pow_70() - 1) * (two_pow_70() - 1)) <= (two_pow_128() * d) * (
        two_pow_70() * two_pow_70()),
        (((p + 1) * (p + 1)) * m) * (two_pow_70() * two_pow_70()) > (two_pow_128() * d) * ((
        two_pow_70() - 1) * (two_pow_70() - 1)),
{
    let a = two_pow_70();
    let b = (a - 1) * (a - 1);
    let t = two_pow_128();
    let z = two_pow_154();
    let q = Q90 as int;
    let v = 0x10_0000int;
    let rd = (r * r) * d;
    let pm = (p * p) * m;
    let pm1 = ((p + 1) * (p + 1)) * m;
    vstd::arithmetic::div_mod::lemma_fundamental_div_mod(z, r);
    vstd::arithmetic::div_mod::lemma_mod_bound(z, r);
    vstd::arithmetic::div_mod::lemma_div_pos_is_pos(z, r);
    assert(p * r <= z && z < (p + 1) * r) by (nonlinear_arith)
        requires
            z == r * p + z % r,
            0 <= z % r < r,
    ;
    assert(p * r >= 0) by (nonlinear_arith)
        requires
            p >= 0,
            r >= 0,
    ;
    assert((p * r) * (p * r) <= z * z) by (nonlinear_arith)
        requires
            0 <= p * r <= z,
    ;
    assert(z * z < ((p + 1) * r) * ((p + 1) * r)) by (nonlinear_arith)
        requires
            0 <= z < (p + 1) * r,
    ;
    assert((q - v) * (q - v) == (v * v) * b) by (nonlinear_arith)
        requires
            q - v == v * (a - 1),
            b == (a - 1) * (a - 1),
    ;
    assert(z * z == (v * v) * (t * (a * a)));
    assert(z * z == (q * q) * t);
    // Not far above.
    assert((p * p) * rd <= (z * z) * d) by {
        lemma_mul_inequality((p * r) * (p * r), z * z, d);
        assert(((p * r) * (p * r)) * d == (p * p) * rd) by (nonlinear_arith)
            requires
                rd == (r * r) * d,
        ;
    }
    assert((v * v) * (pm * b) <= (p * p) * rd) by {
        let low = ((q - v) * (q - v)) * m;
        assert((p * p) * low <= (p * p) * rd) by (nonlinear_arith)
            requires
                low <= rd,
        ;
        assert((p * p) * low == (v * v) * (pm * b)) by (nonlinear_arith)
            requires
                low == ((v * v) * b) * m,
                pm == (p * p) * m,
        ;
    }
    assert(pm * b <= (t * d) * (a * a)) by (nonlinear_arith)
        requires
            (v * v) * (pm * b) <= ((v * v) * (t * (a * a))) * d,
            v > 0,
    ;
    // Not below.
    assert((z * z) * d < ((p + 1) * (p + 1)) * rd) by (nonlinear_arith)
        requires
            z * z < ((p + 1) * r) * ((p + 1) * r),
            rd == (r * r) * d,
            d > 0,
    ;
    assert(((p + 1) * (p + 1)) * rd <= (q * q) * pm1) by (nonlinear_arith)
        requires
            rd <= (q * q) * m,
            pm1 == ((p + 1) * (p + 1)) * m,
    ;
    assert(t * d < pm1) by (nonlinear_arith)
        requires
            ((q * q) * t) * d < (q * q) * pm1,
            q > 0,
    ;
    assert(0 <= b <= a * a) by (nonlinear_arith)
        requires
            b == (a - 1) * (a - 1),
            a >= 1,
    ;
    assert((t * d) * b < pm1 * (a * a)) by (nonlinear_arith)
        requires
            0 < t * d < pm1,
            0 <= b <= a * a,
            a > 0,
    ;
}

/// The price of a tick is `1.0001^tick`: the square root price is within one unit in the
/// last place and one part in `2^70` of `sqrt(1.0001^tick) * 2^64`. Both bounds are stated
/// over the squares, as fractions.
pub proof fn law_price_is_power_of_tick(tick: int)
    requires
        -0x8_0000 < tick < 0x8_0000,
    ensures
        ((sqrt_price_at(tick) * sqrt_price_at(tick)) * price_denominator(tick)) * ((two_pow_70() - 1)
            * (two_pow_70() - 1)) <= (two_pow_128() * price_numerator(tick)) * (two_pow_70()
            * two_pow_70()),
        (((sqrt_price_at(tick) + 1) * (sqrt_price_at(tick) + 1)) * price_denominator(tick)) * (
        two_pow_70() * two_pow_70()) > (two_pow_128() * price_numerator(tick)) * ((two_pow_70() - 1)
            * (two_pow_70() - 1)),
{
    let n = (if tick >= 0 {
        tick
    } else {
        -tick
    }) as nat;
    lemma_full_ratio(n);
    lemma_pow_positive(10000, n);
    lemma_pow_positive(10001, n);
    let r = ratio_q90(n, 19);
    if tick >= 0 {
        lemma_error_of_quotient(r, sqrt_price_at(tick), pow(10000, n), pow(10001, n));
    } else {
        lemma_error_of_reciprocal(r, sqrt_price_at(tick), pow(10000, n), pow(10001, n));
    }
}

/// One more tick raises the ratio by at least four parts in a hundred thousand.
proof fn lemma_ratio_grows(n: nat)
    requires
        n + 1 < 0x8_0000,
    ensures
        ratio_q90(n + 1, 19) * 100000 >= ratio_q90(n, 19) * 100004,
{
    lemma_full_ratio(n);
    lemma_full_ratio(n + 1);
    lemma_pow_positive(10000, n);
    lemma_pow_positive(10001, n);
    lemma_pow_adds(10000, n, 1);
    lemma_pow_adds(10001, n, 1);
    lemma_pow1(10000);
    lemma_pow1(10001);
    let d = pow(10000, n);
    let m = pow(10001, n);
    let r = ratio_q90(n, 19);
    let s = ratio_q90(n + 1, 19);
    let q = Q90 as int;
    let low = (q - 0x10_0000) * (q - 0x10_0000);
    if s * 100000 < r * 100004 {
        assert((s * 100000) * (s * 100000) < (r * 100004) * (r * 100004)) by (nonlinear_arith)
            requires
                0 <= s * 100000 < r * 100004,
        ;
        assert((s * s) * 1_0000_000_000 < (r * r) * (100004 * 100004)) by (nonlinear_arith)
            requires
                (s * 100000) * (s * 100000) < (r * 100004) * (r * 100004),
        ;
        let sd = (s * s) * d;
        let rd = (r * r) * d;
        assert(sd * 1_0000_000_000 < rd * (100004 * 100004)) by (nonlinear_arith)
            requires
                (s * s) * 1_0000_000_000 < (r * r) * (100004 * 100004),
                d > 0,
                sd == (s * s) * d,
                rd == (r * r) * d,
        ;
        assert((s * s) * (d * 10000) == sd * 10000) by (nonlinear_arith)
            requires
                sd == (s * s) * d,
        ;
        assert(low * (m * 10001) == (low * m) * 10001) by (nonlinear_arith);
        assert((low * m) * 10001 <= sd * 10000);
        assert(rd <= (q * q) * m);
        assert((low * m) * 10001 * 1_000_000 < ((q * q) * m) * (100004 * 100004));
        assert(false) by (nonlinear_arith)
            requires
                (low * m) * 10001 * 1_000_000 < ((q * q) * m) * (100004 * 100004),
                m > 0,
                low * 10001 * 1_000_000 >= (q * q) * (100004 * 100004),
        ;
    }
}

proof fn lemma_ratio_of_zero(k: nat)
    ensures
        ratio_q90(0, k) == Q90,
    decreases k,
{
    if k > 0 {
        lemma_ratio_of_zero((k - 1) as nat);
        lemma_pow2_pos((k - 1) as nat);
        vstd::arithmetic::div_mod::lemma_div_of0(pow2((k - 1) as nat) as int);
        assert(0nat / pow2((k - 1) as nat) == 0);
    }
}

/// Tick 0 is price 1.
pub proof fn law_tick_zero_is_price_one()
    ensures
        sqrt_price_at(0) == Q64,
{
    lemma_ratio_of_zero(19);
}

proof fn lemma_next_tick_is_dearer(tick: int)
    requires
        -0x8_0000 < tick,
        tick + 1 < 0x8_0000,
    ensures
        sqrt_price_at(tick) < sqrt_price_at(tick + 1),
{
    if tick >= 0 {
        let n = tick as nat;
        lemma_ratio_grows(n);
        lemma_full_ratio(n);
        let r = ratio_q90(n, 19);
        let s = ratio_q90(n + 1, 19);
        assert(s >= r + 0x400_0000);
        assert(sqrt_price_at(tick + 1) == s / 0x400_0000);
    } else {
        let n = (-tick - 1) as nat;
        lemma_ratio_grows(n);
        lemma_full_ratio(n);
        lemma_full_ratio(n + 1);
        let z = two_pow_154();
        let r = ratio_q90(n, 19);
        let s = ratio_q90(n + 1, 19);
        let y = z / s;
        vstd::arithmetic::div_mod::lemma_fundamental_div_mod(z, s);
        vstd::arithmetic::div_mod::lemma_mod_bound(z, s);
        assert(y * s <= z && z < (y + 1) * s) by (nonlinear_arith)
            requires
                z == s * y + z % s,
                0 <= z % s < s,
        ;
        assert(y >= 0x3ff_ffff) by (nonlinear_arith)
            requires
                z < (y + 1) * s,
                0 < s < two_pow_128(),
                z == 0x400_0000 * two_pow_128(),
        ;
        assert((y + 1) * r <= y * s) by (nonlinear_arith)
            requires
                s * 100000 >= r * 100004,
                y >= 25000,
                r >= 0,
        ;
        assert(y + 1 <= z / r) by (nonlinear_arith)
            requires
                (y + 1) * r <= z,
                r > 0,
        ;
        assert((-tick) as nat == n + 1);
        if n == 0 {
            lemma_ratio_of_zero(19);
            assert(r == Q90);
            assert(two_pow_154() / 0x400_0000_0000_0000_0000_0000 == Q64);
            assert(r == 0x400_0000_0000_0000_0000_0000);
        } else {
            assert((-(tick + 1)) as nat == n);
        }
    }
}

/// A higher tick has a strictly higher price.
pub proof fn law_price_rises_with_tick(lower: int, upper: int)
    requires
        -0x8_0000 < lower < upper < 0x8_0000,
    ensures
        sqrt_price_at(lower) < sqrt_price_at(upper),
    decreases upper - lower,
{
    if upper > lower + 1 {
        law_price_rises_with_tick(lower, upper - 1);
    }
    lemma_next_tick_is_dearer(upper - 1);
}

/// The price of a tick is a positive 128-bit number.
pub proof fn lemma_price_in_range(tick: int)
    requires
        -0x8_0000 < tick < 0x8_0000,
    ensures
        0 < sqrt_price_at(tick) <= u128::MAX,
{
    if tick >= 0 {
        lemma_full_ratio(tick as nat);
    } else {
        lemma_full_ratio((-tick) as nat);
        let z = two_pow_154();
        let r = ratio_q90((-tick) as nat, 19);
        assert(z == 0x400_0000 * two_pow_128());
        assert(z == Q90 * Q64);
        assert(0 < z / r <= Q64) by (nonlinear_arith)
            requires
                Q90 <= r <= u128::MAX,
                z == 0x400_0000 * two_pow_128(),
                z == Q90 * Q64,
                u128::MAX < two_pow_128(),
        ;
    }
}

/// The square root price of a tick in Q64.64.
pub fn sqrt_price_of_tick(tick: i32) -> (r: u128)
    requires
        -0x8_0000 < tick < 0x8_0000,
    ensures
        r == sqrt_price_at(tick as int),
{
    let n: u32 = if tick >= 0 {
        tick as u32
    } else {
        (-tick) as u32
    };
    let ratio: u128 = ratio(n);
    proof {
        lemma_full_ratio(n as nat);
    }
    if tick >= 0 {
        ratio / 0x400_0000
    } else {
        let root: u128 = 0x2000_0000_0000_0000_0000;
        proof {
            assert(root * root == two_pow_154());
            assert(two_pow_154() / ratio as int <= Q64) by (nonlinear_arith)
                requires
                    ratio >= Q90,
                    two_pow_154() == Q90 * Q64,
            ;
        }
        mul_div(root, root, ratio)
    }
}

} // verus!
