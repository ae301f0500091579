//! The last step of a pixel: from a colour to three bytes.
use vstd::prelude::*;
use vstd::arithmetic::power2::{lemma2_to64, lemma2_to64_rest, lemma_pow2_adds, lemma_pow2_pos, lemma_pow2_strictly_increases, pow2};
use vstd::arithmetic::div_mod::{lemma_div_is_ordered, lemma_div_multiples_vanish_quotient};
use vstd::bits::lemma_u64_shr_is_div;
use crate::rtweekend::{clamp, clamped};
use crate::scalar::{Scalar, INFINITY_BITS, ONE_BITS};
use crate::vec3::Color;

verus! {

/// The bit pattern of `0.999`, the brightest that a channel gets.
pub const BRIGHTEST_BITS: u64 = 0x3fef_f7ce_d916_872b;

/// Two to the power of 52: the weight of the implicit leading bit of a
/// mantissa.
pub const LEADING_BIT: u64 = 0x10_0000_0000_0000;

/// The exponent field of a pattern without sign.
pub open spec fn exponent(c: Scalar) -> int {
    c.magnitude() / (LEADING_BIT as int)
}

/// The mantissa field of a pattern.
pub open spec fn mantissa(c: Scalar) -> int {
    c.magnitude() % (LEADING_BIT as int)
}

/// The integer part of 256 times a number `c` that is not negative and below
/// one. Such a number is `(2^52 + mantissa) / 2^(1075 - exponent)`, or less
/// than `2^-1022` where its exponent field is zero.
pub open spec fn scaled(c: Scalar) -> int {
    if exponent(c) == 0 {
        0
    } else {
        ((LEADING_BIT + mantissa(c)) * 256) / (pow2((1075 - exponent(c)) as nat) as int)
    }
}

/// The byte of a channel: the channel held to `[0, 0.999]`, times 256, cut
/// to an integer; zero for a NaN.
pub open spec fn quantized(x: Scalar) -> int {
    let c = clamped(x, Scalar { bits: 0 }, Scalar { bits: BRIGHTEST_BITS });
    if c.nan() {
        0
    } else {
        scaled(c)
    }
}

/// The byte of a channel that has been averaged and gamma-corrected: the
/// integer part of 256 times the channel held to `[0, 0.999]`. A NaN gives 0.
pub fn to_byte(x: Scalar) -> (b: u8)
    ensures
        b == quantized(x),
{
    let c: Scalar = clamp(x, Scalar::zero(), Scalar::from_bits(BRIGHTEST_BITS));
    if c.is_nan() {
        return 0;
    }
    let magnitude: u64 = c.abs().bits;
    assert(magnitude <= BRIGHTEST_BITS);
    let e: u64 = magnitude / LEADING_BIT;
    let m: u64 = magnitude % LEADING_BIT;
    assert(e <= 1022);
    if e < 1015 {
        proof {
            if e > 0 {
                let n = (1075 - e) as nat;
                lemma2_to64_rest();
                if n > 61 {
                    lemma_pow2_strictly_increases(61, n);
                }
                assert(pow2(n) >= 0x2000_0000_0000_0000);
                assert((LEADING_BIT + m) * 256 < 0x2000_0000_0000_0000);
                assert(((LEADING_BIT + m) * 256) / (pow2(n) as int) == 0) by (nonlinear_arith)
                    requires
                        0 <= (LEADING_BIT + m) * 256 < pow2(n),
                ;
            }
        }
        return 0;
    }
    let shift: u64 = 1067 - e;
    let whole: u64 = LEADING_BIT + m;
    let byte: u64 = whole >> shift;
    proof {
        let k = shift as nat;
        lemma_u64_shr_is_div(whole, shift);
        lemma_pow2_adds(k, 8);
        lemma2_to64();
        lemma_pow2_pos(k);
        assert(pow2(k + 8) == pow2(k) * 256);
        assert((whole * 256) / ((pow2(k) * 256) as int) == whole as int / (pow2(k) as int)) by (nonlinear_arith)
            requires
                pow2(k) > 0,
        ;
        if k > 45 {
            lemma_pow2_strictly_increases(45, k);
        }
        lemma2_to64_rest();
        assert(pow2(k) >= 0x2000_0000_0000);
        assert(whole < 0x20_0000_0000_0000);
        assert(whole as int / (pow2(k) as int) < 256) by (nonlinear_arith)
            requires
                0 <= whole < 0x20_0000_0000_0000,
                pow2(k) >= 0x2000_0000_0000,
        ;
    }
    byte as u8
}

/// The three bytes of a pixel, from its colour after averaging over the
/// samples and gamma correction: red, green and blue, each from 0 to 255.
pub fn write_color(pixel_color: Color) -> (rgb: (u8, u8, u8))
    ensures
        rgb.0 == quantized(pixel_color.0),
        rgb.1 == quantized(pixel_color.1),
        rgb.2 == quantized(pixel_color.2),
{
    (to_byte(pixel_color.0), to_byte(pixel_color.1), to_byte(pixel_color.2))
}

/// A byte is a byte: a channel at or below zero gets 0, one at or above one
/// gets 255, and every other one something between.
pub proof fn lemma_quantized_bounds(x: Scalar)
    ensures
        0 <= quantized(x) <= 255,
        x.at_most(Scalar { bits: 0 }) ==> quantized(x) == 0,
        (Scalar { bits: ONE_BITS }).at_most(x) ==> quantized(x) == 255,
{
    let c = clamped(x, Scalar { bits: 0 }, Scalar { bits: BRIGHTEST_BITS });
    if !c.nan() {
        lemma_scaled_bounds(c);
    }
    if (Scalar { bits: ONE_BITS }).at_most(x) {
        assert(c.bits == BRIGHTEST_BITS);
        assert(exponent(c) == 1022);
        assert(mantissa(c) == 0xf_f7ce_d916_872b);
        lemma2_to64_rest();
        assert(pow2(53) == 0x20_0000_0000_0000);
        assert((0x1f_f7ce_d916_872b * 256int) / 0x20_0000_0000_0000 == 255);
    }
}

/// What is scaled from a channel in `[0, 0.999]` is a byte.
proof fn lemma_scaled_bounds(c: Scalar)
    requires
        c.magnitude() <= BRIGHTEST_BITS,
    ensures
        0 <= scaled(c) <= 255,
        c.magnitude() == 0 ==> scaled(c) == 0,
{
    let e = exponent(c);
    let m = mantissa(c);
    if e > 0 {
        let n = (1075 - e) as nat;
        lemma_pow2_pos(n);
        lemma2_to64_rest();
        if n > 53 {
            lemma_pow2_strictly_increases(53, n);
        }
        assert(pow2(n) >= 0x20_0000_0000_0000);
        assert(0 <= ((LEADING_BIT + m) * 256) / (pow2(n) as int) <= 255) by (nonlinear_arith)
            requires
                0 <= m < LEADING_BIT,
                LEADING_BIT == 0x10_0000_0000_0000,
                pow2(n) >= 0x20_0000_0000_0000,
        ;
    }
}

/// The value of a number below one that is not negative, in units of
/// `2^-1074`.
spec fn in_units(c: Scalar) -> int {
    if exponent(c) == 0 {
        mantissa(c)
    } else {
        (LEADING_BIT + mantissa(c)) * pow2((exponent(c) - 1) as nat)
    }
}

/// The integer part of 256 times a number is that of 256 times its value in
/// units, over the number of units in one.
proof fn lemma_scaled_in_units(c: Scalar)
    requires
        c.magnitude() <= BRIGHTEST_BITS,
    ensures
        scaled(c) == (in_units(c) * 256) / (pow2(1074) as int),
        0 <= in_units(c),
{
    let e = exponent(c);
    let m = mantissa(c);
    lemma_pow2_pos(1074);
    if e == 0 {
        lemma2_to64_rest();
        lemma_pow2_strictly_increases(61, 1074);
        assert((m * 256) / (pow2(1074) as int) == 0) by (nonlinear_arith)
            requires
                0 <= m * 256 < pow2(1074),
        ;
    } else {
        let k = pow2((e - 1) as nat) as int;
        let d = pow2((1075 - e) as nat) as int;
        lemma_pow2_pos((e - 1) as nat);
        lemma_pow2_pos((1075 - e) as nat);
        lemma_pow2_adds((e - 1) as nat, (1075 - e) as nat);
        assert(k * d == pow2(1074));
        let a = (LEADING_BIT + m) * 256;
        lemma_div_multiples_vanish_quotient(k, a, d);
        assert(in_units(c) * 256 == k * a) by (nonlinear_arith)
            requires
                in_units(c) == (LEADING_BIT + m) * k,
                a == (LEADING_BIT + m) * 256,
        ;
        assert(0 <= in_units(c)) by (nonlinear_arith)
            requires
                in_units(c) == (LEADING_BIT + m) * k,
                k > 0,
                m >= 0,
        ;
    }
}

/// The value in units grows with the bit pattern.
proof fn lemma_in_units_grows(c: Scalar, d: Scalar)
    requires
        c.magnitude() <= d.magnitude(),
        d.magnitude() <= BRIGHTEST_BITS,
    ensures
        in_units(c) <= in_units(d),
{
    let (e1, m1) = (exponent(c), mantissa(c));
    let (e2, m2) = (exponent(d), mantissa(d));
    assert(e1 <= e2);
    if e2 == 0 {
    } else if e1 == e2 {
        let k = pow2((e1 - 1) as nat) as int;
        lemma_pow2_pos((e1 - 1) as nat);
        assert((LEADING_BIT + m1) * k <= (LEADING_BIT + m2) * k) by (nonlinear_arith)
            requires
                m1 <= m2,
                k > 0,
        ;
    } else {
        let k2 = pow2((e2 - 1) as nat) as int;
        lemma_pow2_pos((e2 - 1) as nat);
        assert(LEADING_BIT * k2 <= (LEADING_BIT + m2) * k2) by (nonlinear_arith)
            requires
                m2 >= 0,
                k2 > 0,
        ;
        if e1 == 0 {
            assert(m1 < LEADING_BIT * k2) by (nonlinear_arith)
                requires
                    m1 < LEADING_BIT,
                    k2 >= 1,
            ;
        } else {
            let k1 = pow2((e1 - 1) as nat) as int;
            lemma_pow2_pos((e1 - 1) as nat);
            vstd::arithmetic::power2::lemma_pow2_unfold(e1 as nat);
            assert(pow2(e1 as nat) == 2 * k1);
            if e1 < e2 - 1 {
                lemma_pow2_strictly_increases(e1 as nat, (e2 - 1) as nat);
            }
            assert(2 * k1 <= k2);
            assert((LEADING_BIT + m1) * k1 <= LEADING_BIT * k2) by (nonlinear_arith)
                requires
                    0 <= m1 < LEADING_BIT,
                    2 * k1 <= k2,
                    k1 > 0,
            ;
        }
    }
}

/// The byte grows with the channel: of two channels the brighter never gets
/// the smaller byte.
pub proof fn lemma_quantized_grows(x: Scalar, y: Scalar)
    requires
        x.at_most(y),
    ensures
        quantized(x) <= quantized(y),
{
    let c = clamped(x, Scalar { bits: 0 }, Scalar { bits: BRIGHTEST_BITS });
    let d = clamped(y, Scalar { bits: 0 }, Scalar { bits: BRIGHTEST_BITS });
    assert(c.magnitude() <= d.magnitude());
    lemma_scaled_in_units(c);
    lemma_scaled_in_units(d);
    lemma_in_units_grows(c, d);
    lemma_pow2_pos(1074);
    lemma_div_is_ordered(in_units(c) * 256, in_units(d) * 256, pow2(1074) as int);
}

} // verus!
