//! IEEE 754 binary floating-point values, held by their bit patterns.
//!
//! A value of these types is the exact bit pattern of a float: sign, exponent
//! and fraction as the format lays them out. Two values are equal when their
//! bits are, so every NaN payload and the sign of zero are kept apart.

use crate::byte_image::lemma_radix_values;
use crate::endianness::ToFromBytes;
use vstd::arithmetic::power2::{
    lemma2_to64,
    lemma2_to64_rest,
    lemma_pow2_adds,
    lemma_pow2_pos,
    lemma_pow2_strictly_increases,
    pow2,
};
use vstd::bits::{lemma_u64_shl_is_mul, lemma_u64_shr_is_div};
use vstd::prelude::*;

verus! {

/// The 64-bit signed integer nearest to `number`.
pub open spec fn saturated(number: int) -> int {
    if number < i64::MIN {
        i64::MIN as int
    } else if number > i64::MAX {
        i64::MAX as int
    } else {
        number
    }
}

/// The magnitude of a finite float, rounded towards zero.
///
/// The float has the given exponent and fraction fields, in a format with
/// `fraction_bits` bits of fraction and an exponent bias of `bias`. With a
/// zero exponent field it is subnormal: the fraction alone, at the scale of
/// the smallest normal exponent. Otherwise its significand is the fraction
/// with a leading one.
pub open spec fn whole_magnitude(exponent: nat, fraction: nat, bias: nat, fraction_bits: nat) -> nat {
    let significand = if exponent == 0 {
        fraction
    } else {
        pow2(fraction_bits) + fraction
    };
    let scale = if exponent == 0 {
        1 - bias - fraction_bits
    } else {
        exponent - bias - fraction_bits
    };
    if scale >= 0 {
        significand * pow2(scale as nat)
    } else {
        significand / pow2((-scale) as nat)
    }
}

/// The 64-bit signed integer that a float turns into: its value rounded
/// towards zero, the nearest integer of the range where that lies outside it,
/// and zero for a NaN.
///
/// `top` is the exponent field of all ones, which marks an infinity (fraction
/// zero) or a NaN (any other fraction).
pub open spec fn truncated(
    negative: bool,
    exponent: nat,
    fraction: nat,
    top: nat,
    bias: nat,
    fraction_bits: nat,
) -> int {
    if exponent == top {
        if fraction != 0 {
            0
        } else if negative {
            i64::MIN as int
        } else {
            i64::MAX as int
        }
    } else {
        let magnitude = whole_magnitude(exponent, fraction, bias, fraction_bits);
        if negative {
            saturated(-magnitude)
        } else {
            saturated(magnitude as int)
        }
    }
}

/// A float below one in magnitude has no whole part.
proof fn lemma_below_one(exponent: nat, fraction: nat, bias: nat, fraction_bits: nat)
    requires
        exponent < bias,
        fraction < pow2(fraction_bits),
    ensures
        whole_magnitude(exponent, fraction, bias, fraction_bits) == 0,
{
    let down = if exponent == 0 {
        (bias + fraction_bits - 1) as nat
    } else {
        (bias + fraction_bits - exponent) as nat
    };
    let significand = if exponent == 0 {
        fraction
    } else {
        pow2(fraction_bits) + fraction
    };
    lemma_pow2_pos(down);
    lemma2_to64();
    if exponent == 0 {
        if fraction_bits < down {
            lemma_pow2_strictly_increases(fraction_bits, down);
        }
    } else {
        lemma_pow2_adds(fraction_bits, 1);
        if fraction_bits + 1 < down {
            lemma_pow2_strictly_increases(fraction_bits + 1, down);
        }
    }
    assert(significand < pow2(down));
    if down == 0 {
        assert(significand * pow2(0) == 0) by (nonlinear_arith)
            requires
                significand == 0,
        ;
    } else {
        assert(significand / pow2(down) == 0) by (nonlinear_arith)
            requires
                0 <= significand < pow2(down),
        ;
    }
}

/// The whole part of a float of at least one in magnitude lies between two
/// powers of two.
proof fn lemma_magnitude_bounds(exponent: nat, fraction: nat, bias: nat, fraction_bits: nat)
    requires
        bias <= exponent,
        0 < exponent,
        fraction < pow2(fraction_bits),
    ensures
        pow2((exponent - bias) as nat) <= whole_magnitude(exponent, fraction, bias, fraction_bits)
            < pow2((exponent - bias + 1) as nat),
{
    let power = (exponent - bias) as nat;
    let significand = pow2(fraction_bits) + fraction;
    let one = pow2(fraction_bits);
    lemma_pow2_adds(fraction_bits, 1);
    lemma2_to64();
    assert(one <= significand < 2 * one);
    if power >= fraction_bits {
        let up = (power - fraction_bits) as nat;
        let factor = pow2(up);
        lemma_pow2_pos(up);
        lemma_pow2_adds(fraction_bits, up);
        lemma_pow2_adds(power, 1);
        assert(one * factor <= significand * factor < 2 * (one * factor)) by (nonlinear_arith)
            requires
                one <= significand < 2 * one,
                factor > 0,
        ;
    } else {
        let down = (fraction_bits - power) as nat;
        let divisor = pow2(down);
        lemma_pow2_pos(down);
        lemma_pow2_adds(power, down);
        lemma_pow2_adds(power, 1);
        let low = pow2(power);
        assert(low <= significand / divisor < 2 * low) by (nonlinear_arith)
            requires
                low * divisor <= significand < 2 * (low * divisor),
                divisor > 0,
        ;
    }
}

/// The integer that a float with the given fields turns into.
fn truncate(
    negative: bool,
    exponent: u64,
    fraction: u64,
    top: u64,
    bias: u64,
    fraction_bits: u64,
) -> (whole: i64)
    requires
        0 < bias < top,
        exponent <= top,
        fraction_bits <= 52,
        fraction < pow2(fraction_bits as nat),
    ensures
        whole == truncated(
            negative,
            exponent as nat,
            fraction as nat,
            top as nat,
            bias as nat,
            fraction_bits as nat,
        ),
{
    if exponent == top {
        return if fraction != 0 {
            0
        } else if negative {
            i64::MIN
        } else {
            i64::MAX
        };
    }
    if exponent < bias {
        proof {
            lemma_below_one(exponent as nat, fraction as nat, bias as nat, fraction_bits as nat);
        }
        return 0;
    }
    let power: u64 = exponent - bias;
    proof {
        lemma_magnitude_bounds(exponent as nat, fraction as nat, bias as nat, fraction_bits as nat);
        lemma2_to64();
        lemma2_to64_rest();
        if power >= 63 {
            if power > 63 {
                lemma_pow2_strictly_increases(63, power as nat);
            }
        } else if power < 62 {
            lemma_pow2_strictly_increases((power + 1) as nat, 63);
        }
    }
    if power >= 63 {
        return if negative {
            i64::MIN
        } else {
            i64::MAX
        };
    }
    proof {
        if fraction_bits < 52 {
            lemma_pow2_strictly_increases(fraction_bits as nat, 52);
        }
        lemma_u64_shl_is_mul(1, fraction_bits);
    }
    let significand: u64 = (1u64 << fraction_bits) + fraction;
    let magnitude: u64 = if power >= fraction_bits {
        proof {
            lemma_u64_shl_is_mul(significand, (power - fraction_bits) as u64);
        }
        significand << (power - fraction_bits)
    } else {
        proof {
            lemma_u64_shr_is_div(significand, (fraction_bits - power) as u64);
        }
        significand >> (fraction_bits - power)
    };
    if negative {
        -(magnitude as i64)
    } else {
        magnitude as i64
    }
}

/// A 16-bit float in the IEEE 754 binary16 format.
#[derive(Clone, Copy, PartialEq, Eq, Debug, Structural)]
pub struct Binary16(pub u16);

impl Binary16 {
    /// The sign bit: whether the float is negative.
    pub open spec fn is_negative(self) -> bool {
        self.0 >= 0x8000
    }

    /// The exponent field: the 5 bits below the sign bit.
    pub open spec fn exponent(self) -> nat {
        (self.0 / 0x400 % 0x20) as nat
    }

    /// The fraction field: the low 10 bits.
    pub open spec fn fraction(self) -> nat {
        (self.0 % 0x400) as nat
    }

    /// The 64-bit signed integer that the float turns into: its value rounded
    /// towards zero, the nearest integer of the range for a value outside it,
    /// and zero for a NaN.
    pub open spec fn whole(self) -> int {
        truncated(self.is_negative(), self.exponent(), self.fraction(), 31, 15, 10)
    }

    /// The float as a 64-bit signed integer, rounded towards zero.
    pub fn to_i64(self) -> (whole: i64)
        ensures
            whole == self.whole(),
    {
        let bits: u16 = self.0;
        let negative: bool = bits >> 15 == 1;
        let exponent: u16 = bits >> 10 & 0x1f;
        let fraction: u16 = bits & 0x3ff;
        proof {
            assert(negative == (bits >= 0x8000) && exponent == bits / 0x400 % 0x20 && fraction
                == bits % 0x400) by (bit_vector)
                requires
                    negative == (bits >> 15 == 1),
                    exponent == bits >> 10 & 0x1f,
                    fraction == bits & 0x3ff,
            ;
            lemma2_to64();
            lemma2_to64_rest();
        }
        truncate(negative, exponent as u64, fraction as u64, 31, 15, 10)
    }
}

impl ToFromBytes<2> for Binary16 {
    open spec fn bits(&self) -> nat {
        self.0 as nat
    }

    proof fn lemma_width() {
    }

    proof fn lemma_bits_fit(&self) {
        lemma_radix_values();
    }

    proof fn lemma_bits_identify(&self, other: &Self) {
    }

    fn from_le(array: &[u8; 2]) -> (value: Self) {
        Binary16(<u16 as ToFromBytes<2>>::from_le(array))
    }

    fn from_be(array: &[u8; 2]) -> (value: Self) {
        Binary16(<u16 as ToFromBytes<2>>::from_be(array))
    }

    fn to_le(&self) -> (array: [u8; 2]) {
        <u16 as ToFromBytes<2>>::to_le(&self.0)
    }

    fn to_be(&self) -> (array: [u8; 2]) {
        <u16 as ToFromBytes<2>>::to_be(&self.0)
    }
}

/// A 32-bit float in the IEEE 754 binary32 format.
#[derive(Clone, Copy, PartialEq, Eq, Debug, Structural)]
pub struct Binary32(pub u32);

impl Binary32 {
    /// The sign bit: whether the float is negative.
    pub open spec fn is_negative(self) -> bool {
        self.0 >= 0x8000_0000
    }

    /// The exponent field: the 8 bits below the sign bit.
    pub open spec fn exponent(self) -> nat {
        (self.0 / 0x80_0000 % 0x100) as nat
    }

    /// The fraction field: the low 23 bits.
    pub open spec fn fraction(self) -> nat {
        (self.0 % 0x80_0000) as nat
    }

    /// The 64-bit signed integer that the float turns into: its value rounded
    /// towards zero, the nearest integer of the range for a value outside it,
    /// and zero for a NaN.
    pub open spec fn whole(self) -> int {
        truncated(self.is_negative(), self.exponent(), self.fraction(), 255, 127, 23)
    }

    /// The float as a 64-bit signed integer, rounded towards zero.
    pub fn to_i64(self) -> (whole: i64)
        ensures
            whole == self.whole(),
    {
        let bits: u32 = self.0;
        let negative: bool = bits >> 31 == 1;
        let exponent: u32 = bits >> 23 & 0xff;
        let fraction: u32 = bits & 0x7f_ffff;
        proof {
            assert(negative == (bits >= 0x8000_0000) && exponent == bits / 0x80_0000 % 0x100 && fraction
                == bits % 0x80_0000) by (bit_vector)
                requires
                    negative == (bits >> 31 == 1),
                    exponent == bits >> 23 & 0xff,
                    fraction == bits & 0x7f_ffff,
            ;
            lemma2_to64();
            lemma2_to64_rest();
        }
        truncate(negative, exponent as u64, fraction as u64, 255, 127, 23)
    }
}

impl ToFromBytes<4> for Binary32 {
    open spec fn bits(&self) -> nat {
        self.0 as nat
    }

    proof fn lemma_width() {
    }

    proof fn lemma_bits_fit(&self) {
        lemma_radix_values();
    }

    proof fn lemma_bits_identify(&self, other: &Self) {
    }

    fn from_le(array: &[u8; 4]) -> (value: Self) {
        Binary32(<u32 as ToFromBytes<4>>::from_le(array))
    }

    fn from_be(array: &[u8; 4]) -> (value: Self) {
        Binary32(<u32 as ToFromBytes<4>>::from_be(array))
    }

    fn to_le(&self) -> (array: [u8; 4]) {
        <u32 as ToFromBytes<4>>::to_le(&self.0)
    }

    fn to_be(&self) -> (array: [u8; 4]) {
        <u32 as ToFromBytes<4>>::to_be(&self.0)
    }
}

/// A 64-bit float in the IEEE 754 binary64 format.
#[derive(Clone, Copy, PartialEq, Eq, Debug, Structural)]
pub struct Binary64(pub u64);

impl Binary64 {
    /// The sign bit: whether the float is negative.
    pub open spec fn is_negative(self) -> bool {
        self.0 >= 0x8000_0000_0000_0000
    }

    /// The exponent field: the 11 bits below the sign bit.
    pub open spec fn exponent(self) -> nat {
        (self.0 / 0x10_0000_0000_0000 % 0x800) as nat
    }

    /// The fraction field: the low 52 bits.
    pub open spec fn fraction(self) -> nat {
        (self.0 % 0x10_0000_0000_0000) as nat
    }

    /// The 64-bit signed integer that the float turns into: its value rounded
    /// towards zero, the nearest integer of the range for a value outside it,
    /// and zero for a NaN.
    pub open spec fn whole(self) -> int {
        truncated(self.is_negative(), self.exponent(), self.fraction(), 2047, 1023, 52)
    }

    /// The float as a 64-bit signed integer, rounded towards zero.
    pub fn to_i64(self) -> (whole: i64)
        ensures
            whole == self.whole(),
    {
        let bits: u64 = self.0;
        let negative: bool = bits >> 63 == 1;
        let exponent: u64 = bits >> 52 & 0x7ff;
        let fraction: u64 = bits & 0xf_ffff_ffff_ffff;
        proof {
            assert(negative == (bits >= 0x8000_0000_0000_0000) && exponent == bits / 0x10_0000_0000_0000 % 0x800 && fraction
                == bits % 0x10_0000_0000_0000) by (bit_vector)
                requires
                    negative == (bits >> 63 == 1),
                    exponent == bits >> 52 & 0x7ff,
                    fraction == bits & 0xf_ffff_ffff_ffff,
            ;
            lemma2_to64();
            lemma2_to64_rest();
        }
        truncate(negative, exponent as u64, fraction as u64, 2047, 1023, 52)
    }
}

impl ToFromBytes<8> for Binary64 {
    open spec fn bits(&self) -> nat {
        self.0 as nat
    }

    proof fn lemma_width() {
    }

    proof fn lemma_bits_fit(&self) {
        lemma_radix_values();
    }

    proof fn lemma_bits_identify(&self, other: &Self) {
    }

    fn from_le(array: &[u8; 8]) -> (value: Self) {
        Binary64(<u64 as ToFromBytes<8>>::from_le(array))
    }

    fn from_be(array: &[u8; 8]) -> (value: Self) {
        Binary64(<u64 as ToFromBytes<8>>::from_be(array))
    }

    fn to_le(&self) -> (array: [u8; 8]) {
        <u64 as ToFromBytes<8>>::to_le(&self.0)
    }

    fn to_be(&self) -> (array: [u8; 8]) {
        <u64 as ToFromBytes<8>>::to_be(&self.0)
    }
}

} // verus!
