//! Conversion between single values and their fixed-width byte images.

use crate::byte_image::{
    be_bytes,
    be_value,
    chunk,
    le_bytes,
    le_value,
    lemma_images_of_1,
    lemma_images_of_2,
    lemma_images_of_4,
    lemma_images_of_8,
    lemma_radix_values,
    lemma_value_of_image,
    packed,
    radix,
    unpacked,
    wire_bytes,
    wire_value,
};
use crate::error::TypedArrayError;
use crate::typed_array_tag::Endianness;
use vstd::prelude::*;

verus! {

/// A value with a binary representation of exactly `C` bytes.
pub trait ToFromBytes<const C: usize>: Sized {
    /// The value's binary representation, read as an unsigned number: two's
    /// complement for a signed integer.
    spec fn bits(&self) -> nat;

    /// A value takes at least one byte.
    proof fn lemma_width()
        ensures
            0 < C,
    ;

    /// The representation fits in `C` bytes.
    proof fn lemma_bits_fit(&self)
        ensures
            self.bits() < radix(C as nat),
    ;

    /// Values with one representation are one value.
    proof fn lemma_bits_identify(&self, other: &Self)
        requires
            self.bits() == other.bits(),
        ensures
            self == other,
    ;

    /// The value that `array` is the little-endian image of.
    fn from_le(array: &[u8; C]) -> (value: Self)
        ensures
            value.bits() == le_value(array@),
    ;

    /// The value that `array` is the big-endian image of.
    fn from_be(array: &[u8; C]) -> (value: Self)
        ensures
            value.bits() == be_value(array@),
    ;

    /// The value's bytes, least significant first.
    fn to_le(&self) -> (array: [u8; C])
        ensures
            array@ == le_bytes(self.bits(), C as nat),
    ;

    /// The value's bytes, most significant first.
    fn to_be(&self) -> (array: [u8; C])
        ensures
            array@ == be_bytes(self.bits(), C as nat),
    ;
}

/// The representations of `values`, in order.
pub open spec fn bits_of<const C: usize, T: ToFromBytes<C>>(values: Seq<T>) -> Seq<nat> {
    Seq::new(values.len(), |index: int| values[index].bits())
}

/// A value read back from its own image, in either byte order, is the value.
pub proof fn lemma_read_back<const C: usize, T: ToFromBytes<C>>(
    value: &T,
    back: &T,
    endianness: Endianness,
)
    requires
        back.bits() == wire_value(wire_bytes(value.bits(), C as nat, endianness), endianness),
    ensures
        back == value,
{
    value.lemma_bits_fit();
    lemma_value_of_image(value.bits(), C as nat, endianness);
    back.lemma_bits_identify(value);
}

/// A configuration that knows the byte order to write in.
pub trait EndiannessAware {
    /// The byte order that this configuration asks for.
    spec fn endianness(&self) -> Endianness;

    /// The byte order to write in.
    fn desired_endianness(&self) -> (endianness: Endianness)
        ensures
            endianness == self.endianness(),
    ;

    /// The payload of `array`: the image of each value in the desired byte
    /// order, in the order of the array, with nothing between them.
    fn to_vec8<const C: usize, T: ToFromBytes<C>>(&self, array: &[T]) -> (bytes: Vec<u8>)
        ensures
            bytes@ == packed(bits_of(array@), C as nat, self.endianness()),
    ;
}

impl ToFromBytes<1> for u8 {
    open spec fn bits(&self) -> nat {
        *self as nat
    }

    proof fn lemma_width() {
    }

    proof fn lemma_bits_fit(&self) {
        lemma_radix_values();
    }

    proof fn lemma_bits_identify(&self, other: &Self) {
    }

    fn from_le(array: &[u8; 1]) -> (value: Self) {
        let value: u8 = array[0];
        proof {
            lemma_images_of_1(value as nat);
            assert(array@ =~= seq![value]);
        }
        value
    }

    fn from_be(array: &[u8; 1]) -> (value: Self) {
        let value: u8 = array[0];
        proof {
            lemma_images_of_1(value as nat);
            assert(array@ =~= seq![value]);
        }
        value
    }

    fn to_le(&self) -> (array: [u8; 1]) {
        let array: [u8; 1] = [*self];
        proof {
            lemma_images_of_1(*self as nat);
            assert(array@ =~= seq![*self]);
        }
        array
    }

    fn to_be(&self) -> (array: [u8; 1]) {
        let array: [u8; 1] = [*self];
        proof {
            lemma_images_of_1(*self as nat);
            assert(array@ =~= seq![*self]);
        }
        array
    }
}

/// The two digits of a 16-bit number, by shifts and by division.
proof fn lemma_u16_digits(x: u16)
    by (bit_vector)
    ensures
        x & 0xff == x % 0x100,
        x >> 8 == x / 0x100 % 0x100,
{
}

/// The digits of the 16-bit number made of two bytes.
proof fn lemma_u16_joined(x: u16, b0: u8, b1: u8)
    by (bit_vector)
    requires
        x == b0 as u16 | (b1 as u16) << 8,
    ensures
        x % 0x100 == b0,
        x / 0x100 % 0x100 == b1,
{
}

impl ToFromBytes<2> for u16 {
    open spec fn bits(&self) -> nat {
        *self as nat
    }

    proof fn lemma_width() {
    }

    proof fn lemma_bits_fit(&self) {
        lemma_radix_values();
    }

    proof fn lemma_bits_identify(&self, other: &Self) {
    }

    fn from_le(array: &[u8; 2]) -> (value: Self) {
        let b0: u8 = array[0];
        let b1: u8 = array[1];
        let value: u16 = b0 as u16 | (b1 as u16) << 8;
        proof {
            lemma_u16_joined(value, b0, b1);
            lemma_images_of_2(value as nat, b0, b1);
            assert(array@ =~= seq![b0, b1]);
        }
        value
    }

    fn from_be(array: &[u8; 2]) -> (value: Self) {
        let b0: u8 = array[1];
        let b1: u8 = array[0];
        let value: u16 = b0 as u16 | (b1 as u16) << 8;
        proof {
            lemma_u16_joined(value, b0, b1);
            lemma_images_of_2(value as nat, b0, b1);
            assert(array@ =~= seq![b1, b0]);
        }
        value
    }

    fn to_le(&self) -> (array: [u8; 2]) {
        let x: u16 = *self;
        let b0: u8 = (x & 0xff) as u8;
        let b1: u8 = (x >> 8) as u8;
        let array: [u8; 2] = [b0, b1];
        proof {
            lemma_u16_digits(x);
            lemma_images_of_2(x as nat, b0, b1);
            assert(array@ =~= seq![b0, b1]);
        }
        array
    }

    fn to_be(&self) -> (array: [u8; 2]) {
        let x: u16 = *self;
        let b0: u8 = (x & 0xff) as u8;
        let b1: u8 = (x >> 8) as u8;
        let array: [u8; 2] = [b1, b0];
        proof {
            lemma_u16_digits(x);
            lemma_images_of_2(x as nat, b0, b1);
            assert(array@ =~= seq![b1, b0]);
        }
        array
    }
}

/// The four digits of a 32-bit number, by shifts and by division.
proof fn lemma_u32_digits(x: u32)
    by (bit_vector)
    ensures
        x & 0xff == x % 0x100,
        x >> 8 & 0xff == x / 0x100 % 0x100,
        x >> 16 & 0xff == x / 0x1_0000 % 0x100,
        x >> 24 == x / 0x100_0000 % 0x100,
{
}

/// The digits of the 32-bit number made of four bytes.
proof fn lemma_u32_joined(x: u32, b0: u8, b1: u8, b2: u8, b3: u8)
    by (bit_vector)
    requires
        x == b0 as u32 | (b1 as u32) << 8 | (b2 as u32) << 16 | (b3 as u32) << 24,
    ensures
        x % 0x100 == b0,
        x / 0x100 % 0x100 == b1,
        x / 0x1_0000 % 0x100 == b2,
        x / 0x100_0000 % 0x100 == b3,
{
}

impl ToFromBytes<4> for u32 {
    open spec fn bits(&self) -> nat {
        *self as nat
    }

    proof fn lemma_width() {
    }

    proof fn lemma_bits_fit(&self) {
        lemma_radix_values();
    }

    proof fn lemma_bits_identify(&self, other: &Self) {
    }

    fn from_le(array: &[u8; 4]) -> (value: Self) {
        let b0: u8 = array[0];
        let b1: u8 = array[1];
        let b2: u8 = array[2];
        let b3: u8 = array[3];
        let value: u32 = b0 as u32 | (b1 as u32) << 8 | (b2 as u32) << 16 | (b3 as u32) << 24;
        proof {
            lemma_u32_joined(value, b0, b1, b2, b3);
            lemma_images_of_4(value as nat, b0, b1, b2, b3);
            assert(array@ =~= seq![b0, b1, b2, b3]);
        }
        value
    }

    fn from_be(array: &[u8; 4]) -> (value: Self) {
        let b0: u8 = array[3];
        let b1: u8 = array[2];
        let b2: u8 = array[1];
        let b3: u8 = array[0];
        let value: u32 = b0 as u32 | (b1 as u32) << 8 | (b2 as u32) << 16 | (b3 as u32) << 24;
        proof {
            lemma_u32_joined(value, b0, b1, b2, b3);
            lemma_images_of_4(value as nat, b0, b1, b2, b3);
            assert(array@ =~= seq![b3, b2, b1, b0]);
        }
        value
    }

    fn to_le(&self) -> (array: [u8; 4]) {
        let x: u32 = *self;
        let b0: u8 = (x & 0xff) as u8;
        let b1: u8 = (x >> 8 & 0xff) as u8;
        let b2: u8 = (x >> 16 & 0xff) as u8;
        let b3: u8 = (x >> 24) as u8;
        let array: [u8; 4] = [b0, b1, b2, b3];
        proof {
            lemma_u32_digits(x);
            lemma_images_of_4(x as nat, b0, b1, b2, b3);
            assert(array@ =~= seq![b0, b1, b2, b3]);
        }
        array
    }

    fn to_be(&self) -> (array: [u8; 4]) {
        let x: u32 = *self;
        let b0: u8 = (x & 0xff) as u8;
        let b1: u8 = (x >> 8 & 0xff) as u8;
        let b2: u8 = (x >> 16 & 0xff) as u8;
        let b3: u8 = (x >> 24) as u8;
        let array: [u8; 4] = [b3, b2, b1, b0];
        proof {
            lemma_u32_digits(x);
            lemma_images_of_4(x as nat, b0, b1, b2, b3);
            assert(array@ =~= seq![b3, b2, b1, b0]);
        }
        array
    }
}

/// The eight digits of a 64-bit number, by shifts and by division.
proof fn lemma_u64_digits(x: u64)
    by (bit_vector)
    ensures
        x & 0xff == x % 0x100,
        x >> 8 & 0xff == x / 0x100 % 0x100,
        x >> 16 & 0xff == x / 0x1_0000 % 0x100,
        x >> 24 & 0xff == x / 0x100_0000 % 0x100,
        x >> 32 & 0xff == x / 0x1_0000_0000 % 0x100,
        x >> 40 & 0xff == x / 0x100_0000_0000 % 0x100,
        x >> 48 & 0xff == x / 0x1_0000_0000_0000 % 0x100,
        x >> 56 == x / 0x100_0000_0000_0000 % 0x100,
{
}

/// The digits of the 64-bit number made of eight bytes.
proof fn lemma_u64_joined(x: u64, b0: u8, b1: u8, b2: u8, b3: u8, b4: u8, b5: u8, b6: u8, b7: u8)
    by (bit_vector)
    requires
        x == b0 as u64 | (b1 as u64) << 8 | (b2 as u64) << 16 | (b3 as u64) << 24 | (b4 as u64) << 32 | (b5 as u64) << 40 | (b6 as u64) << 48 | (b7 as u64) << 56,
    ensures
        x % 0x100 == b0,
        x / 0x100 % 0x100 == b1,
        x / 0x1_0000 % 0x100 == b2,
        x / 0x100_0000 % 0x100 == b3,
        x / 0x1_0000_0000 % 0x100 == b4,
        x / 0x100_0000_0000 % 0x100 == b5,
        x / 0x1_0000_0000_0000 % 0x100 == b6,
        x / 0x100_0000_0000_0000 % 0x100 == b7,
{
}

impl ToFromBytes<8> for u64 {
    open spec fn bits(&self) -> nat {
        *self as nat
    }

    proof fn lemma_width() {
    }

    proof fn lemma_bits_fit(&self) {
        lemma_radix_values();
    }

    proof fn lemma_bits_identify(&self, other: &Self) {
    }

    fn from_le(array: &[u8; 8]) -> (value: Self) {
        let b0: u8 = array[0];
        let b1: u8 = array[1];
        let b2: u8 = array[2];
        let b3: u8 = array[3];
        let b4: u8 = array[4];
        let b5: u8 = array[5];
        let b6: u8 = array[6];
        let b7: u8 = array[7];
        let value: u64 = b0 as u64 | (b1 as u64) << 8 | (b2 as u64) << 16 | (b3 as u64) << 24 | (b4 as u64) << 32 | (b5 as u64) << 40 | (b6 as u64) << 48 | (b7 as u64) << 56;
        proof {
            lemma_u64_joined(value, b0, b1, b2, b3, b4, b5, b6, b7);
            lemma_images_of_8(value as nat, b0, b1, b2, b3, b4, b5, b6, b7);
            assert(array@ =~= seq![b0, b1, b2, b3, b4, b5, b6, b7]);
        }
        value
    }

    fn from_be(array: &[u8; 8]) -> (value: Self) {
        let b0: u8 = array[7];
        let b1: u8 = array[6];
        let b2: u8 = array[5];
        let b3: u8 = array[4];
        let b4: u8 = array[3];
        let b5: u8 = array[2];
        let b6: u8 = array[1];
        let b7: u8 = array[0];
        let value: u64 = b0 as u64 | (b1 as u64) << 8 | (b2 as u64) << 16 | (b3 as u64) << 24 | (b4 as u64) << 32 | (b5 as u64) << 40 | (b6 as u64) << 48 | (b7 as u64) << 56;
        proof {
            lemma_u64_joined(value, b0, b1, b2, b3, b4, b5, b6, b7);
            lemma_images_of_8(value as nat, b0, b1, b2, b3, b4, b5, b6, b7);
            assert(array@ =~= seq![b7, b6, b5, b4, b3, b2, b1, b0]);
        }
        value
    }

    fn to_le(&self) -> (array: [u8; 8]) {
        let x: u64 = *self;
        let b0: u8 = (x & 0xff) as u8;
        let b1: u8 = (x >> 8 & 0xff) as u8;
        let b2: u8 = (x >> 16 & 0xff) as u8;
        let b3: u8 = (x >> 24 & 0xff) as u8;
        let b4: u8 = (x >> 32 & 0xff) as u8;
        let b5: u8 = (x >> 40 & 0xff) as u8;
        let b6: u8 = (x >> 48 & 0xff) as u8;
        let b7: u8 = (x >> 56) as u8;
        let array: [u8; 8] = [b0, b1, b2, b3, b4, b5, b6, b7];
        proof {
            lemma_u64_digits(x);
            lemma_images_of_8(x as nat, b0, b1, b2, b3, b4, b5, b6, b7);
            assert(array@ =~= seq![b0, b1, b2, b3, b4, b5, b6, b7]);
        }
        array
    }

    fn to_be(&self) -> (array: [u8; 8]) {
        let x: u64 = *self;
        let b0: u8 = (x & 0xff) as u8;
        let b1: u8 = (x >> 8 & 0xff) as u8;
        let b2: u8 = (x >> 16 & 0xff) as u8;
        let b3: u8 = (x >> 24 & 0xff) as u8;
        let b4: u8 = (x >> 32 & 0xff) as u8;
        let b5: u8 = (x >> 40 & 0xff) as u8;
        let b6: u8 = (x >> 48 & 0xff) as u8;
        let b7: u8 = (x >> 56) as u8;
        let array: [u8; 8] = [b7, b6, b5, b4, b3, b2, b1, b0];
        proof {
            lemma_u64_digits(x);
            lemma_images_of_8(x as nat, b0, b1, b2, b3, b4, b5, b6, b7);
            assert(array@ =~= seq![b7, b6, b5, b4, b3, b2, b1, b0]);
        }
        array
    }
}

/// A 8-bit signed integer and the unsigned integer with the same bits.
proof fn lemma_i8_bits(signed: i8, unsigned: u8)
    by (bit_vector)
    requires
        unsigned == signed as u8 || signed == unsigned as i8,
    ensures
        signed < 0 ==> unsigned == signed + 0x100,
        signed >= 0 ==> unsigned == signed,
{
}

impl ToFromBytes<1> for i8 {
    open spec fn bits(&self) -> nat {
        if *self < 0 {
            (*self + 0x100) as nat
        } else {
            *self as nat
        }
    }

    proof fn lemma_width() {
    }

    proof fn lemma_bits_fit(&self) {
        lemma_radix_values();
    }

    proof fn lemma_bits_identify(&self, other: &Self) {
    }

    fn from_le(array: &[u8; 1]) -> (value: Self) {
        let unsigned: u8 = <u8 as ToFromBytes<1>>::from_le(array);
        let value: i8 = unsigned as i8;
        proof {
            lemma_i8_bits(value, unsigned);
        }
        value
    }

    fn from_be(array: &[u8; 1]) -> (value: Self) {
        let unsigned: u8 = <u8 as ToFromBytes<1>>::from_be(array);
        let value: i8 = unsigned as i8;
        proof {
            lemma_i8_bits(value, unsigned);
        }
        value
    }

    fn to_le(&self) -> (array: [u8; 1]) {
        let unsigned: u8 = *self as u8;
        proof {
            lemma_i8_bits(*self, unsigned);
        }
        <u8 as ToFromBytes<1>>::to_le(&unsigned)
    }

    fn to_be(&self) -> (array: [u8; 1]) {
        let unsigned: u8 = *self as u8;
        proof {
            lemma_i8_bits(*self, unsigned);
        }
        <u8 as ToFromBytes<1>>::to_be(&unsigned)
    }
}

/// A 16-bit signed integer and the unsigned integer with the same bits.
proof fn lemma_i16_bits(signed: i16, unsigned: u16)
    by (bit_vector)
    requires
        unsigned == signed as u16 || signed == unsigned as i16,
    ensures
        signed < 0 ==> unsigned == signed + 0x1_0000,
        signed >= 0 ==> unsigned == signed,
{
}

impl ToFromBytes<2> for i16 {
    open spec fn bits(&self) -> nat {
        if *self < 0 {
            (*self + 0x1_0000) as nat
        } else {
            *self as nat
        }
    }

    proof fn lemma_width() {
    }

    proof fn lemma_bits_fit(&self) {
        lemma_radix_values();
    }

    proof fn lemma_bits_identify(&self, other: &Self) {
    }

    fn from_le(array: &[u8; 2]) -> (value: Self) {
        let unsigned: u16 = <u16 as ToFromBytes<2>>::from_le(array);
        let value: i16 = unsigned as i16;
        proof {
            lemma_i16_bits(value, unsigned);
        }
        value
    }

    fn from_be(array: &[u8; 2]) -> (value: Self) {
        let unsigned: u16 = <u16 as ToFromBytes<2>>::from_be(array);
        let value: i16 = unsigned as i16;
        proof {
            lemma_i16_bits(value, unsigned);
        }
        value
    }

    fn to_le(&self) -> (array: [u8; 2]) {
        let unsigned: u16 = *self as u16;
        proof {
            lemma_i16_bits(*self, unsigned);
        }
        <u16 as ToFromBytes<2>>::to_le(&unsigned)
    }

    fn to_be(&self) -> (array: [u8; 2]) {
        let unsigned: u16 = *self as u16;
        proof {
            lemma_i16_bits(*self, unsigned);
        }
        <u16 as ToFromBytes<2>>::to_be(&unsigned)
    }
}

/// A 32-bit signed integer and the unsigned integer with the same bits.
proof fn lemma_i32_bits(signed: i32, unsigned: u32)
    by (bit_vector)
    requires
        unsigned == signed as u32 || signed == unsigned as i32,
    ensures
        signed < 0 ==> unsigned == signed + 0x1_0000_0000,
        signed >= 0 ==> unsigned == signed,
{
}

impl ToFromBytes<4> for i32 {
    open spec fn bits(&self) -> nat {
        if *self < 0 {
            (*self + 0x1_0000_0000) as nat
        } else {
            *self as nat
        }
    }

    proof fn lemma_width() {
    }

    proof fn lemma_bits_fit(&self) {
        lemma_radix_values();
    }

    proof fn lemma_bits_identify(&self, other: &Self) {
    }

    fn from_le(array: &[u8; 4]) -> (value: Self) {
        let unsigned: u32 = <u32 as ToFromBytes<4>>::from_le(array);
        let value: i32 = unsigned as i32;
        proof {
            lemma_i32_bits(value, unsigned);
        }
        value
    }

    fn from_be(array: &[u8; 4]) -> (value: Self) {
        let unsigned: u32 = <u32 as ToFromBytes<4>>::from_be(array);
        let value: i32 = unsigned as i32;
        proof {
            lemma_i32_bits(value, unsigned);
        }
        value
    }

    fn to_le(&self) -> (array: [u8; 4]) {
        let unsigned: u32 = *self as u32;
        proof {
            lemma_i32_bits(*self, unsigned);
        }
        <u32 as ToFromBytes<4>>::to_le(&unsigned)
    }

    fn to_be(&self) -> (array: [u8; 4]) {
        let unsigned: u32 = *self as u32;
        proof {
            lemma_i32_bits(*self, unsigned);
        }
        <u32 as ToFromBytes<4>>::to_be(&unsigned)
    }
}

/// A 64-bit signed integer and the unsigned integer with the same bits.
proof fn lemma_i64_bits(signed: i64, unsigned: u64)
    by (bit_vector)
    requires
        unsigned == signed as u64 || signed == unsigned as i64,
    ensures
        signed < 0 ==> unsigned == signed + 0x1_0000_0000_0000_0000,
        signed >= 0 ==> unsigned == signed,
{
}

impl ToFromBytes<8> for i64 {
    open spec fn bits(&self) -> nat {
        if *self < 0 {
            (*self + 0x1_0000_0000_0000_0000) as nat
        } else {
            *self as nat
        }
    }

    proof fn lemma_width() {
    }

    proof fn lemma_bits_fit(&self) {
        lemma_radix_values();
    }

    proof fn lemma_bits_identify(&self, other: &Self) {
    }

    fn from_le(array: &[u8; 8]) -> (value: Self) {
        let unsigned: u64 = <u64 as ToFromBytes<8>>::from_le(array);
        let value: i64 = unsigned as i64;
        proof {
            lemma_i64_bits(value, unsigned);
        }
        value
    }

    fn from_be(array: &[u8; 8]) -> (value: Self) {
        let unsigned: u64 = <u64 as ToFromBytes<8>>::from_be(array);
        let value: i64 = unsigned as i64;
        proof {
            lemma_i64_bits(value, unsigned);
        }
        value
    }

    fn to_le(&self) -> (array: [u8; 8]) {
        let unsigned: u64 = *self as u64;
        proof {
            lemma_i64_bits(*self, unsigned);
        }
        <u64 as ToFromBytes<8>>::to_le(&unsigned)
    }

    fn to_be(&self) -> (array: [u8; 8]) {
        let unsigned: u64 = *self as u64;
        proof {
            lemma_i64_bits(*self, unsigned);
        }
        <u64 as ToFromBytes<8>>::to_be(&unsigned)
    }
}

/// The `C` bytes of `array` that start at `start`.
fn chunk_at<const C: usize>(array: &[u8], start: usize) -> (piece: [u8; C])
    requires
        start + C <= array.len(),
    ensures
        piece@ == array@.subrange(start as int, start + C),
{
    let mut piece: [u8; C] = [0u8; C];
    let mut offset: usize = 0;
    while offset < C
        invariant
            offset <= C,
            start + C <= array.len(),
            forall|index: int| 0 <= index < offset ==> piece@[index] == array@[start + index],
        decreases C - offset,
    {
        piece[offset] = array[start + offset];
        offset += 1;
    }
    assert(piece@ =~= array@.subrange(start as int, start + C));
    piece
}

/// The values of a payload: one for each chunk of `C` bytes, in order, each
/// read in the given byte order. A payload that does not end on a chunk
/// boundary is refused as truncated, whatever its whole chunks hold.
pub fn unpack<const C: usize, T: ToFromBytes<C>>(array: &[u8], endianness: &Endianness) -> (values:
    Result<Vec<T>, TypedArrayError>)
    ensures
        0 < C,
        array.len() % C != 0 ==> values == Err::<Vec<T>, _>(TypedArrayError::TruncatedInput),
        array.len() % C == 0 ==> values is Ok && bits_of(values->Ok_0@) == unpacked(
            array@,
            C as nat,
            *endianness,
        ),
{
    proof {
        T::lemma_width();
    }
    let len: usize = array.len();
    if len % C != 0 {
        return Err(TypedArrayError::TruncatedInput);
    }
    let mut values: Vec<T> = Vec::new();
    let mut start: usize = 0;
    assert(values.len() * C == 0) by (nonlinear_arith)
        requires
            values.len() == 0,
    ;
    while len - start >= C
        invariant
            0 < C,
            len == array.len(),
            start <= len,
            len % C == 0,
            start == values.len() * C,
            forall|index: int|
                0 <= index < values.len() ==> (#[trigger] values[index]).bits() == wire_value(
                    chunk(array@, C as nat, index),
                    *endianness,
                ),
        decreases len - start,
    {
        let piece: [u8; C] = chunk_at::<C>(array, start);
        let value: T = match endianness {
            Endianness::BigEndian => T::from_be(&piece),
            Endianness::LittleEndian => T::from_le(&piece),
        };
        values.push(value);
        assert(start + C == values.len() * C) by (nonlinear_arith)
            requires
                start == (values.len() - 1) * C,
        ;
        start += C;
    }
    proof {
        let count = values.len() as int;
        let whole = len as int / C as int;
        assert(len as int == C * whole) by {
            vstd::arithmetic::div_mod::lemma_fundamental_div_mod(len as int, C as int);
        }
        assert(count == whole) by (nonlinear_arith)
            requires
                0 < C,
                start == count * C,
                len == C * whole,
                start <= len,
                len - start < C,
        ;
        assert(bits_of(values@) =~= unpacked(array@, C as nat, *endianness));
    }
    Ok(values)
}

} // verus!
