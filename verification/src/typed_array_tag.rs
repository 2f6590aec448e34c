//! The tag of a typed array: one number for element type and byte order.
//!
//! Bits 5 to 7 hold the fixed header `010`, bit 4 the class (integer or
//! float), bit 3 the signedness, bit 2 the byte order, bits 0 and 1 the length
//! code. The tags of all element types and byte orders lie from 64 to 87; the
//! two float tags with length code 3 are reserved and name no type.

use crate::error::TypedArrayError;
use vstd::prelude::*;

verus! {

/// Lowest tag of the typed-array block.
pub const FIRST_TAG: u64 = 64;

/// Highest tag of the typed-array block.
pub const LAST_TAG: u64 = 87;

const INTEGER: u64 = 0;

const FLOAT: u64 = 1;

const UNSIGNED: u64 = 0;

const SIGNED: u64 = 1;

/// Byte order of every element of a payload.
#[derive(Clone, Copy, PartialEq, Eq, Debug, Structural)]
pub enum Endianness {
    BigEndian,
    LittleEndian,
}

/// Width of a float element.
#[derive(Clone, Copy, PartialEq, Eq, Debug, Structural)]
pub enum FloatLength {
    F16,
    F32,
    F64,
}

/// Width of an integer element.
#[derive(Clone, Copy, PartialEq, Eq, Debug, Structural)]
pub enum IntegerLength {
    I8,
    I16,
    I32,
    I64,
}

/// Element type of an array: class, signedness and width in one value.
#[derive(Clone, Copy, PartialEq, Eq, Debug, Structural)]
pub enum ArrayTypeLength {
    Float(FloatLength),
    UInt(IntegerLength),
    SInt(IntegerLength),
}

impl Endianness {
    /// Bit 2 of the tag: 0 for big endian, 1 for little endian.
    pub open spec fn bit(self) -> nat {
        match self {
            Endianness::BigEndian => 0,
            Endianness::LittleEndian => 1,
        }
    }

    /// The bit of the byte order, as a number to shift into its place.
    fn code(self) -> (c: u64)
        ensures
            c == self.bit(),
    {
        match self {
            Endianness::BigEndian => 0,
            Endianness::LittleEndian => 1,
        }
    }
}

impl FloatLength {
    /// Bits 0 and 1 of the tag: 0, 1, 2 for 16, 32, 64 bits.
    pub open spec fn length_code(self) -> nat {
        match self {
            FloatLength::F16 => 0,
            FloatLength::F32 => 1,
            FloatLength::F64 => 2,
        }
    }

    /// The number of bytes of one element: 2, 4 or 8.
    pub open spec fn width(self) -> nat {
        match self {
            FloatLength::F16 => 2,
            FloatLength::F32 => 4,
            FloatLength::F64 => 8,
        }
    }

    /// The length code, as a number to put into the tag.
    fn code(self) -> (c: u64)
        ensures
            c == self.length_code(),
    {
        match self {
            FloatLength::F16 => 0,
            FloatLength::F32 => 1,
            FloatLength::F64 => 2,
        }
    }
}

impl IntegerLength {
    /// Bits 0 and 1 of the tag: 0, 1, 2, 3 for 1, 2, 4, 8 bytes.
    pub open spec fn length_code(self) -> nat {
        match self {
            IntegerLength::I8 => 0,
            IntegerLength::I16 => 1,
            IntegerLength::I32 => 2,
            IntegerLength::I64 => 3,
        }
    }

    /// The number of bytes of one element: 1, 2, 4 or 8.
    pub open spec fn width(self) -> nat {
        match self {
            IntegerLength::I8 => 1,
            IntegerLength::I16 => 2,
            IntegerLength::I32 => 4,
            IntegerLength::I64 => 8,
        }
    }

    /// The length code, as a number to put into the tag.
    fn code(self) -> (c: u64)
        ensures
            c == self.length_code(),
    {
        match self {
            IntegerLength::I8 => 0,
            IntegerLength::I16 => 1,
            IntegerLength::I32 => 2,
            IntegerLength::I64 => 3,
        }
    }
}

impl ArrayTypeLength {
    /// Bit 4 of the tag: 0 for an integer, 1 for a float.
    pub open spec fn class_bit(self) -> nat {
        match self {
            ArrayTypeLength::Float(_) => 1,
            ArrayTypeLength::UInt(_) => 0,
            ArrayTypeLength::SInt(_) => 0,
        }
    }

    /// Bit 3 of the tag: 1 for a signed integer, 0 otherwise.
    pub open spec fn sign_bit(self) -> nat {
        match self {
            ArrayTypeLength::Float(_) => 0,
            ArrayTypeLength::UInt(_) => 0,
            ArrayTypeLength::SInt(_) => 1,
        }
    }

    /// Bits 0 and 1 of the tag.
    pub open spec fn length_code(self) -> nat {
        match self {
            ArrayTypeLength::Float(length) => length.length_code(),
            ArrayTypeLength::UInt(length) => length.length_code(),
            ArrayTypeLength::SInt(length) => length.length_code(),
        }
    }

    /// The number of bytes of one element.
    pub open spec fn width(self) -> nat {
        match self {
            ArrayTypeLength::Float(length) => length.width(),
            ArrayTypeLength::UInt(length) => length.width(),
            ArrayTypeLength::SInt(length) => length.width(),
        }
    }
}

/// The tag as a number: the fixed header `010` in bits 5 to 7, then class,
/// signedness, byte order and length code.
pub open spec fn tag_of(length: ArrayTypeLength, endianness: Endianness) -> nat {
    64 + 16 * length.class_bit() + 8 * length.sign_bit() + 4 * endianness.bit()
        + length.length_code()
}

/// Tag of an array with elements of type `length`, written in byte order
/// `endianness`.
pub fn typed_array_tag(length: ArrayTypeLength, endianness: Endianness) -> (tag: u64)
    ensures
        tag == tag_of(length, endianness),
        FIRST_TAG <= tag <= LAST_TAG,
        classify_tag(tag) == Ok::<_, TypedArrayError>((length, endianness)),
{
    let type_dependent: u64 = match length {
        ArrayTypeLength::Float(length) => pack_type(FLOAT, UNSIGNED, length.code()),
        ArrayTypeLength::UInt(length) => pack_type(INTEGER, UNSIGNED, length.code()),
        ArrayTypeLength::SInt(length) => pack_type(INTEGER, SIGNED, length.code()),
    };
    let order: u64 = endianness.code();
    let header: u64 = 0b010 << 5;
    let tag: u64 = header | type_dependent | order << 2;
    assert(tag == 64 + type_dependent + 4 * order) by (bit_vector)
        requires
            header == 0b010u64 << 5,
            tag == header | type_dependent | order << 2,
            type_dependent & 0b100 == 0,
            type_dependent < 32,
            order <= 1,
    ;
    tag
}

/// Class, signedness and length code in their places, byte order left open.
fn pack_type(class: u64, signed: u64, code: u64) -> (bits: u64)
    requires
        class <= 1,
        signed <= 1,
        code <= 3,
    ensures
        bits == 16 * class + 8 * signed + code,
        bits & 0b100 == 0,
{
    let bits: u64 = class << 4 | signed << 3 | code;
    assert(bits == 16 * class + 8 * signed + code && bits & 0b100 == 0) by (bit_vector)
        requires
            bits == class << 4 | signed << 3 | code,
            class <= 1,
            signed <= 1,
            code <= 3,
    ;
    bits
}

/// Bits 5 to 7 of a tag, which every typed-array tag holds as `010`.
pub open spec fn header_bits(tag: u64) -> nat {
    ((tag / 32) % 8) as nat
}

/// Whether `tag` lies in the block reserved for typed arrays.
pub open spec fn is_typed_array_tag(tag: u64) -> bool {
    FIRST_TAG <= tag <= LAST_TAG && header_bits(tag) == 0b010
}

/// Whether `tag` lies in the typed-array block.
pub fn tag_is_typed_array(tag: u64) -> (yes: bool)
    ensures
        yes == is_typed_array_tag(tag),
        yes == (FIRST_TAG <= tag <= LAST_TAG),
{
    let header: u64 = (tag >> 5) & 0b111;
    assert(header == (tag / 32) % 8) by (bit_vector)
        requires
            header == (tag >> 5) & 0b111,
    ;
    FIRST_TAG <= tag && tag <= LAST_TAG && header == 0b010
}

/// The element type that the fields of a tag select, if there is one: none
/// for the reserved fourth float width, none for a signed float.
pub open spec fn selected_type(class_bit: nat, sign_bit: nat, code: nat) -> Option<ArrayTypeLength> {
    if class_bit == 0 {
        let length = if code == 0 {
            IntegerLength::I8
        } else if code == 1 {
            IntegerLength::I16
        } else if code == 2 {
            IntegerLength::I32
        } else {
            IntegerLength::I64
        };
        if sign_bit == 0 {
            Some(ArrayTypeLength::UInt(length))
        } else {
            Some(ArrayTypeLength::SInt(length))
        }
    } else if sign_bit != 0 || code >= 3 {
        None
    } else if code == 0 {
        Some(ArrayTypeLength::Float(FloatLength::F16))
    } else if code == 1 {
        Some(ArrayTypeLength::Float(FloatLength::F32))
    } else {
        Some(ArrayTypeLength::Float(FloatLength::F64))
    }
}

/// The byte order that bit 2 of a tag selects.
pub open spec fn selected_order(bit: nat) -> Endianness {
    if bit == 0 {
        Endianness::BigEndian
    } else {
        Endianness::LittleEndian
    }
}

/// What a tag stands for: the element type and byte order whose tag it is, or
/// the reason why it is refused.
pub open spec fn classify_tag(tag: u64) -> Result<(ArrayTypeLength, Endianness), TypedArrayError> {
    if !is_typed_array_tag(tag) {
        Err(TypedArrayError::NotATypedArrayTag)
    } else {
        match selected_type(((tag / 16) % 2) as nat, ((tag / 8) % 2) as nat, (tag % 4) as nat) {
            Some(length) => Ok((length, selected_order(((tag / 4) % 2) as nat))),
            None => Err(TypedArrayError::UnsupportedWidth),
        }
    }
}

/// Element type and byte order of a tag.
///
/// A tag outside the typed-array block is refused as `NotATypedArrayTag`, the
/// two tags of the reserved 128-bit float as `UnsupportedWidth`. Every other
/// tag is the tag of exactly one element type and byte order, and that pair is
/// returned.
pub fn tag_to_array_type(tag: u64) -> (decoded: Result<(ArrayTypeLength, Endianness), TypedArrayError>)
    ensures
        decoded == classify_tag(tag),
        decoded matches Ok((length, endianness)) ==> tag_of(length, endianness) == tag,
        decoded == Err::<(ArrayTypeLength, Endianness), _>(TypedArrayError::NotATypedArrayTag) <==> !(
        FIRST_TAG <= tag <= LAST_TAG),
        decoded == Err::<(ArrayTypeLength, Endianness), _>(TypedArrayError::UnsupportedWidth) <==> tag
            == 83 || tag == 87,
{
    if !tag_is_typed_array(tag) {
        return Err(TypedArrayError::NotATypedArrayTag);
    }
    let order: u64 = tag >> 2 & 0b1;
    let signed: u64 = tag >> 3 & 0b1;
    let number_type: u64 = tag >> 4 & 0b1;
    let length: u64 = tag & 0b11;
    assert(order == (tag / 4) % 2 && signed == (tag / 8) % 2 && number_type == (tag / 16) % 2
        && length == tag % 4) by (bit_vector)
        requires
            order == tag >> 2 & 0b1,
            signed == tag >> 3 & 0b1,
            number_type == tag >> 4 & 0b1,
            length == tag & 0b11,
    ;
    let endianness = if order == 0 {
        Endianness::BigEndian
    } else {
        Endianness::LittleEndian
    };
    if number_type == INTEGER {
        let width = if length == 0 {
            IntegerLength::I8
        } else if length == 1 {
            IntegerLength::I16
        } else if length == 2 {
            IntegerLength::I32
        } else {
            IntegerLength::I64
        };
        if signed == UNSIGNED {
            Ok((ArrayTypeLength::UInt(width), endianness))
        } else {
            Ok((ArrayTypeLength::SInt(width), endianness))
        }
    } else if length == 0 {
        Ok((ArrayTypeLength::Float(FloatLength::F16), endianness))
    } else if length == 1 {
        Ok((ArrayTypeLength::Float(FloatLength::F32), endianness))
    } else if length == 2 {
        Ok((ArrayTypeLength::Float(FloatLength::F64), endianness))
    } else {
        Err(TypedArrayError::UnsupportedWidth)
    }
}

/// Decoding the tag of an element type and byte order gives both back.
pub proof fn lemma_tag_round_trip(length: ArrayTypeLength, endianness: Endianness)
    ensures
        FIRST_TAG <= tag_of(length, endianness) <= LAST_TAG,
        classify_tag(tag_of(length, endianness) as u64) == Ok::<_, TypedArrayError>(
            (length, endianness),
        ),
{
}

/// A tag that decodes is the tag of what it decodes to.
pub proof fn lemma_decoded_tag_encodes_back(tag: u64)
    ensures
        classify_tag(tag) matches Ok((length, endianness)) ==> tag_of(length, endianness) == tag,
{
}

/// Two element types or byte orders never share a tag.
pub proof fn lemma_tag_injective(
    first: ArrayTypeLength,
    first_order: Endianness,
    second: ArrayTypeLength,
    second_order: Endianness,
)
    requires
        tag_of(first, first_order) == tag_of(second, second_order),
    ensures
        first == second,
        first_order == second_order,
{
    lemma_tag_round_trip(first, first_order);
    lemma_tag_round_trip(second, second_order);
}

/// Every tag outside the typed-array block, and every tag whose header bits
/// are not `010`, is refused as no typed-array tag. Inside the block the header
/// bits are `010` throughout.
pub proof fn lemma_tag_rejection(tag: u64)
    ensures
        !(FIRST_TAG <= tag <= LAST_TAG) || header_bits(tag) != 0b010 ==> classify_tag(tag) == Err::<
            (ArrayTypeLength, Endianness),
            _,
        >(TypedArrayError::NotATypedArrayTag),
        FIRST_TAG <= tag <= LAST_TAG ==> header_bits(tag) == 0b010,
{
}

} // verus!
