//! The array container and the single value that its elements widen to.

use crate::binary_float::{Binary16, Binary32, Binary64};
use crate::byte_image::{
    all_fit,
    lemma_pack_unpacked,
    lemma_radix_values,
    lemma_unpack_packed,
    packed,
    radix,
    unpacked,
};
use crate::endianness::{bits_of, unpack, EndiannessAware, ToFromBytes};
use crate::error::TypedArrayError;
use crate::typed_array_tag::{
    classify_tag,
    lemma_tag_round_trip,
    tag_of,
    tag_to_array_type,
    typed_array_tag,
    ArrayTypeLength,
    Endianness,
    FloatLength,
    IntegerLength,
    FIRST_TAG,
    LAST_TAG,
};
use vstd::prelude::*;

verus! {

/// One element of an array, of whatever type, as a value of a single type.
#[derive(Clone, Copy, PartialEq, Eq, Debug, Structural)]
pub enum TypedArrayValue {
    U8(u8),
    U16(u16),
    U32(u32),
    U64(u64),
    I8(i8),
    I16(i16),
    I32(i32),
    I64(i64),
    F16(Binary16),
    F32(Binary32),
    F64(Binary64),
}

impl TypedArrayValue {
    /// The element type of the value.
    pub open spec fn kind(&self) -> ArrayTypeLength {
        match self {
            TypedArrayValue::U8(_) => ArrayTypeLength::UInt(IntegerLength::I8),
            TypedArrayValue::U16(_) => ArrayTypeLength::UInt(IntegerLength::I16),
            TypedArrayValue::U32(_) => ArrayTypeLength::UInt(IntegerLength::I32),
            TypedArrayValue::U64(_) => ArrayTypeLength::UInt(IntegerLength::I64),
            TypedArrayValue::I8(_) => ArrayTypeLength::SInt(IntegerLength::I8),
            TypedArrayValue::I16(_) => ArrayTypeLength::SInt(IntegerLength::I16),
            TypedArrayValue::I32(_) => ArrayTypeLength::SInt(IntegerLength::I32),
            TypedArrayValue::I64(_) => ArrayTypeLength::SInt(IntegerLength::I64),
            TypedArrayValue::F16(_) => ArrayTypeLength::Float(FloatLength::F16),
            TypedArrayValue::F32(_) => ArrayTypeLength::Float(FloatLength::F32),
            TypedArrayValue::F64(_) => ArrayTypeLength::Float(FloatLength::F64),
        }
    }

    /// The value's binary representation, read as an unsigned number.
    pub open spec fn bits(&self) -> nat {
        match self {
            TypedArrayValue::U8(value) => value.bits(),
            TypedArrayValue::U16(value) => value.bits(),
            TypedArrayValue::U32(value) => value.bits(),
            TypedArrayValue::U64(value) => value.bits(),
            TypedArrayValue::I8(value) => value.bits(),
            TypedArrayValue::I16(value) => value.bits(),
            TypedArrayValue::I32(value) => value.bits(),
            TypedArrayValue::I64(value) => value.bits(),
            TypedArrayValue::F16(value) => value.bits(),
            TypedArrayValue::F32(value) => value.bits(),
            TypedArrayValue::F64(value) => value.bits(),
        }
    }

    /// The value of type `kind` whose binary representation is `bits`.
    pub open spec fn of(kind: ArrayTypeLength, bits: nat) -> TypedArrayValue {
        match kind {
            ArrayTypeLength::UInt(IntegerLength::I8) => TypedArrayValue::U8(bits as u8),
            ArrayTypeLength::UInt(IntegerLength::I16) => TypedArrayValue::U16(bits as u16),
            ArrayTypeLength::UInt(IntegerLength::I32) => TypedArrayValue::U32(bits as u32),
            ArrayTypeLength::UInt(IntegerLength::I64) => TypedArrayValue::U64(bits as u64),
            ArrayTypeLength::SInt(IntegerLength::I8) => TypedArrayValue::I8(
                if bits >= 0x80 {
                    (bits - 0x100) as i8
                } else {
                    bits as i8
                },
            ),
            ArrayTypeLength::SInt(IntegerLength::I16) => TypedArrayValue::I16(
                if bits >= 0x8000 {
                    (bits - 0x1_0000) as i16
                } else {
                    bits as i16
                },
            ),
            ArrayTypeLength::SInt(IntegerLength::I32) => TypedArrayValue::I32(
                if bits >= 0x8000_0000 {
                    (bits - 0x1_0000_0000) as i32
                } else {
                    bits as i32
                },
            ),
            ArrayTypeLength::SInt(IntegerLength::I64) => TypedArrayValue::I64(
                if bits >= 0x8000_0000_0000_0000 {
                    (bits - 0x1_0000_0000_0000_0000) as i64
                } else {
                    bits as i64
                },
            ),
            ArrayTypeLength::Float(FloatLength::F16) => TypedArrayValue::F16(Binary16(bits as u16)),
            ArrayTypeLength::Float(FloatLength::F32) => TypedArrayValue::F32(Binary32(bits as u32)),
            ArrayTypeLength::Float(FloatLength::F64) => TypedArrayValue::F64(Binary64(bits as u64)),
        }
    }

    /// A value is the value of its type with its representation, and the
    /// representation fits in the width of the type.
    pub proof fn lemma_value_parts(&self)
        ensures
            TypedArrayValue::of(self.kind(), self.bits()) == *self,
            self.bits() < radix(self.kind().width()),
    {
        lemma_radix_values();
    }

    /// The value as a 64-bit signed integer.
    ///
    /// An integer keeps its value, but for an unsigned 64-bit integer from
    /// 2^63 on, which wraps to the negative integer with the same bits. A
    /// float is rounded towards zero, and brought into the range where it lies
    /// outside; a NaN gives zero.
    pub open spec fn widened(&self) -> int {
        match self {
            TypedArrayValue::U8(value) => *value as int,
            TypedArrayValue::U16(value) => *value as int,
            TypedArrayValue::U32(value) => *value as int,
            TypedArrayValue::U64(value) => if *value > i64::MAX {
                value - 0x1_0000_0000_0000_0000
            } else {
                *value as int
            },
            TypedArrayValue::I8(value) => *value as int,
            TypedArrayValue::I16(value) => *value as int,
            TypedArrayValue::I32(value) => *value as int,
            TypedArrayValue::I64(value) => *value as int,
            TypedArrayValue::F16(value) => value.whole(),
            TypedArrayValue::F32(value) => value.whole(),
            TypedArrayValue::F64(value) => value.whole(),
        }
    }

    /// Tag of an array of values of this type, written in byte order
    /// `endianness`.
    pub fn tag(&self, endianness: Endianness) -> (tag: u64)
        ensures
            tag == tag_of(self.kind(), endianness),
    {
        match self {
            TypedArrayValue::U8(_) => {
                typed_array_tag(ArrayTypeLength::UInt(IntegerLength::I8), endianness)
            },
            TypedArrayValue::U16(_) => {
                typed_array_tag(ArrayTypeLength::UInt(IntegerLength::I16), endianness)
            },
            TypedArrayValue::U32(_) => {
                typed_array_tag(ArrayTypeLength::UInt(IntegerLength::I32), endianness)
            },
            TypedArrayValue::U64(_) => {
                typed_array_tag(ArrayTypeLength::UInt(IntegerLength::I64), endianness)
            },
            TypedArrayValue::I8(_) => {
                typed_array_tag(ArrayTypeLength::SInt(IntegerLength::I8), endianness)
            },
            TypedArrayValue::I16(_) => {
                typed_array_tag(ArrayTypeLength::SInt(IntegerLength::I16), endianness)
            },
            TypedArrayValue::I32(_) => {
                typed_array_tag(ArrayTypeLength::SInt(IntegerLength::I32), endianness)
            },
            TypedArrayValue::I64(_) => {
                typed_array_tag(ArrayTypeLength::SInt(IntegerLength::I64), endianness)
            },
            TypedArrayValue::F16(_) => {
                typed_array_tag(ArrayTypeLength::Float(FloatLength::F16), endianness)
            },
            TypedArrayValue::F32(_) => {
                typed_array_tag(ArrayTypeLength::Float(FloatLength::F32), endianness)
            },
            TypedArrayValue::F64(_) => {
                typed_array_tag(ArrayTypeLength::Float(FloatLength::F64), endianness)
            },
        }
    }

    /// The value as a 64-bit signed integer: an integer by its value, an
    /// unsigned one beyond the range by its bits, a float rounded towards zero.
    pub fn to_i64(self) -> (widened: i64)
        ensures
            widened == self.widened(),
    {
        match self {
            TypedArrayValue::U8(v) => v as i64,
            TypedArrayValue::U16(v) => v as i64,
            TypedArrayValue::U32(v) => v as i64,
            TypedArrayValue::U64(v) => {
                let widened: i64 = v as i64;
                assert(widened == if v > 0x7fff_ffff_ffff_ffff {
                    v - 0x1_0000_0000_0000_0000
                } else {
                    v as int
                }) by (bit_vector)
                    requires
                        widened == v as i64,
                ;
                widened
            },
            TypedArrayValue::I8(v) => v as i64,
            TypedArrayValue::I16(v) => v as i64,
            TypedArrayValue::I32(v) => v as i64,
            TypedArrayValue::I64(v) => v as i64,
            TypedArrayValue::F16(v) => v.to_i64(),
            TypedArrayValue::F32(v) => v.to_i64(),
            TypedArrayValue::F64(v) => v.to_i64(),
        }
    }
}

/// What a typed array is: its element type, and the binary representation of
/// each element in order, read as unsigned numbers.
pub struct TypedArrayView {
    pub kind: ArrayTypeLength,
    pub bits: Seq<nat>,
}

impl TypedArrayView {
    /// Whether every element fits in the width of the element type.
    pub open spec fn well_formed(self) -> bool {
        all_fit(self.bits, self.kind.width())
    }

    /// The elements as single values.
    pub open spec fn values(self) -> Seq<TypedArrayValue> {
        Seq::new(self.bits.len(), |index: int| TypedArrayValue::of(self.kind, self.bits[index]))
    }

    /// The tag of the array in byte order `endianness`.
    pub open spec fn tag(self, endianness: Endianness) -> u64 {
        tag_of(self.kind, endianness) as u64
    }

    /// The payload of the array in byte order `endianness`.
    pub open spec fn payload(self, endianness: Endianness) -> Seq<u8> {
        packed(self.bits, self.kind.width(), endianness)
    }

    /// The array of type `kind` that `bytes` is the payload of, unless the
    /// bytes end inside an element.
    pub open spec fn from_payload(kind: ArrayTypeLength, bytes: Seq<u8>, endianness: Endianness) -> Result<
        TypedArrayView,
        TypedArrayError,
    > {
        if bytes.len() % kind.width() != 0 {
            Err(TypedArrayError::TruncatedInput)
        } else {
            Ok(TypedArrayView { kind, bits: unpacked(bytes, kind.width(), endianness) })
        }
    }

    /// The array that a tag and a payload stand for, or the reason why there
    /// is none: the tag is refused, or the payload ends inside an element.
    pub open spec fn decoded(tag: u64, bytes: Seq<u8>) -> Result<TypedArrayView, TypedArrayError> {
        match classify_tag(tag) {
            Err(error) => Err(error),
            Ok((kind, endianness)) => TypedArrayView::from_payload(kind, bytes, endianness),
        }
    }

    /// Decoding the tag and payload of an array gives the array back, in
    /// either byte order.
    pub proof fn lemma_decode_encoded(self, endianness: Endianness)
        requires
            self.well_formed(),
        ensures
            TypedArrayView::decoded(self.tag(endianness), self.payload(endianness)) == Ok::<
                _,
                TypedArrayError,
            >(self),
    {
        lemma_tag_round_trip(self.kind, endianness);
        lemma_unpack_packed(self.bits, self.kind.width(), endianness);
    }

    /// Encoding what a tag and a payload decode to gives the tag and the
    /// payload back.
    pub proof fn lemma_encode_decoded(tag: u64, bytes: Seq<u8>)
        ensures
            TypedArrayView::decoded(tag, bytes) matches Ok(array) ==> {
                &&& array.well_formed()
                &&& classify_tag(tag) matches Ok((kind, endianness))
                &&& array.kind == kind
                &&& array.tag(endianness) == tag
                &&& array.payload(endianness) == bytes
            },
    {
        if let Ok((kind, endianness)) = classify_tag(tag) {
            if bytes.len() % kind.width() == 0 {
                lemma_pack_unpacked(bytes, kind.width(), endianness);
            }
        }
    }

    /// An array without elements has an empty payload and a tag of the
    /// typed-array block, and they decode to an array without elements of the
    /// same type.
    pub proof fn lemma_empty_array(kind: ArrayTypeLength, endianness: Endianness)
        ensures
            ({
                let empty = TypedArrayView { kind, bits: Seq::empty() };
                &&& empty.payload(endianness) == Seq::<u8>::empty()
                &&& FIRST_TAG <= empty.tag(endianness) <= LAST_TAG
                &&& TypedArrayView::decoded(empty.tag(endianness), Seq::empty()) == Ok::<
                    _,
                    TypedArrayError,
                >(empty)
            }),
    {
        let empty = TypedArrayView { kind, bits: Seq::empty() };
        empty.lemma_decode_encoded(endianness);
    }
}

/// The array that a result holds, by its view.
pub open spec fn view_of(result: Result<TypedArray, TypedArrayError>) -> Result<
    TypedArrayView,
    TypedArrayError,
> {
    match result {
        Ok(array) => Ok(array@),
        Err(error) => Err(error),
    }
}

/// A homogeneous array of numbers: one variant for each element type.
#[derive(Clone, PartialEq, Eq, Debug)]
pub enum TypedArray {
    U8(Vec<u8>),
    U16(Vec<u16>),
    U32(Vec<u32>),
    U64(Vec<u64>),
    I8(Vec<i8>),
    I16(Vec<i16>),
    I32(Vec<i32>),
    I64(Vec<i64>),
    F16(Vec<Binary16>),
    F32(Vec<Binary32>),
    F64(Vec<Binary64>),
}

impl View for TypedArray {
    type V = TypedArrayView;

    open spec fn view(&self) -> TypedArrayView {
        match self {
            TypedArray::U8(array) => TypedArrayView {
                kind: ArrayTypeLength::UInt(IntegerLength::I8),
                bits: bits_of::<1, u8>(array@),
            },
            TypedArray::U16(array) => TypedArrayView {
                kind: ArrayTypeLength::UInt(IntegerLength::I16),
                bits: bits_of::<2, u16>(array@),
            },
            TypedArray::U32(array) => TypedArrayView {
                kind: ArrayTypeLength::UInt(IntegerLength::I32),
                bits: bits_of::<4, u32>(array@),
            },
            TypedArray::U64(array) => TypedArrayView {
                kind: ArrayTypeLength::UInt(IntegerLength::I64),
                bits: bits_of::<8, u64>(array@),
            },
            TypedArray::I8(array) => TypedArrayView {
                kind: ArrayTypeLength::SInt(IntegerLength::I8),
                bits: bits_of::<1, i8>(array@),
            },
            TypedArray::I16(array) => TypedArrayView {
                kind: ArrayTypeLength::SInt(IntegerLength::I16),
                bits: bits_of::<2, i16>(array@),
            },
            TypedArray::I32(array) => TypedArrayView {
                kind: ArrayTypeLength::SInt(IntegerLength::I32),
                bits: bits_of::<4, i32>(array@),
            },
            TypedArray::I64(array) => TypedArrayView {
                kind: ArrayTypeLength::SInt(IntegerLength::I64),
                bits: bits_of::<8, i64>(array@),
            },
            TypedArray::F16(array) => TypedArrayView {
                kind: ArrayTypeLength::Float(FloatLength::F16),
                bits: bits_of::<2, Binary16>(array@),
            },
            TypedArray::F32(array) => TypedArrayView {
                kind: ArrayTypeLength::Float(FloatLength::F32),
                bits: bits_of::<4, Binary32>(array@),
            },
            TypedArray::F64(array) => TypedArrayView {
                kind: ArrayTypeLength::Float(FloatLength::F64),
                bits: bits_of::<8, Binary64>(array@),
            },
        }
    }
}

impl TypedArray {
    /// The element type.
    pub fn kind(&self) -> (kind: ArrayTypeLength)
        ensures
            kind == self@.kind,
    {
        match self {
            TypedArray::U8(_) => ArrayTypeLength::UInt(IntegerLength::I8),
            TypedArray::U16(_) => ArrayTypeLength::UInt(IntegerLength::I16),
            TypedArray::U32(_) => ArrayTypeLength::UInt(IntegerLength::I32),
            TypedArray::U64(_) => ArrayTypeLength::UInt(IntegerLength::I64),
            TypedArray::I8(_) => ArrayTypeLength::SInt(IntegerLength::I8),
            TypedArray::I16(_) => ArrayTypeLength::SInt(IntegerLength::I16),
            TypedArray::I32(_) => ArrayTypeLength::SInt(IntegerLength::I32),
            TypedArray::I64(_) => ArrayTypeLength::SInt(IntegerLength::I64),
            TypedArray::F16(_) => ArrayTypeLength::Float(FloatLength::F16),
            TypedArray::F32(_) => ArrayTypeLength::Float(FloatLength::F32),
            TypedArray::F64(_) => ArrayTypeLength::Float(FloatLength::F64),
        }
    }

    /// The number of elements.
    pub fn len(&self) -> (len: usize)
        ensures
            len == self@.bits.len(),
    {
        match self {
            TypedArray::U8(array) => array.len(),
            TypedArray::U16(array) => array.len(),
            TypedArray::U32(array) => array.len(),
            TypedArray::U64(array) => array.len(),
            TypedArray::I8(array) => array.len(),
            TypedArray::I16(array) => array.len(),
            TypedArray::I32(array) => array.len(),
            TypedArray::I64(array) => array.len(),
            TypedArray::F16(array) => array.len(),
            TypedArray::F32(array) => array.len(),
            TypedArray::F64(array) => array.len(),
        }
    }

    /// Whether the array has no element.
    pub fn is_empty(&self) -> (empty: bool)
        ensures
            empty == (self@.bits.len() == 0),
    {
        self.len() == 0
    }

    /// Tag of the array when it is written in byte order `endianness`.
    pub fn tag(&self, endianness: Endianness) -> (tag: u64)
        ensures
            tag == tag_of(self@.kind, endianness),
    {
        typed_array_tag(self.kind(), endianness)
    }

    /// Element `index` as a single value, if the array has one there.
    pub fn get(&self, index: usize) -> (value: Option<TypedArrayValue>)
        ensures
            index < self@.bits.len() ==> value == Some(self@.values()[index as int]),
            index >= self@.bits.len() ==> value is None,
    {
        if index >= self.len() {
            return None;
        }
        let value = match self {
            TypedArray::U8(array) => TypedArrayValue::U8(array[index]),
            TypedArray::U16(array) => TypedArrayValue::U16(array[index]),
            TypedArray::U32(array) => TypedArrayValue::U32(array[index]),
            TypedArray::U64(array) => TypedArrayValue::U64(array[index]),
            TypedArray::I8(array) => TypedArrayValue::I8(array[index]),
            TypedArray::I16(array) => TypedArrayValue::I16(array[index]),
            TypedArray::I32(array) => TypedArrayValue::I32(array[index]),
            TypedArray::I64(array) => TypedArrayValue::I64(array[index]),
            TypedArray::F16(array) => TypedArrayValue::F16(array[index]),
            TypedArray::F32(array) => TypedArrayValue::F32(array[index]),
            TypedArray::F64(array) => TypedArrayValue::F64(array[index]),
        };
        Some(value)
    }

    /// Every element of an array fits in the width of its type.
    pub proof fn lemma_view_well_formed(&self)
        ensures
            self@.well_formed(),
    {
        match self {
            TypedArray::U8(array) => {
                assert forall|index: int| 0 <= index < array@.len() implies #[trigger] self@.bits[index]
                    < radix(1) by {
                    array@[index].lemma_bits_fit();
                }
            },
            TypedArray::U16(array) => {
                assert forall|index: int| 0 <= index < array@.len() implies #[trigger] self@.bits[index]
                    < radix(2) by {
                    array@[index].lemma_bits_fit();
                }
            },
            TypedArray::U32(array) => {
                assert forall|index: int| 0 <= index < array@.len() implies #[trigger] self@.bits[index]
                    < radix(4) by {
                    array@[index].lemma_bits_fit();
                }
            },
            TypedArray::U64(array) => {
                assert forall|index: int| 0 <= index < array@.len() implies #[trigger] self@.bits[index]
                    < radix(8) by {
                    array@[index].lemma_bits_fit();
                }
            },
            TypedArray::I8(array) => {
                assert forall|index: int| 0 <= index < array@.len() implies #[trigger] self@.bits[index]
                    < radix(1) by {
                    array@[index].lemma_bits_fit();
                }
            },
            TypedArray::I16(array) => {
                assert forall|index: int| 0 <= index < array@.len() implies #[trigger] self@.bits[index]
                    < radix(2) by {
                    array@[index].lemma_bits_fit();
                }
            },
            TypedArray::I32(array) => {
                assert forall|index: int| 0 <= index < array@.len() implies #[trigger] self@.bits[index]
                    < radix(4) by {
                    array@[index].lemma_bits_fit();
                }
            },
            TypedArray::I64(array) => {
                assert forall|index: int| 0 <= index < array@.len() implies #[trigger] self@.bits[index]
                    < radix(8) by {
                    array@[index].lemma_bits_fit();
                }
            },
            TypedArray::F16(array) => {
                assert forall|index: int| 0 <= index < array@.len() implies #[trigger] self@.bits[index]
                    < radix(2) by {
                    array@[index].lemma_bits_fit();
                }
            },
            TypedArray::F32(array) => {
                assert forall|index: int| 0 <= index < array@.len() implies #[trigger] self@.bits[index]
                    < radix(4) by {
                    array@[index].lemma_bits_fit();
                }
            },
            TypedArray::F64(array) => {
                assert forall|index: int| 0 <= index < array@.len() implies #[trigger] self@.bits[index]
                    < radix(8) by {
                    array@[index].lemma_bits_fit();
                }
            },
        }
    }

    /// Whether two arrays are of one type and hold the same elements in the
    /// same order.
    pub open spec fn same_elements(&self, other: &TypedArray) -> bool {
        match (self, other) {
            (TypedArray::U8(mine), TypedArray::U8(theirs)) => mine@ == theirs@,
            (TypedArray::U16(mine), TypedArray::U16(theirs)) => mine@ == theirs@,
            (TypedArray::U32(mine), TypedArray::U32(theirs)) => mine@ == theirs@,
            (TypedArray::U64(mine), TypedArray::U64(theirs)) => mine@ == theirs@,
            (TypedArray::I8(mine), TypedArray::I8(theirs)) => mine@ == theirs@,
            (TypedArray::I16(mine), TypedArray::I16(theirs)) => mine@ == theirs@,
            (TypedArray::I32(mine), TypedArray::I32(theirs)) => mine@ == theirs@,
            (TypedArray::I64(mine), TypedArray::I64(theirs)) => mine@ == theirs@,
            (TypedArray::F16(mine), TypedArray::F16(theirs)) => mine@ == theirs@,
            (TypedArray::F32(mine), TypedArray::F32(theirs)) => mine@ == theirs@,
            (TypedArray::F64(mine), TypedArray::F64(theirs)) => mine@ == theirs@,
            _ => false,
        }
    }

    /// Arrays with one view are of one type and hold the same elements in the
    /// same order.
    pub proof fn lemma_view_identifies(&self, other: &TypedArray)
        requires
            self@ == other@,
        ensures
            self.same_elements(other),
    {
        match (self, other) {
            (TypedArray::U8(mine), TypedArray::U8(theirs)) => {
                let mine_bits = bits_of::<1, u8>(mine@);
                let their_bits = bits_of::<1, u8>(theirs@);
                assert(mine_bits == their_bits);
                assert(mine@.len() == mine_bits.len() && theirs@.len() == their_bits.len());
                assert forall|index: int| 0 <= index < mine@.len() implies mine@[index]
                    == theirs@[index] by {
                    assert(mine_bits[index] == mine@[index].bits());
                    assert(their_bits[index] == theirs@[index].bits());
                    mine@[index].lemma_bits_identify(&theirs@[index]);
                }
                assert(mine@ =~= theirs@);
            },
            (TypedArray::U16(mine), TypedArray::U16(theirs)) => {
                let mine_bits = bits_of::<2, u16>(mine@);
                let their_bits = bits_of::<2, u16>(theirs@);
                assert(mine_bits == their_bits);
                assert(mine@.len() == mine_bits.len() && theirs@.len() == their_bits.len());
                assert forall|index: int| 0 <= index < mine@.len() implies mine@[index]
                    == theirs@[index] by {
                    assert(mine_bits[index] == mine@[index].bits());
                    assert(their_bits[index] == theirs@[index].bits());
                    mine@[index].lemma_bits_identify(&theirs@[index]);
                }
                assert(mine@ =~= theirs@);
            },
            (TypedArray::U32(mine), TypedArray::U32(theirs)) => {
                let mine_bits = bits_of::<4, u32>(mine@);
                let their_bits = bits_of::<4, u32>(theirs@);
                assert(mine_bits == their_bits);
                assert(mine@.len() == mine_bits.len() && theirs@.len() == their_bits.len());
                assert forall|index: int| 0 <= index < mine@.len() implies mine@[index]
                    == theirs@[index] by {
                    assert(mine_bits[index] == mine@[index].bits());
                    assert(their_bits[index] == theirs@[index].bits());
                    mine@[index].lemma_bits_identify(&theirs@[index]);
                }
                assert(mine@ =~= theirs@);
            },
            (TypedArray::U64(mine), TypedArray::U64(theirs)) => {
                let mine_bits = bits_of::<8, u64>(mine@);
                let their_bits = bits_of::<8, u64>(theirs@);
                assert(mine_bits == their_bits);
                assert(mine@.len() == mine_bits.len() && theirs@.len() == their_bits.len());
                assert forall|index: int| 0 <= index < mine@.len() implies mine@[index]
                    == theirs@[index] by {
                    assert(mine_bits[index] == mine@[index].bits());
                    assert(their_bits[index] == theirs@[index].bits());
                    mine@[index].lemma_bits_identify(&theirs@[index]);
                }
                assert(mine@ =~= theirs@);
            },
            (TypedArray::I8(mine), TypedArray::I8(theirs)) => {
                let mine_bits = bits_of::<1, i8>(mine@);
                let their_bits = bits_of::<1, i8>(theirs@);
                assert(mine_bits == their_bits);
                assert(mine@.len() == mine_bits.len() && theirs@.len() == their_bits.len());
                assert forall|index: int| 0 <= index < mine@.len() implies mine@[index]
                    == theirs@[index] by {
                    assert(mine_bits[index] == mine@[index].bits());
                    assert(their_bits[index] == theirs@[index].bits());
                    mine@[index].lemma_bits_identify(&theirs@[index]);
                }
                assert(mine@ =~= theirs@);
            },
            (TypedArray::I16(mine), TypedArray::I16(theirs)) => {
                let mine_bits = bits_of::<2, i16>(mine@);
                let their_bits = bits_of::<2, i16>(theirs@);
                assert(mine_bits == their_bits);
                assert(mine@.len() == mine_bits.len() && theirs@.len() == their_bits.len());
                assert forall|index: int| 0 <= index < mine@.len() implies mine@[index]
                    == theirs@[index] by {
                    assert(mine_bits[index] == mine@[index].bits());
                    assert(their_bits[index] == theirs@[index].bits());
                    mine@[index].lemma_bits_identify(&theirs@[index]);
                }
                assert(mine@ =~= theirs@);
            },
            (TypedArray::I32(mine), TypedArray::I32(theirs)) => {
                let mine_bits = bits_of::<4, i32>(mine@);
                let their_bits = bits_of::<4, i32>(theirs@);
                assert(mine_bits == their_bits);
                assert(mine@.len() == mine_bits.len() && theirs@.len() == their_bits.len());
                assert forall|index: int| 0 <= index < mine@.len() implies mine@[index]
                    == theirs@[index] by {
                    assert(mine_bits[index] == mine@[index].bits());
                    assert(their_bits[index] == theirs@[index].bits());
                    mine@[index].lemma_bits_identify(&theirs@[index]);
                }
                assert(mine@ =~= theirs@);
            },
            (TypedArray::I64(mine), TypedArray::I64(theirs)) => {
                let mine_bits = bits_of::<8, i64>(mine@);
                let their_bits = bits_of::<8, i64>(theirs@);
                assert(mine_bits == their_bits);
                assert(mine@.len() == mine_bits.len() && theirs@.len() == their_bits.len());
                assert forall|index: int| 0 <= index < mine@.len() implies mine@[index]
                    == theirs@[index] by {
                    assert(mine_bits[index] == mine@[index].bits());
                    assert(their_bits[index] == theirs@[index].bits());
                    mine@[index].lemma_bits_identify(&theirs@[index]);
                }
                assert(mine@ =~= theirs@);
            },
            (TypedArray::F16(mine), TypedArray::F16(theirs)) => {
                let mine_bits = bits_of::<2, Binary16>(mine@);
                let their_bits = bits_of::<2, Binary16>(theirs@);
                assert(mine_bits == their_bits);
                assert(mine@.len() == mine_bits.len() && theirs@.len() == their_bits.len());
                assert forall|index: int| 0 <= index < mine@.len() implies mine@[index]
                    == theirs@[index] by {
                    assert(mine_bits[index] == mine@[index].bits());
                    assert(their_bits[index] == theirs@[index].bits());
                    mine@[index].lemma_bits_identify(&theirs@[index]);
                }
                assert(mine@ =~= theirs@);
            },
            (TypedArray::F32(mine), TypedArray::F32(theirs)) => {
                let mine_bits = bits_of::<4, Binary32>(mine@);
                let their_bits = bits_of::<4, Binary32>(theirs@);
                assert(mine_bits == their_bits);
                assert(mine@.len() == mine_bits.len() && theirs@.len() == their_bits.len());
                assert forall|index: int| 0 <= index < mine@.len() implies mine@[index]
                    == theirs@[index] by {
                    assert(mine_bits[index] == mine@[index].bits());
                    assert(their_bits[index] == theirs@[index].bits());
                    mine@[index].lemma_bits_identify(&theirs@[index]);
                }
                assert(mine@ =~= theirs@);
            },
            (TypedArray::F64(mine), TypedArray::F64(theirs)) => {
                let mine_bits = bits_of::<8, Binary64>(mine@);
                let their_bits = bits_of::<8, Binary64>(theirs@);
                assert(mine_bits == their_bits);
                assert(mine@.len() == mine_bits.len() && theirs@.len() == their_bits.len());
                assert forall|index: int| 0 <= index < mine@.len() implies mine@[index]
                    == theirs@[index] by {
                    assert(mine_bits[index] == mine@[index].bits());
                    assert(their_bits[index] == theirs@[index].bits());
                    mine@[index].lemma_bits_identify(&theirs@[index]);
                }
                assert(mine@ =~= theirs@);
            },
            _ => {},
        }
    }

    /// The array of the given values, if they are of one type: nothing for
    /// values of different types, and nothing for no values, which name no
    /// type.
    pub fn from_vec(vec: Vec<TypedArrayValue>) -> (array: Option<TypedArray>)
        ensures
            array is Some <==> (vec@.len() > 0 && forall|index: int|
                0 <= index < vec@.len() ==> (#[trigger] vec@[index]).kind() == vec@[0].kind()),
            array matches Some(array) ==> array@.kind == vec@[0].kind() && array@.values() == vec@,
    {
        if vec.len() == 0 {
            return None;
        }
        let mut index: usize = 0;
        match vec[0] {
            TypedArrayValue::U8(_) => {
                let mut elements: Vec<u8> = Vec::new();
                while index < vec.len()
                    invariant
                        index <= vec.len(),
                        elements@.len() == index,
                        vec@.len() > 0,
                        vec@[0] is U8,
                        forall|seen: int|
                            0 <= seen < index ==> vec@[seen] == TypedArrayValue::U8(elements@[seen]),
                    decreases vec.len() - index,
                {
                    match vec[index] {
                        TypedArrayValue::U8(element) => elements.push(element),
                        _ => {
                            assert(vec@[index as int].kind() != vec@[0].kind());
                            return None;
                        },
                    }
                    index += 1;
                }
                let array = TypedArray::U8(elements);
                assert(array@.values() =~= vec@);
                Some(array)
            },
            TypedArrayValue::U16(_) => {
                let mut elements: Vec<u16> = Vec::new();
                while index < vec.len()
                    invariant
                        index <= vec.len(),
                        elements@.len() == index,
                        vec@.len() > 0,
                        vec@[0] is U16,
                        forall|seen: int|
                            0 <= seen < index ==> vec@[seen] == TypedArrayValue::U16(elements@[seen]),
                    decreases vec.len() - index,
                {
                    match vec[index] {
                        TypedArrayValue::U16(element) => elements.push(element),
                        _ => {
                            assert(vec@[index as int].kind() != vec@[0].kind());
                            return None;
                        },
                    }
                    index += 1;
                }
                let array = TypedArray::U16(elements);
                assert(array@.values() =~= vec@);
                Some(array)
            },
            TypedArrayValue::U32(_) => {
                let mut elements: Vec<u32> = Vec::new();
                while index < vec.len()
                    invariant
                        index <= vec.len(),
                        elements@.len() == index,
                        vec@.len() > 0,
                        vec@[0] is U32,
                        forall|seen: int|
                            0 <= seen < index ==> vec@[seen] == TypedArrayValue::U32(elements@[seen]),
                    decreases vec.len() - index,
                {
                    match vec[index] {
                        TypedArrayValue::U32(element) => elements.push(element),
                        _ => {
                            assert(vec@[index as int].kind() != vec@[0].kind());
                            return None;
                        },
                    }
                    index += 1;
                }
                let array = TypedArray::U32(elements);
                assert(array@.values() =~= vec@);
                Some(array)
            },
            TypedArrayValue::U64(_) => {
                let mut elements: Vec<u64> = Vec::new();
                while index < vec.len()
                    invariant
                        index <= vec.len(),
                        elements@.len() == index,
                        vec@.len() > 0,
                        vec@[0] is U64,
                        forall|seen: int|
                            0 <= seen < index ==> vec@[seen] == TypedArrayValue::U64(elements@[seen]),
                    decreases vec.len() - index,
                {
                    match vec[index] {
                        TypedArrayValue::U64(element) => elements.push(element),
                        _ => {
                            assert(vec@[index as int].kind() != vec@[0].kind());
                            return None;
                        },
                    }
                    index += 1;
                }
                let array = TypedArray::U64(elements);
                assert(array@.values() =~= vec@);
                Some(array)
            },
            TypedArrayValue::I8(_) => {
                let mut elements: Vec<i8> = Vec::new();
                while index < vec.len()
                    invariant
                        index <= vec.len(),
                        elements@.len() == index,
                        vec@.len() > 0,
                        vec@[0] is I8,
                        forall|seen: int|
                            0 <= seen < index ==> vec@[seen] == TypedArrayValue::I8(elements@[seen]),
                    decreases vec.len() - index,
                {
                    match vec[index] {
                        TypedArrayValue::I8(element) => elements.push(element),
                        _ => {
                            assert(vec@[index as int].kind() != vec@[0].kind());
                            return None;
                        },
                    }
                    index += 1;
                }
                let array = TypedArray::I8(elements);
                assert(array@.values() =~= vec@);
                Some(array)
            },
            TypedArrayValue::I16(_) => {
                let mut elements: Vec<i16> = Vec::new();
                while index < vec.len()
                    invariant
                        index <= vec.len(),
                        elements@.len() == index,
                        vec@.len() > 0,
                        vec@[0] is I16,
                        forall|seen: int|
                            0 <= seen < index ==> vec@[seen] == TypedArrayValue::I16(elements@[seen]),
                    decreases vec.len() - index,
                {
                    match vec[index] {
                        TypedArrayValue::I16(element) => elements.push(element),
                        _ => {
                            assert(vec@[index as int].kind() != vec@[0].kind());
                            return None;
                        },
                    }
                    index += 1;
                }
                let array = TypedArray::I16(elements);
                assert(array@.values() =~= vec@);
                Some(array)
            },
            TypedArrayValue::I32(_) => {
                let mut elements: Vec<i32> = Vec::new();
                while index < vec.len()
                    invariant
                        index <= vec.len(),
                        elements@.len() == index,
                        vec@.len() > 0,
                        vec@[0] is I32,
                        forall|seen: int|
                            0 <= seen < index ==> vec@[seen] == TypedArrayValue::I32(elements@[seen]),
                    decreases vec.len() - index,
                {
                    match vec[index] {
                        TypedArrayValue::I32(element) => elements.push(element),
                        _ => {
                            assert(vec@[index as int].kind() != vec@[0].kind());
                            return None;
                        },
                    }
                    index += 1;
                }
                let array = TypedArray::I32(elements);
                assert(array@.values() =~= vec@);
                Some(array)
            },
            TypedArrayValue::I64(_) => {
                let mut elements: Vec<i64> = Vec::new();
                while index < vec.len()
                    invariant
                        index <= vec.len(),
                        elements@.len() == index,
                        vec@.len() > 0,
                        vec@[0] is I64,
                        forall|seen: int|
                            0 <= seen < index ==> vec@[seen] == TypedArrayValue::I64(elements@[seen]),
                    decreases vec.len() - index,
                {
                    match vec[index] {
                        TypedArrayValue::I64(element) => elements.push(element),
                        _ => {
                            assert(vec@[index as int].kind() != vec@[0].kind());
                            return None;
                        },
                    }
                    index += 1;
                }
                let array = TypedArray::I64(elements);
                assert(array@.values() =~= vec@);
                Some(array)
            },
            TypedArrayValue::F16(_) => {
                let mut elements: Vec<Binary16> = Vec::new();
                while index < vec.len()
                    invariant
                        index <= vec.len(),
                        elements@.len() == index,
                        vec@.len() > 0,
                        vec@[0] is F16,
                        forall|seen: int|
                            0 <= seen < index ==> vec@[seen] == TypedArrayValue::F16(elements@[seen]),
                    decreases vec.len() - index,
                {
                    match vec[index] {
                        TypedArrayValue::F16(element) => elements.push(element),
                        _ => {
                            assert(vec@[index as int].kind() != vec@[0].kind());
                            return None;
                        },
                    }
                    index += 1;
                }
                let array = TypedArray::F16(elements);
                assert(array@.values() =~= vec@);
                Some(array)
            },
            TypedArrayValue::F32(_) => {
                let mut elements: Vec<Binary32> = Vec::new();
                while index < vec.len()
                    invariant
                        index <= vec.len(),
                        elements@.len() == index,
                        vec@.len() > 0,
                        vec@[0] is F32,
                        forall|seen: int|
                            0 <= seen < index ==> vec@[seen] == TypedArrayValue::F32(elements@[seen]),
                    decreases vec.len() - index,
                {
                    match vec[index] {
                        TypedArrayValue::F32(element) => elements.push(element),
                        _ => {
                            assert(vec@[index as int].kind() != vec@[0].kind());
                            return None;
                        },
                    }
                    index += 1;
                }
                let array = TypedArray::F32(elements);
                assert(array@.values() =~= vec@);
                Some(array)
            },
            TypedArrayValue::F64(_) => {
                let mut elements: Vec<Binary64> = Vec::new();
                while index < vec.len()
                    invariant
                        index <= vec.len(),
                        elements@.len() == index,
                        vec@.len() > 0,
                        vec@[0] is F64,
                        forall|seen: int|
                            0 <= seen < index ==> vec@[seen] == TypedArrayValue::F64(elements@[seen]),
                    decreases vec.len() - index,
                {
                    match vec[index] {
                        TypedArrayValue::F64(element) => elements.push(element),
                        _ => {
                            assert(vec@[index as int].kind() != vec@[0].kind());
                            return None;
                        },
                    }
                    index += 1;
                }
                let array = TypedArray::F64(elements);
                assert(array@.values() =~= vec@);
                Some(array)
            },
        }
    }

    /// The elements as single values, in order.
    pub fn as_ref(&self) -> (values: Vec<TypedArrayValue>)
        ensures
            values@ == self@.values(),
    {
        let len: usize = self.len();
        let mut values: Vec<TypedArrayValue> = Vec::new();
        let mut index: usize = 0;
        while index < len
            invariant
                index <= len,
                len == self@.bits.len(),
                values@ == self@.values().take(index as int),
            decreases len - index,
        {
            match self.get(index) {
                Some(value) => values.push(value),
                None => {},
            }
            index += 1;
            assert(values@ =~= self@.values().take(index as int));
        }
        assert(values@ =~= self@.values());
        values
    }

    /// A pass over the elements from the first on, each as a single value.
    pub fn iter(&self) -> (iterator: TypedArrayIterator<'_>)
        ensures
            iterator.position() == 0,
            iterator.array() == self@,
    {
        TypedArrayIterator { counter: 0, ta: self }
    }

    /// The tag and the payload of the array, in the byte order that `ctx`
    /// asks for. They decode to the array.
    pub fn encode<C: EndiannessAware>(&self, ctx: &C) -> (parts: (u64, Vec<u8>))
        ensures
            parts.0 == self@.tag(ctx.endianness()),
            parts.1@ == self@.payload(ctx.endianness()),
            TypedArrayView::decoded(parts.0, parts.1@) == Ok::<_, TypedArrayError>(self@),
    {
        let tag: u64 = self.tag(ctx.desired_endianness());
        let output: Vec<u8> = match self {
            TypedArray::U8(array) => ctx.to_vec8::<1, u8>(array.as_slice()),
            TypedArray::U16(array) => ctx.to_vec8::<2, u16>(array.as_slice()),
            TypedArray::U32(array) => ctx.to_vec8::<4, u32>(array.as_slice()),
            TypedArray::U64(array) => ctx.to_vec8::<8, u64>(array.as_slice()),
            TypedArray::I8(array) => ctx.to_vec8::<1, i8>(array.as_slice()),
            TypedArray::I16(array) => ctx.to_vec8::<2, i16>(array.as_slice()),
            TypedArray::I32(array) => ctx.to_vec8::<4, i32>(array.as_slice()),
            TypedArray::I64(array) => ctx.to_vec8::<8, i64>(array.as_slice()),
            TypedArray::F16(array) => ctx.to_vec8::<2, Binary16>(array.as_slice()),
            TypedArray::F32(array) => ctx.to_vec8::<4, Binary32>(array.as_slice()),
            TypedArray::F64(array) => ctx.to_vec8::<8, Binary64>(array.as_slice()),
        };
        proof {
            self.lemma_view_well_formed();
            self@.lemma_decode_encoded(ctx.endianness());
        }
        (tag, output)
    }

    /// The array of type `kind` that `array` is the payload of in byte order
    /// `endianness`. A payload that ends inside an element is refused as
    /// truncated; every other payload gives an array.
    pub fn from_u8s(kind: ArrayTypeLength, array: &[u8], endianness: &Endianness) -> (result: Result<
        TypedArray,
        TypedArrayError,
    >)
        ensures
            view_of(result) == TypedArrayView::from_payload(kind, array@, *endianness),
            array@.len() % kind.width() != 0 <==> result == Err::<TypedArray, _>(
                TypedArrayError::TruncatedInput,
            ),
            array@.len() % kind.width() == 0 <==> result is Ok,
    {
        match kind {
            ArrayTypeLength::Float(length) => match length {
                FloatLength::F16 => match unpack::<2, Binary16>(array, endianness) {
                    Ok(values) => Ok(TypedArray::F16(values)),
                    Err(error) => Err(error),
                },
                FloatLength::F32 => match unpack::<4, Binary32>(array, endianness) {
                    Ok(values) => Ok(TypedArray::F32(values)),
                    Err(error) => Err(error),
                },
                FloatLength::F64 => match unpack::<8, Binary64>(array, endianness) {
                    Ok(values) => Ok(TypedArray::F64(values)),
                    Err(error) => Err(error),
                },
            },
            ArrayTypeLength::UInt(length) => match length {
                IntegerLength::I8 => match unpack::<1, u8>(array, endianness) {
                    Ok(values) => Ok(TypedArray::U8(values)),
                    Err(error) => Err(error),
                },
                IntegerLength::I16 => match unpack::<2, u16>(array, endianness) {
                    Ok(values) => Ok(TypedArray::U16(values)),
                    Err(error) => Err(error),
                },
                IntegerLength::I32 => match unpack::<4, u32>(array, endianness) {
                    Ok(values) => Ok(TypedArray::U32(values)),
                    Err(error) => Err(error),
                },
                IntegerLength::I64 => match unpack::<8, u64>(array, endianness) {
                    Ok(values) => Ok(TypedArray::U64(values)),
                    Err(error) => Err(error),
                },
            },
            ArrayTypeLength::SInt(length) => match length {
                IntegerLength::I8 => match unpack::<1, i8>(array, endianness) {
                    Ok(values) => Ok(TypedArray::I8(values)),
                    Err(error) => Err(error),
                },
                IntegerLength::I16 => match unpack::<2, i16>(array, endianness) {
                    Ok(values) => Ok(TypedArray::I16(values)),
                    Err(error) => Err(error),
                },
                IntegerLength::I32 => match unpack::<4, i32>(array, endianness) {
                    Ok(values) => Ok(TypedArray::I32(values)),
                    Err(error) => Err(error),
                },
                IntegerLength::I64 => match unpack::<8, i64>(array, endianness) {
                    Ok(values) => Ok(TypedArray::I64(values)),
                    Err(error) => Err(error),
                },
            },
        }
    }

    /// The array that `tag` and `bytes` stand for. The tag gives the element
    /// type and the byte order. A tag outside the typed-array block, a tag of
    /// the reserved float width and a payload that ends inside an element are
    /// refused, each with its own error, and no array is returned.
    pub fn decode(tag: u64, bytes: &[u8]) -> (result: Result<TypedArray, TypedArrayError>)
        ensures
            view_of(result) == TypedArrayView::decoded(tag, bytes@),
            classify_tag(tag) matches Err(error) ==> result == Err::<TypedArray, _>(error),
            classify_tag(tag) matches Ok((kind, _)) ==> (bytes@.len() % kind.width() != 0 <==> result
                == Err::<TypedArray, _>(TypedArrayError::TruncatedInput)),
            result is Ok <==> (classify_tag(tag) matches Ok((kind, _)) && bytes@.len()
                % kind.width() == 0),
    {
        match tag_to_array_type(tag) {
            Ok((type_length, endianness)) => TypedArray::from_u8s(type_length, bytes, &endianness),
            Err(error) => Err(error),
        }
    }
}

/// A pass over the elements of an array.
pub struct TypedArrayIterator<'a> {
    counter: usize,
    ta: &'a TypedArray,
}

impl<'a> TypedArrayIterator<'a> {
    /// The number of elements already handed out.
    pub closed spec fn position(&self) -> nat {
        self.counter as nat
    }

    /// The array that is passed over.
    pub closed spec fn array(&self) -> TypedArrayView {
        self.ta@
    }

    /// The next element, or nothing once every element has been handed out.
    pub fn next(&mut self) -> (value: Option<TypedArrayValue>)
        ensures
            final(self).array() == old(self).array(),
            old(self).position() < old(self).array().bits.len() ==> {
                &&& value == Some(old(self).array().values()[old(self).position() as int])
                &&& final(self).position() == old(self).position() + 1
            },
            old(self).position() >= old(self).array().bits.len() ==> {
                &&& value is None
                &&& final(self).position() == old(self).position()
            },
    {
        let value = self.ta.get(self.counter);
        if self.counter < self.ta.len() {
            self.counter += 1;
        }
        value
    }
}

} // verus!
