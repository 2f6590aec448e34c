//! Fixed-width byte images of numbers, and payloads made of them.
//!
//! An element of width `w` is a number below `radix(w)`: its binary
//! representation read as an unsigned integer. Its image is `w` bytes, in one
//! of two orders. A payload is the images of its elements back to back.

use crate::typed_array_tag::Endianness;
use vstd::arithmetic::div_mod::{
    lemma_div_denominator,
    lemma_div_multiples_vanish,
    lemma_fundamental_div_mod,
};
use vstd::arithmetic::mul::lemma_mul_is_commutative;
use vstd::prelude::*;

verus! {

/// The number of values that `width` bytes can hold: 256 to the power `width`.
pub open spec fn radix(width: nat) -> nat
    decreases width,
{
    if width == 0 {
        1
    } else {
        256 * radix((width - 1) as nat)
    }
}

/// The low `width` bytes of `bits`, least significant byte first.
pub open spec fn le_bytes(bits: nat, width: nat) -> Seq<u8>
    decreases width,
{
    if width == 0 {
        Seq::empty()
    } else {
        seq![(bits % 256) as u8] + le_bytes(bits / 256, (width - 1) as nat)
    }
}

/// The low `width` bytes of `bits`, most significant byte first.
pub open spec fn be_bytes(bits: nat, width: nat) -> Seq<u8>
    decreases width,
{
    if width == 0 {
        Seq::empty()
    } else {
        be_bytes(bits / 256, (width - 1) as nat).push((bits % 256) as u8)
    }
}

/// The number whose least significant byte comes first in `bytes`.
pub open spec fn le_value(bytes: Seq<u8>) -> nat
    decreases bytes.len(),
{
    if bytes.len() == 0 {
        0
    } else {
        bytes[0] as nat + 256 * le_value(bytes.skip(1))
    }
}

/// The number whose most significant byte comes first in `bytes`.
pub open spec fn be_value(bytes: Seq<u8>) -> nat
    decreases bytes.len(),
{
    if bytes.len() == 0 {
        0
    } else {
        256 * be_value(bytes.drop_last()) + bytes.last() as nat
    }
}

/// The image of one element in the given byte order.
pub open spec fn wire_bytes(bits: nat, width: nat, endianness: Endianness) -> Seq<u8> {
    match endianness {
        Endianness::BigEndian => be_bytes(bits, width),
        Endianness::LittleEndian => le_bytes(bits, width),
    }
}

/// The element that `bytes` is the image of in the given byte order.
pub open spec fn wire_value(bytes: Seq<u8>, endianness: Endianness) -> nat {
    match endianness {
        Endianness::BigEndian => be_value(bytes),
        Endianness::LittleEndian => le_value(bytes),
    }
}

/// The payload of `elements`: the image of each, in order, with nothing
/// between them.
pub open spec fn packed(elements: Seq<nat>, width: nat, endianness: Endianness) -> Seq<u8>
    decreases elements.len(),
{
    if elements.len() == 0 {
        Seq::empty()
    } else {
        packed(elements.drop_last(), width, endianness) + wire_bytes(
            elements.last(),
            width,
            endianness,
        )
    }
}

/// Chunk `index` of a payload cut into pieces of `width` bytes.
pub open spec fn chunk(bytes: Seq<u8>, width: nat, index: int) -> Seq<u8> {
    bytes.subrange(index * width, index * width + width)
}

/// The elements of a payload: one for each whole chunk of `width` bytes, in
/// order.
pub open spec fn unpacked(bytes: Seq<u8>, width: nat, endianness: Endianness) -> Seq<nat> {
    Seq::new(
        (bytes.len() / width) as nat,
        |index: int| wire_value(chunk(bytes, width, index), endianness),
    )
}

/// Whether every element fits in `width` bytes.
pub open spec fn all_fit(elements: Seq<nat>, width: nat) -> bool {
    forall|index: int| 0 <= index < elements.len() ==> #[trigger] elements[index] < radix(width)
}

/// An image has exactly `width` bytes.
pub proof fn lemma_wire_bytes_len(bits: nat, width: nat, endianness: Endianness)
    ensures
        wire_bytes(bits, width, endianness).len() == width,
    decreases width,
{
    if width > 0 {
        lemma_wire_bytes_len(bits / 256, (width - 1) as nat, endianness);
    }
}

/// Reading the image of an element that fits gives the element back.
pub proof fn lemma_value_of_image(bits: nat, width: nat, endianness: Endianness)
    requires
        bits < radix(width),
    ensures
        wire_value(wire_bytes(bits, width, endianness), endianness) == bits,
    decreases width,
{
    if width > 0 {
        let rest = (width - 1) as nat;
        lemma_value_of_image(bits / 256, rest, endianness);
        lemma_wire_bytes_len(bits / 256, rest, endianness);
        match endianness {
            Endianness::BigEndian => {
                let image = be_bytes(bits, width);
                assert(image.drop_last() =~= be_bytes(bits / 256, rest));
            },
            Endianness::LittleEndian => {
                let image = le_bytes(bits, width);
                assert(image.skip(1) =~= le_bytes(bits / 256, rest));
            },
        }
    }
}

/// What is read from some bytes fits in as many bytes, and its image is those
/// bytes.
pub proof fn lemma_image_of_value(bytes: Seq<u8>, endianness: Endianness)
    ensures
        wire_value(bytes, endianness) < radix(bytes.len()),
        wire_bytes(wire_value(bytes, endianness), bytes.len(), endianness) == bytes,
    decreases bytes.len(),
{
    let width = bytes.len();
    if width == 0 {
        assert(wire_bytes(0, 0, endianness) =~= bytes);
    } else {
        let rest = (width - 1) as nat;
        match endianness {
            Endianness::BigEndian => {
                let front = bytes.drop_last();
                let low = bytes.last() as nat;
                lemma_image_of_value(front, endianness);
                let high = be_value(front);
                let value = be_value(bytes);
                assert(value == 256 * high + low);
                assert(value % 256 == low && value / 256 == high);
                assert(radix(width) == 256 * radix(rest));
                assert(be_bytes(value, width) == be_bytes(high, rest).push(low as u8));
                assert(be_bytes(value, width) =~= bytes);
            },
            Endianness::LittleEndian => {
                let back = bytes.skip(1);
                let low = bytes[0] as nat;
                lemma_image_of_value(back, endianness);
                let high = le_value(back);
                let value = le_value(bytes);
                assert(value == low + 256 * high);
                assert(value % 256 == low && value / 256 == high);
                assert(radix(width) == 256 * radix(rest));
                assert(le_bytes(value, width) == seq![low as u8] + le_bytes(high, rest));
                assert(le_bytes(value, width) =~= bytes);
            },
        }
    }
}

/// The place values of the first eight bytes.
pub proof fn lemma_radix_values()
    ensures
        radix(0) == 0x1,
        radix(1) == 0x100,
        radix(2) == 0x1_0000,
        radix(3) == 0x100_0000,
        radix(4) == 0x1_0000_0000,
        radix(5) == 0x100_0000_0000,
        radix(6) == 0x1_0000_0000_0000,
        radix(7) == 0x100_0000_0000_0000,
        radix(8) == 0x1_0000_0000_0000_0000,
{
    reveal_with_fuel(radix, 9);
}

/// Byte `index` of an image is the digit of the number at that place: places
/// count up in a little-endian image and down in a big-endian one.
pub proof fn lemma_image_digits(bits: nat, width: nat, index: int)
    requires
        0 <= index < width,
    ensures
        radix(index as nat) > 0,
        radix((width - 1 - index) as nat) > 0,
        le_bytes(bits, width)[index] == (bits / radix(index as nat)) % 256,
        be_bytes(bits, width)[index] == (bits / radix((width - 1 - index) as nat)) % 256,
    decreases width,
{
    let rest = (width - 1) as nat;
    lemma_wire_bytes_len(bits / 256, rest, Endianness::LittleEndian);
    lemma_wire_bytes_len(bits / 256, rest, Endianness::BigEndian);
    if index > 0 {
        lemma_image_digits(bits / 256, rest, index - 1);
        lemma_div_denominator(bits as int, 256, radix((index - 1) as nat) as int);
    }
    if index < width - 1 {
        lemma_image_digits(bits / 256, rest, index);
        lemma_div_denominator(bits as int, 256, radix((width - 2 - index) as nat) as int);
    }
}

/// Bytes that hold the digits of a number, least significant first, are its
/// little-endian image; where the number fits, it is what they read as.
pub proof fn lemma_le_image_by_digits(bits: nat, bytes: Seq<u8>)
    requires
        forall|index: int|
            0 <= index < bytes.len() ==> bytes[index] == (bits / #[trigger] radix(index as nat))
                % 256,
    ensures
        le_bytes(bits, bytes.len()) == bytes,
        bits < radix(bytes.len()) ==> le_value(bytes) == bits,
{
    let image = le_bytes(bits, bytes.len());
    lemma_wire_bytes_len(bits, bytes.len(), Endianness::LittleEndian);
    assert forall|index: int| 0 <= index < bytes.len() implies image[index] == bytes[index] by {
        lemma_image_digits(bits, bytes.len(), index);
    }
    assert(image =~= bytes);
    if bits < radix(bytes.len()) {
        lemma_value_of_image(bits, bytes.len(), Endianness::LittleEndian);
    }
}

/// Bytes that hold the digits of a number, most significant first, are its
/// big-endian image; where the number fits, it is what they read as.
pub proof fn lemma_be_image_by_digits(bits: nat, bytes: Seq<u8>)
    requires
        forall|index: int|
            0 <= index < bytes.len() ==> bytes[bytes.len() - 1 - index] == (bits / #[trigger] radix(
                index as nat,
            )) % 256,
    ensures
        be_bytes(bits, bytes.len()) == bytes,
        bits < radix(bytes.len()) ==> be_value(bytes) == bits,
{
    let image = be_bytes(bits, bytes.len());
    lemma_wire_bytes_len(bits, bytes.len(), Endianness::BigEndian);
    assert forall|index: int| 0 <= index < bytes.len() implies image[index] == bytes[index] by {
        lemma_image_digits(bits, bytes.len(), index);
        let place = bytes.len() - 1 - index;
        assert(bytes[bytes.len() - 1 - place] == (bits / radix(place as nat)) % 256);
    }
    assert(image =~= bytes);
    if bits < radix(bytes.len()) {
        lemma_value_of_image(bits, bytes.len(), Endianness::BigEndian);
    }
}

/// The images of a number of one byte, written out.
pub proof fn lemma_images_of_1(bits: nat)
    requires
        bits < 0x100,
    ensures
        le_bytes(bits, 1) == seq![bits as u8],
        be_bytes(bits, 1) == seq![bits as u8],
        le_value(seq![bits as u8]) == bits,
        be_value(seq![bits as u8]) == bits,
{
    lemma_radix_values();
    let bytes = seq![bits as u8];
    assert forall|index: int| 0 <= index < 1 implies bytes[index] == (bits / #[trigger] radix(
        index as nat,
    )) % 256 by {
        assert(radix(index as nat) == 1);
    }
    lemma_le_image_by_digits(bits, bytes);
    lemma_be_image_by_digits(bits, bytes);
}

/// The images of a number of two bytes, written out by its digits.
pub proof fn lemma_images_of_2(bits: nat, b0: u8, b1: u8)
    requires
        bits < 0x1_0000,
        b0 == bits % 0x100,
        b1 == bits / 0x100 % 0x100,
    ensures
        le_bytes(bits, 2) == seq![b0, b1],
        be_bytes(bits, 2) == seq![b1, b0],
        le_value(seq![b0, b1]) == bits,
        be_value(seq![b1, b0]) == bits,
{
    lemma_radix_values();
    let low_first = seq![b0, b1];
    let high_first = seq![b1, b0];
    assert forall|index: int| 0 <= index < 2 implies low_first[index] == (bits / #[trigger] radix(
        index as nat,
    )) % 256 && high_first[1 - index] == (bits / radix(index as nat)) % 256 by {
        if index == 0 {
            assert(radix(index as nat) == 0x1);
        } else {
            assert(radix(index as nat) == 0x100);
        }
    }
    lemma_le_image_by_digits(bits, low_first);
    lemma_be_image_by_digits(bits, high_first);
}

/// The images of a number of four bytes, written out by its digits.
pub proof fn lemma_images_of_4(bits: nat, b0: u8, b1: u8, b2: u8, b3: u8)
    requires
        bits < 0x1_0000_0000,
        b0 == bits % 0x100,
        b1 == bits / 0x100 % 0x100,
        b2 == bits / 0x1_0000 % 0x100,
        b3 == bits / 0x100_0000 % 0x100,
    ensures
        le_bytes(bits, 4) == seq![b0, b1, b2, b3],
        be_bytes(bits, 4) == seq![b3, b2, b1, b0],
        le_value(seq![b0, b1, b2, b3]) == bits,
        be_value(seq![b3, b2, b1, b0]) == bits,
{
    lemma_radix_values();
    let low_first = seq![b0, b1, b2, b3];
    let high_first = seq![b3, b2, b1, b0];
    assert forall|index: int| 0 <= index < 4 implies low_first[index] == (bits / #[trigger] radix(
        index as nat,
    )) % 256 && high_first[3 - index] == (bits / radix(index as nat)) % 256 by {
        if index == 0 {
            assert(radix(index as nat) == 0x1);
        } else if index == 1 {
            assert(radix(index as nat) == 0x100);
        } else if index == 2 {
            assert(radix(index as nat) == 0x1_0000);
        } else {
            assert(radix(index as nat) == 0x100_0000);
        }
    }
    lemma_le_image_by_digits(bits, low_first);
    lemma_be_image_by_digits(bits, high_first);
}

/// The images of a number of eight bytes, written out by its digits.
pub proof fn lemma_images_of_8(
    bits: nat,
    b0: u8,
    b1: u8,
    b2: u8,
    b3: u8,
    b4: u8,
    b5: u8,
    b6: u8,
    b7: u8,
)
    requires
        bits < 0x1_0000_0000_0000_0000,
        b0 == bits % 0x100,
        b1 == bits / 0x100 % 0x100,
        b2 == bits / 0x1_0000 % 0x100,
        b3 == bits / 0x100_0000 % 0x100,
        b4 == bits / 0x1_0000_0000 % 0x100,
        b5 == bits / 0x100_0000_0000 % 0x100,
        b6 == bits / 0x1_0000_0000_0000 % 0x100,
        b7 == bits / 0x100_0000_0000_0000 % 0x100,
    ensures
        le_bytes(bits, 8) == seq![b0, b1, b2, b3, b4, b5, b6, b7],
        be_bytes(bits, 8) == seq![b7, b6, b5, b4, b3, b2, b1, b0],
        le_value(seq![b0, b1, b2, b3, b4, b5, b6, b7]) == bits,
        be_value(seq![b7, b6, b5, b4, b3, b2, b1, b0]) == bits,
{
    lemma_radix_values();
    let low_first = seq![b0, b1, b2, b3, b4, b5, b6, b7];
    let high_first = seq![b7, b6, b5, b4, b3, b2, b1, b0];
    assert forall|index: int| 0 <= index < 8 implies low_first[index] == (bits / #[trigger] radix(
        index as nat,
    )) % 256 && high_first[7 - index] == (bits / radix(index as nat)) % 256 by {
        if index == 0 {
            assert(radix(index as nat) == 0x1);
        } else if index == 1 {
            assert(radix(index as nat) == 0x100);
        } else if index == 2 {
            assert(radix(index as nat) == 0x1_0000);
        } else if index == 3 {
            assert(radix(index as nat) == 0x100_0000);
        } else if index == 4 {
            assert(radix(index as nat) == 0x1_0000_0000);
        } else if index == 5 {
            assert(radix(index as nat) == 0x100_0000_0000);
        } else if index == 6 {
            assert(radix(index as nat) == 0x1_0000_0000_0000);
        } else {
            assert(radix(index as nat) == 0x100_0000_0000_0000);
        }
    }
    lemma_le_image_by_digits(bits, low_first);
    lemma_be_image_by_digits(bits, high_first);
}

/// A payload has `width` bytes for each element, and chunk `index` of it is
/// the image of element `index`.
pub proof fn lemma_packed_layout(elements: Seq<nat>, width: nat, endianness: Endianness)
    ensures
        packed(elements, width, endianness).len() == elements.len() * width,
        forall|index: int|
            0 <= index < elements.len() ==> #[trigger] chunk(
                packed(elements, width, endianness),
                width,
                index,
            ) == wire_bytes(elements[index], width, endianness),
    decreases elements.len(),
{
    let payload = packed(elements, width, endianness);
    if elements.len() > 0 {
        let front = elements.drop_last();
        let head = packed(front, width, endianness);
        let tail = wire_bytes(elements.last(), width, endianness);
        lemma_packed_layout(front, width, endianness);
        lemma_wire_bytes_len(elements.last(), width, endianness);
        assert(front.len() * width + width == elements.len() * width) by (nonlinear_arith)
            requires
                front.len() + 1 == elements.len(),
        ;
        assert forall|index: int| 0 <= index < elements.len() implies #[trigger] chunk(
            payload,
            width,
            index,
        ) == wire_bytes(elements[index], width, endianness) by {
            if index < front.len() {
                assert(0 <= index * width && index * width + width <= front.len() * width)
                    by (nonlinear_arith)
                    requires
                        0 <= index < front.len(),
                ;
                assert(chunk(payload, width, index) =~= chunk(head, width, index));
                assert(front[index] == elements[index]);
            } else {
                assert(chunk(payload, width, index) =~= tail);
            }
        }
    }
}

/// Unpacking the payload of elements that fit gives the elements back.
pub proof fn lemma_unpack_packed(elements: Seq<nat>, width: nat, endianness: Endianness)
    requires
        width > 0,
        all_fit(elements, width),
    ensures
        packed(elements, width, endianness).len() % width == 0,
        unpacked(packed(elements, width, endianness), width, endianness) == elements,
{
    let payload = packed(elements, width, endianness);
    lemma_packed_layout(elements, width, endianness);
    lemma_mul_is_commutative(elements.len() as int, width as int);
    lemma_div_multiples_vanish(elements.len() as int, width as int);
    lemma_fundamental_div_mod(payload.len() as int, width as int);
    let back = unpacked(payload, width, endianness);
    assert(back.len() == elements.len());
    assert forall|index: int| 0 <= index < elements.len() implies back[index]
        == elements[index] by {
        assert(chunk(payload, width, index) == wire_bytes(elements[index], width, endianness));
        lemma_value_of_image(elements[index], width, endianness);
    }
    assert(back =~= elements);
}

/// Every element unpacked from a payload fits in `width` bytes, and packing
/// the elements of a payload that ends on an element boundary gives the
/// payload back.
pub proof fn lemma_pack_unpacked(bytes: Seq<u8>, width: nat, endianness: Endianness)
    requires
        width > 0,
        bytes.len() % width == 0,
    ensures
        all_fit(unpacked(bytes, width, endianness), width),
        packed(unpacked(bytes, width, endianness), width, endianness) == bytes,
    decreases bytes.len(),
{
    let elements = unpacked(bytes, width, endianness);
    let count = bytes.len() / width;
    lemma_fundamental_div_mod(bytes.len() as int, width as int);
    assert(bytes.len() == width * count);
    assert forall|index: int| 0 <= index < elements.len() implies #[trigger] elements[index]
        < radix(width) by {
        assert(0 <= index * width && index * width + width <= width * count)
            by (nonlinear_arith)
            requires
                0 <= index < count,
        ;
        lemma_image_of_value(chunk(bytes, width, index), endianness);
    }
    if count > 0 {
        let cut = bytes.len() - width;
        let front = bytes.take(cut);
        assert(cut == width * (count - 1)) by (nonlinear_arith)
            requires
                bytes.len() == width * count,
                cut == bytes.len() - width,
        ;
        lemma_mul_is_commutative(count - 1, width as int);
        lemma_div_multiples_vanish(count - 1, width as int);
        lemma_fundamental_div_mod(cut as int, width as int);
        assert(front.len() / width == count - 1);
        assert(front.len() % width == 0);
        lemma_pack_unpacked(front, width, endianness);
        let front_elements = unpacked(front, width, endianness);
        assert forall|index: int| 0 <= index < count - 1 implies front_elements[index]
            == elements[index] by {
            assert(0 <= index * width && index * width + width <= cut) by (nonlinear_arith)
                requires
                    0 <= index < count - 1,
                    cut == width * (count - 1),
            ;
            assert(chunk(front, width, index) =~= chunk(bytes, width, index));
        }
        assert(elements.drop_last() =~= front_elements);
        assert((count - 1) * width == cut) by (nonlinear_arith)
            requires
                cut == width * (count - 1),
        ;
        let last = chunk(bytes, width, count - 1);
        assert(last =~= bytes.skip(cut));
        lemma_image_of_value(last, endianness);
        assert(front + last =~= bytes);
    } else {
        assert(bytes.len() == 0) by (nonlinear_arith)
            requires
                bytes.len() == width * count,
                count == 0,
        ;
        assert(elements.len() == 0);
        assert(packed(elements, width, endianness) =~= bytes);
    }
}

} // verus!
