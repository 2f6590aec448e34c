use cbor_typed_arrays::typed_array_tag::{
    tag_is_typed_array, tag_to_array_type, typed_array_tag, ArrayTypeLength, Endianness,
    FloatLength, IntegerLength, FIRST_TAG, LAST_TAG,
};
use cbor_typed_arrays::TypedArrayError;

fn every_type() -> Vec<ArrayTypeLength> {
    vec![
        ArrayTypeLength::UInt(IntegerLength::I8),
        ArrayTypeLength::UInt(IntegerLength::I16),
        ArrayTypeLength::UInt(IntegerLength::I32),
        ArrayTypeLength::UInt(IntegerLength::I64),
        ArrayTypeLength::SInt(IntegerLength::I8),
        ArrayTypeLength::SInt(IntegerLength::I16),
        ArrayTypeLength::SInt(IntegerLength::I32),
        ArrayTypeLength::SInt(IntegerLength::I64),
        ArrayTypeLength::Float(FloatLength::F16),
        ArrayTypeLength::Float(FloatLength::F32),
        ArrayTypeLength::Float(FloatLength::F64),
    ]
}

#[test]
fn tag_round_trip_for_every_type_and_order() {
    for kind in every_type() {
        for order in [Endianness::BigEndian, Endianness::LittleEndian] {
            let tag = typed_array_tag(kind, order);
            assert!((64..=87).contains(&tag));
            assert_eq!(tag_to_array_type(tag), Ok((kind, order)));
        }
    }
}

#[test]
fn tags_are_pairwise_distinct() {
    let mut seen: Vec<u64> = Vec::new();
    for kind in every_type() {
        for order in [Endianness::BigEndian, Endianness::LittleEndian] {
            let tag = typed_array_tag(kind, order);
            assert!(!seen.contains(&tag));
            seen.push(tag);
        }
    }
    assert_eq!(seen.len(), 22);
}

#[test]
fn every_tag_of_the_block_decodes_or_is_reserved() {
    let mut decoded = 0;
    for tag in 64..=87u64 {
        match tag_to_array_type(tag) {
            Ok((kind, order)) => {
                decoded += 1;
                assert_eq!(typed_array_tag(kind, order), tag);
            }
            Err(error) => {
                assert_eq!(error, TypedArrayError::UnsupportedWidth);
                assert!(tag == 83 || tag == 87);
            }
        }
    }
    assert_eq!(decoded, 22);
}

#[test]
fn tags_outside_the_block_are_rejected() {
    for tag in (0..64u64).chain(88..=1024) {
        assert!(!tag_is_typed_array(tag));
        assert_eq!(
            tag_to_array_type(tag),
            Err(TypedArrayError::NotATypedArrayTag)
        );
    }
    for tag in [u64::MAX, u64::MAX - 1, 1 << 32, (1 << 32) + 64, 64 + 256, 87 + 256] {
        assert!(!tag_is_typed_array(tag));
        assert_eq!(
            tag_to_array_type(tag),
            Err(TypedArrayError::NotATypedArrayTag)
        );
    }
}

#[test]
fn block_bounds_are_the_first_and_last_tag() {
    assert_eq!(FIRST_TAG, 64);
    assert_eq!(LAST_TAG, 87);
    assert!(tag_is_typed_array(FIRST_TAG));
    assert!(tag_is_typed_array(LAST_TAG));
    assert!(!tag_is_typed_array(FIRST_TAG - 1));
    assert!(!tag_is_typed_array(LAST_TAG + 1));
}

#[test]
fn header_bits_hold_throughout_the_block() {
    for tag in 64..=87u64 {
        assert_eq!((tag >> 5) & 0b111, 0b010);
    }
}

#[test]
fn reserved_float_width_is_unsupported() {
    assert_eq!(
        tag_to_array_type(0b01010011),
        Err(TypedArrayError::UnsupportedWidth)
    );
    assert_eq!(
        tag_to_array_type(0b01010111),
        Err(TypedArrayError::UnsupportedWidth)
    );
}

#[test]
fn tag_fields_sit_in_their_bits() {
    for kind in every_type() {
        for order in [Endianness::BigEndian, Endianness::LittleEndian] {
            let tag = typed_array_tag(kind, order);
            let (class, signed, code) = match kind {
                ArrayTypeLength::UInt(length) => (0, 0, length_code(length)),
                ArrayTypeLength::SInt(length) => (0, 1, length_code(length)),
                ArrayTypeLength::Float(FloatLength::F16) => (1, 0, 0),
                ArrayTypeLength::Float(FloatLength::F32) => (1, 0, 1),
                ArrayTypeLength::Float(FloatLength::F64) => (1, 0, 2),
            };
            assert_eq!(tag >> 5, 0b010);
            assert_eq!((tag >> 4) & 1, class);
            assert_eq!((tag >> 3) & 1, signed);
            assert_eq!((tag >> 2) & 1, if order == Endianness::BigEndian { 0 } else { 1 });
            assert_eq!(tag & 0b11, code);
        }
    }
}

fn length_code(length: IntegerLength) -> u64 {
    match length {
        IntegerLength::I8 => 0,
        IntegerLength::I16 => 1,
        IntegerLength::I32 => 2,
        IntegerLength::I64 => 3,
    }
}

#[test]
fn concrete_tags() {
    assert_eq!(
        typed_array_tag(ArrayTypeLength::UInt(IntegerLength::I8), Endianness::BigEndian),
        64
    );
    assert_eq!(
        typed_array_tag(ArrayTypeLength::UInt(IntegerLength::I8), Endianness::LittleEndian),
        68
    );
    assert_eq!(
        typed_array_tag(ArrayTypeLength::SInt(IntegerLength::I64), Endianness::LittleEndian),
        79
    );
    assert_eq!(
        typed_array_tag(ArrayTypeLength::Float(FloatLength::F32), Endianness::BigEndian),
        81
    );
}
