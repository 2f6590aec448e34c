use cbor_typed_arrays::binary_float::{Binary16, Binary32, Binary64};
use cbor_typed_arrays::typed_array_tag::{ArrayTypeLength, FloatLength, IntegerLength};
use cbor_typed_arrays::{Endianness, TypedArray, TypedArrayContext, TypedArrayError};
use half::f16;
use minicbor::data::Tag;

/// Writes the array as one tagged byte string, reads the tag and the bytes
/// back, and decodes them.
fn through_the_wire(input: &TypedArray, order: Endianness) -> TypedArray {
    let context = TypedArrayContext::new(order);
    let (tag, payload) = input.encode(&context);
    let mut encoder = minicbor::Encoder::new(Vec::new());
    encoder
        .tag(Tag::Unassigned(tag))
        .unwrap()
        .bytes(&payload)
        .unwrap();
    let wire = encoder.into_writer();
    let mut decoder = minicbor::Decoder::new(&wire);
    let number = match decoder.tag().unwrap() {
        Tag::Unassigned(number) => number,
        other => panic!("expected typed array tag, found {:?}", other),
    };
    assert_eq!(number, tag);
    let bytes = decoder.bytes().unwrap();
    assert_eq!(bytes, &payload[..]);
    TypedArray::decode(number, bytes).unwrap()
}

fn encode_decode_test(input: TypedArray) {
    let decoded = through_the_wire(&input, Endianness::LittleEndian);
    assert_eq!(decoded, input);
    let decoded = through_the_wire(&input, Endianness::BigEndian);
    assert_eq!(decoded, input);
}

#[test]
fn encode_decode_test_f16() {
    encode_decode_test(TypedArray::F16(vec![
        Binary16(f16::from_f32(7.0).to_bits()),
        Binary16(f16::from_f32(8.0).to_bits()),
    ]));
}

#[test]
fn encode_decode_test_f32() {
    let floats: [f32; 5] = [1.0, 2.0, 3.0, 4.0, 5.0];
    encode_decode_test(TypedArray::F32(
        floats.iter().map(|x| Binary32(x.to_bits())).collect(),
    ));
}

#[test]
fn encode_decode_test_f64() {
    let floats: [f64; 5] = [1.0, 2.0, 3.0, 4.0, 5.0];
    encode_decode_test(TypedArray::F64(
        floats.iter().map(|x| Binary64(x.to_bits())).collect(),
    ));
}

#[test]
fn encode_decode_test_i8() {
    encode_decode_test(TypedArray::I8(vec![1, 2, 3, 4, 5]));
}

#[test]
fn encode_decode_test_i16() {
    encode_decode_test(TypedArray::I16(vec![2_i16.pow(10), -2, 3, -4, 5]));
}

#[test]
fn encode_decode_test_i32() {
    encode_decode_test(TypedArray::I32(vec![2_i32.pow(20), -2, 3, -4, 5]));
}

#[test]
fn encode_decode_test_i64() {
    encode_decode_test(TypedArray::I64(vec![2_i64.pow(40), -2, 3, -4, 5]));
}

#[test]
fn encode_decode_test_u8() {
    encode_decode_test(TypedArray::U8(vec![1, 2, 3, 4, 5]));
}

#[test]
fn encode_decode_test_u16() {
    encode_decode_test(TypedArray::U16(vec![2_u16.pow(10), 2, 3, 4, 5]));
}

#[test]
fn encode_decode_test_u32() {
    encode_decode_test(TypedArray::U32(vec![2_u32.pow(20), 2, 3, 4, 5]));
}

#[test]
fn encode_decode_test_u64() {
    encode_decode_test(TypedArray::U64(vec![2_u64.pow(40), 2, 3, 4, 5]));
}

#[test]
fn float_bit_patterns_survive_exactly() {
    let odd: Vec<Binary32> = vec![
        Binary32(f32::NAN.to_bits()),
        Binary32(0x7fc0_0001),
        Binary32(0xffc1_2345),
        Binary32((-0.0f32).to_bits()),
        Binary32(0.0f32.to_bits()),
        Binary32(f32::INFINITY.to_bits()),
        Binary32(1),
    ];
    encode_decode_test(TypedArray::F32(odd));
    let odd: Vec<Binary64> = vec![
        Binary64(f64::NAN.to_bits()),
        Binary64(0x7ff0_0000_0000_0001),
        Binary64((-0.0f64).to_bits()),
        Binary64(f64::MIN_POSITIVE.to_bits()),
    ];
    encode_decode_test(TypedArray::F64(odd));
    let odd: Vec<Binary16> = vec![Binary16(0x7e01), Binary16(0x8000), Binary16(0xfc00)];
    encode_decode_test(TypedArray::F16(odd));
}

#[test]
fn extreme_integers_survive() {
    encode_decode_test(TypedArray::I8(vec![i8::MIN, -1, 0, i8::MAX]));
    encode_decode_test(TypedArray::I16(vec![i16::MIN, -1, 0, i16::MAX]));
    encode_decode_test(TypedArray::I32(vec![i32::MIN, -1, 0, i32::MAX]));
    encode_decode_test(TypedArray::I64(vec![i64::MIN, -1, 0, i64::MAX]));
    encode_decode_test(TypedArray::U8(vec![0, u8::MAX]));
    encode_decode_test(TypedArray::U16(vec![0, u16::MAX]));
    encode_decode_test(TypedArray::U32(vec![0, u32::MAX]));
    encode_decode_test(TypedArray::U64(vec![0, u64::MAX]));
}

#[test]
fn u16_array_little_endian_concrete_bytes() {
    let array = TypedArray::U16(vec![256, 2, 3, 4, 5]);
    let context = TypedArrayContext::new(Endianness::LittleEndian);
    let (tag, payload) = array.encode(&context);
    assert_eq!(tag, 69);
    assert_eq!(
        payload,
        vec![0x00, 0x01, 0x02, 0x00, 0x03, 0x00, 0x04, 0x00, 0x05, 0x00]
    );
    assert_eq!(TypedArray::decode(69, &payload), Ok(array));
}

#[test]
fn u16_array_big_endian_concrete_bytes() {
    let array = TypedArray::U16(vec![256, 2, 3, 4, 5]);
    let context = TypedArrayContext::new(Endianness::BigEndian);
    let (tag, payload) = array.encode(&context);
    assert_eq!(tag, 65);
    assert_eq!(
        payload,
        vec![0x01, 0x00, 0x00, 0x02, 0x00, 0x03, 0x00, 0x04, 0x00, 0x05]
    );
    assert_eq!(TypedArray::decode(65, &payload), Ok(array));
}

#[test]
fn f32_array_concrete_bytes() {
    let array = TypedArray::F32(vec![Binary32(1.0f32.to_bits()), Binary32((-2.0f32).to_bits())]);
    let (tag, payload) = array.encode(&TypedArrayContext::new(Endianness::BigEndian));
    assert_eq!(tag, 81);
    assert_eq!(payload, vec![0x3f, 0x80, 0x00, 0x00, 0xc0, 0x00, 0x00, 0x00]);
    let (tag, payload) = array.encode(&TypedArrayContext::new(Endianness::LittleEndian));
    assert_eq!(tag, 85);
    assert_eq!(payload, vec![0x00, 0x00, 0x80, 0x3f, 0x00, 0x00, 0x00, 0xc0]);
}

#[test]
fn the_tag_decides_the_byte_order_on_decode() {
    let bytes = [0x01, 0x00, 0x00, 0x02];
    assert_eq!(
        TypedArray::decode(65, &bytes),
        Ok(TypedArray::U16(vec![256, 2]))
    );
    assert_eq!(
        TypedArray::decode(69, &bytes),
        Ok(TypedArray::U16(vec![1, 512]))
    );
    assert_eq!(
        TypedArray::decode(73, &bytes),
        Ok(TypedArray::I16(vec![256, 2]))
    );
    assert_eq!(
        TypedArray::decode(66, &bytes),
        Ok(TypedArray::U32(vec![0x0100_0002]))
    );
    assert_eq!(
        TypedArray::decode(85, &bytes),
        Ok(TypedArray::F32(vec![Binary32(0x0200_0001)]))
    );
    assert_eq!(
        TypedArray::decode(64, &bytes),
        Ok(TypedArray::U8(vec![1, 0, 0, 2]))
    );
}

#[test]
fn truncated_payload_is_refused() {
    assert_eq!(
        TypedArray::decode(66, &[1, 2, 3]),
        Err(TypedArrayError::TruncatedInput)
    );
    assert_eq!(
        TypedArray::decode(85, &[1, 2, 3, 4, 5]),
        Err(TypedArrayError::TruncatedInput)
    );
    assert_eq!(
        TypedArray::decode(69, &[1]),
        Err(TypedArrayError::TruncatedInput)
    );
    assert_eq!(
        TypedArray::decode(79, &[0; 9]),
        Err(TypedArrayError::TruncatedInput)
    );
    assert_eq!(
        TypedArray::from_u8s(
            ArrayTypeLength::UInt(IntegerLength::I32),
            &[1, 2, 3],
            &Endianness::BigEndian
        ),
        Err(TypedArrayError::TruncatedInput)
    );
    assert_eq!(
        TypedArray::from_u8s(
            ArrayTypeLength::Float(FloatLength::F16),
            &[1, 2, 3],
            &Endianness::LittleEndian
        ),
        Err(TypedArrayError::TruncatedInput)
    );
}

#[test]
fn one_byte_elements_are_never_truncated() {
    for len in 0..9usize {
        let bytes = vec![0xffu8; len];
        assert_eq!(
            TypedArray::decode(64, &bytes),
            Ok(TypedArray::U8(vec![255; len]))
        );
        assert_eq!(
            TypedArray::decode(76, &bytes),
            Ok(TypedArray::I8(vec![-1; len]))
        );
    }
}

#[test]
fn refused_tags_give_no_array() {
    assert_eq!(
        TypedArray::decode(0, &[]),
        Err(TypedArrayError::NotATypedArrayTag)
    );
    assert_eq!(
        TypedArray::decode(63, &[1, 2, 3, 4]),
        Err(TypedArrayError::NotATypedArrayTag)
    );
    assert_eq!(
        TypedArray::decode(88, &[1, 2, 3, 4]),
        Err(TypedArrayError::NotATypedArrayTag)
    );
    assert_eq!(
        TypedArray::decode(83, &[0; 16]),
        Err(TypedArrayError::UnsupportedWidth)
    );
    assert_eq!(
        TypedArray::decode(87, &[0; 16]),
        Err(TypedArrayError::UnsupportedWidth)
    );
    // The tag is judged before the payload.
    assert_eq!(
        TypedArray::decode(10, &[1, 2, 3]),
        Err(TypedArrayError::NotATypedArrayTag)
    );
    assert_eq!(
        TypedArray::decode(83, &[1, 2, 3]),
        Err(TypedArrayError::UnsupportedWidth)
    );
}

fn empty_of_each() -> Vec<TypedArray> {
    vec![
        TypedArray::U8(vec![]),
        TypedArray::U16(vec![]),
        TypedArray::U32(vec![]),
        TypedArray::U64(vec![]),
        TypedArray::I8(vec![]),
        TypedArray::I16(vec![]),
        TypedArray::I32(vec![]),
        TypedArray::I64(vec![]),
        TypedArray::F16(vec![]),
        TypedArray::F32(vec![]),
        TypedArray::F64(vec![]),
    ]
}

#[test]
fn empty_arrays_round_trip_with_their_type() {
    for array in empty_of_each() {
        for order in [Endianness::BigEndian, Endianness::LittleEndian] {
            let (tag, payload) = array.encode(&TypedArrayContext::new(order));
            assert!(payload.is_empty());
            assert!((64..=87).contains(&tag));
            let decoded = TypedArray::decode(tag, &payload).unwrap();
            assert!(decoded.is_empty());
            assert_eq!(decoded.kind(), array.kind());
            assert_eq!(decoded, array);
            assert_eq!(through_the_wire(&array, order), array);
        }
    }
}

#[test]
fn from_u8s_builds_the_named_type() {
    let bytes = [0xff, 0xfe, 0x00, 0x01];
    assert_eq!(
        TypedArray::from_u8s(
            ArrayTypeLength::SInt(IntegerLength::I16),
            &bytes,
            &Endianness::BigEndian
        ),
        Ok(TypedArray::I16(vec![-2, 1]))
    );
    assert_eq!(
        TypedArray::from_u8s(
            ArrayTypeLength::SInt(IntegerLength::I16),
            &bytes,
            &Endianness::LittleEndian
        ),
        Ok(TypedArray::I16(vec![-257, 256]))
    );
    assert_eq!(
        TypedArray::from_u8s(
            ArrayTypeLength::Float(FloatLength::F16),
            &bytes,
            &Endianness::BigEndian
        ),
        Ok(TypedArray::F16(vec![Binary16(0xfffe), Binary16(0x0001)]))
    );
    assert_eq!(
        TypedArray::from_u8s(
            ArrayTypeLength::SInt(IntegerLength::I32),
            &bytes,
            &Endianness::BigEndian
        ),
        Ok(TypedArray::I32(vec![-131071]))
    );
    assert_eq!(
        TypedArray::from_u8s(
            ArrayTypeLength::Float(FloatLength::F64),
            &[0x3f, 0xf0, 0, 0, 0, 0, 0, 0],
            &Endianness::BigEndian
        ),
        Ok(TypedArray::F64(vec![Binary64(1.0f64.to_bits())]))
    );
}

#[test]
fn payload_length_is_count_times_width() {
    let context = TypedArrayContext::new(Endianness::BigEndian);
    assert_eq!(TypedArray::U8(vec![0; 7]).encode(&context).1.len(), 7);
    assert_eq!(TypedArray::I16(vec![0; 7]).encode(&context).1.len(), 14);
    assert_eq!(TypedArray::F16(vec![Binary16(0); 7]).encode(&context).1.len(), 14);
    assert_eq!(TypedArray::U32(vec![0; 7]).encode(&context).1.len(), 28);
    assert_eq!(TypedArray::F32(vec![Binary32(0); 7]).encode(&context).1.len(), 28);
    assert_eq!(TypedArray::I64(vec![0; 7]).encode(&context).1.len(), 56);
    assert_eq!(TypedArray::F64(vec![Binary64(0); 7]).encode(&context).1.len(), 56);
}
