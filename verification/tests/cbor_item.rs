use cbor_typed_arrays::binary_float::Binary32;
use cbor_typed_arrays::cbor::{decode_item, DecodeError};
use cbor_typed_arrays::{Endianness, TypedArray, TypedArrayContext, TypedArrayError};
use minicbor::data::Tag;

fn item(tag: Tag, payload: &[u8]) -> Vec<u8> {
    let mut encoder = minicbor::Encoder::new(Vec::new());
    encoder.tag(tag).unwrap().bytes(payload).unwrap();
    encoder.into_writer()
}

fn wire(array: &TypedArray, order: Endianness) -> Vec<u8> {
    let (tag, payload) = array.encode(&TypedArrayContext::new(order));
    item(Tag::Unassigned(tag), &payload)
}

#[test]
fn item_is_read_with_the_position_after_it() {
    let array = TypedArray::U16(vec![256, 2, 3, 4, 5]);
    let bytes = wire(&array, Endianness::LittleEndian);
    // Tag 69 in one byte after the lead byte, ten payload bytes after theirs.
    assert_eq!(
        bytes,
        vec![0xd8, 69, 0x4a, 0x00, 0x01, 0x02, 0x00, 0x03, 0x00, 0x04, 0x00, 0x05, 0x00]
    );
    let (decoded, next) = decode_item(&bytes, 0).unwrap();
    assert_eq!(decoded, array);
    assert_eq!(next, bytes.len());
}

#[test]
fn item_is_read_from_the_middle_of_a_stream() {
    let first = TypedArray::I32(vec![-1, 2]);
    let second = TypedArray::F32(vec![Binary32(1.5f32.to_bits())]);
    let mut stream = vec![0x01, 0x02];
    stream.extend(wire(&first, Endianness::BigEndian));
    let boundary = stream.len();
    stream.extend(wire(&second, Endianness::LittleEndian));
    stream.push(0xf6);
    let (decoded, next) = decode_item(&stream, 2).unwrap();
    assert_eq!(decoded, first);
    assert_eq!(next, boundary);
    let (decoded, next) = decode_item(&stream, next).unwrap();
    assert_eq!(decoded, second);
    assert_eq!(next, stream.len() - 1);
}

#[test]
fn every_type_is_read_back_in_both_orders() {
    let arrays = vec![
        TypedArray::U8(vec![1, 2, 3]),
        TypedArray::U16(vec![1024, 2, 3]),
        TypedArray::U32(vec![1 << 20, 2, 3]),
        TypedArray::U64(vec![1 << 40, 2, 3]),
        TypedArray::I8(vec![-1, 2, -3]),
        TypedArray::I16(vec![1024, -2, 3]),
        TypedArray::I32(vec![1 << 20, -2, 3]),
        TypedArray::I64(vec![1 << 40, -2, 3]),
        TypedArray::F32(vec![Binary32(0x3f80_0000), Binary32(0x7fc0_0001)]),
    ];
    for array in arrays {
        for order in [Endianness::BigEndian, Endianness::LittleEndian] {
            let bytes = wire(&array, order);
            let (decoded, next) = decode_item(&bytes, 0).unwrap();
            assert_eq!(decoded, array);
            assert_eq!(next, bytes.len());
        }
    }
}

#[test]
fn a_long_payload_has_a_longer_length_field() {
    let array = TypedArray::U8((0..=255u8).cycle().take(70_000).collect());
    let bytes = wire(&array, Endianness::BigEndian);
    assert_eq!(bytes.len(), 2 + 5 + 70_000);
    let (decoded, next) = decode_item(&bytes, 0).unwrap();
    assert_eq!(decoded, array);
    assert_eq!(next, bytes.len());
}

#[test]
fn reader_failures_are_passed_on() {
    // No input at all, and a position beyond the input.
    assert!(matches!(decode_item(&[], 0), Err(DecodeError::Reader(_))));
    assert!(matches!(decode_item(&[0xd8, 69, 0x40], 7), Err(DecodeError::Reader(_))));
    // An unsigned integer where the tag should stand.
    assert!(matches!(decode_item(&[0x18, 69, 0x40], 0), Err(DecodeError::Reader(_))));
    // The tag breaks off.
    assert!(matches!(decode_item(&[0xd8], 0), Err(DecodeError::Reader(_))));
    // A text string where the byte string should stand.
    assert!(matches!(decode_item(&[0xd8, 69, 0x60], 0), Err(DecodeError::Reader(_))));
    // Nothing after the tag.
    assert!(matches!(decode_item(&[0xd8, 69], 0), Err(DecodeError::Reader(_))));
    // The byte string announces four bytes and holds two.
    assert!(matches!(
        decode_item(&[0xd8, 69, 0x44, 1, 2], 0),
        Err(DecodeError::Reader(_))
    ));
    // A byte string of indefinite length.
    assert!(matches!(
        decode_item(&[0xd8, 69, 0x5f, 0x42, 1, 2, 0xff], 0),
        Err(DecodeError::Reader(_))
    ));
}

#[test]
fn reader_error_keeps_its_own_text() {
    let mut decoder = minicbor::Decoder::new(&[0x18, 69, 0x40]);
    let expected = decoder.tag().unwrap_err().to_string();
    match decode_item(&[0x18, 69, 0x40], 0) {
        Err(DecodeError::Reader(error)) => assert_eq!(error.to_string(), expected),
        other => panic!("expected a reader error, found {:?}", other),
    }
}

#[test]
fn refused_tags_are_reported_whatever_follows() {
    for tag in [Tag::Unassigned(10), Tag::Unassigned(63), Tag::Unassigned(88), Tag::Unassigned(1 << 40)] {
        assert!(matches!(
            decode_item(&item(tag, &[1, 2, 3, 4]), 0),
            Err(DecodeError::Array(TypedArrayError::NotATypedArrayTag))
        ));
    }
    for tag in [Tag::DateTime, Tag::PosBignum, Tag::Cbor, Tag::Mime] {
        assert!(matches!(
            decode_item(&item(tag, &[1, 2, 3, 4]), 0),
            Err(DecodeError::Array(TypedArrayError::NotATypedArrayTag))
        ));
    }
    for number in [83, 87] {
        assert!(matches!(
            decode_item(&item(Tag::Unassigned(number), &[0; 16]), 0),
            Err(DecodeError::Array(TypedArrayError::UnsupportedWidth))
        ));
    }
    // Refused before the reader looks for the byte string.
    assert!(matches!(
        decode_item(&[0xd8, 10], 0),
        Err(DecodeError::Array(TypedArrayError::NotATypedArrayTag))
    ));
    assert!(matches!(
        decode_item(&[0xd8, 83, 0x60], 0),
        Err(DecodeError::Array(TypedArrayError::UnsupportedWidth))
    ));
}

#[test]
fn payload_that_ends_inside_an_element_is_refused() {
    assert!(matches!(
        decode_item(&item(Tag::Unassigned(66), &[1, 2, 3]), 0),
        Err(DecodeError::Array(TypedArrayError::TruncatedInput))
    ));
    assert!(matches!(
        decode_item(&item(Tag::Unassigned(69), &[1, 2, 3]), 0),
        Err(DecodeError::Array(TypedArrayError::TruncatedInput))
    ));
    assert!(matches!(
        decode_item(&item(Tag::Unassigned(86), &[0; 12]), 0),
        Err(DecodeError::Array(TypedArrayError::TruncatedInput))
    ));
}

#[test]
fn tag_may_be_written_wider_than_it_needs() {
    // Tag 65 in two bytes, then a byte string of two bytes.
    let (decoded, next) = decode_item(&[0xd9, 0x00, 65, 0x42, 0x01, 0x00], 0).unwrap();
    assert_eq!(decoded, TypedArray::U16(vec![256]));
    assert_eq!(next, 6);
}

#[test]
fn empty_payload_gives_an_empty_array() {
    let (decoded, next) = decode_item(&[0xd8, 82, 0x40], 0).unwrap();
    assert_eq!(decoded, TypedArray::F64(vec![]));
    assert_eq!(next, 3);
}
