use cbor_typed_arrays::binary_float::{Binary16, Binary32, Binary64};
use cbor_typed_arrays::endianness::{unpack, EndiannessAware, ToFromBytes};
use cbor_typed_arrays::{Endianness, TypedArrayContext, TypedArrayError};

fn samples() -> Vec<u64> {
    let mut values: Vec<u64> = vec![
        0,
        1,
        2,
        0x7f,
        0x80,
        0xff,
        0x100,
        0x7fff,
        0x8000,
        0xffff,
        0x1_0000,
        0x7fff_ffff,
        0x8000_0000,
        0xffff_ffff,
        0x1_0000_0000,
        0x0102_0304_0506_0708,
        0x7fff_ffff_ffff_ffff,
        0x8000_0000_0000_0000,
        0xffff_ffff_ffff_ffff,
    ];
    let mut state: u64 = 0x9e37_79b9_7f4a_7c15;
    for _ in 0..2000 {
        state = state
            .wrapping_mul(6364136223846793005)
            .wrapping_add(1442695040888963407);
        values.push(state ^ (state >> 29));
    }
    values
}

#[test]
fn u8_images_match_the_standard_ones() {
    for x in 0..=u8::MAX {
        assert_eq!(<u8 as ToFromBytes<1>>::to_le(&x), x.to_le_bytes());
        assert_eq!(<u8 as ToFromBytes<1>>::to_be(&x), x.to_be_bytes());
        assert_eq!(<u8 as ToFromBytes<1>>::from_le(&[x]), x);
        assert_eq!(<u8 as ToFromBytes<1>>::from_be(&[x]), x);
    }
}

#[test]
fn i8_images_match_the_standard_ones() {
    for x in i8::MIN..=i8::MAX {
        assert_eq!(<i8 as ToFromBytes<1>>::to_le(&x), x.to_le_bytes());
        assert_eq!(<i8 as ToFromBytes<1>>::to_be(&x), x.to_be_bytes());
        assert_eq!(<i8 as ToFromBytes<1>>::from_le(&x.to_le_bytes()), x);
        assert_eq!(<i8 as ToFromBytes<1>>::from_be(&x.to_be_bytes()), x);
    }
}

#[test]
fn u16_images_match_the_standard_ones() {
    for x in 0..=u16::MAX {
        assert_eq!(<u16 as ToFromBytes<2>>::to_le(&x), x.to_le_bytes());
        assert_eq!(<u16 as ToFromBytes<2>>::to_be(&x), x.to_be_bytes());
        assert_eq!(<u16 as ToFromBytes<2>>::from_le(&x.to_le_bytes()), x);
        assert_eq!(<u16 as ToFromBytes<2>>::from_be(&x.to_be_bytes()), x);
    }
}

#[test]
fn i16_images_match_the_standard_ones() {
    for x in i16::MIN..=i16::MAX {
        assert_eq!(<i16 as ToFromBytes<2>>::to_le(&x), x.to_le_bytes());
        assert_eq!(<i16 as ToFromBytes<2>>::to_be(&x), x.to_be_bytes());
        assert_eq!(<i16 as ToFromBytes<2>>::from_le(&x.to_le_bytes()), x);
        assert_eq!(<i16 as ToFromBytes<2>>::from_be(&x.to_be_bytes()), x);
    }
}

#[test]
fn u32_images_match_the_standard_ones() {
    for sample in samples() {
        let x = sample as u32;
        assert_eq!(<u32 as ToFromBytes<4>>::to_le(&x), x.to_le_bytes());
        assert_eq!(<u32 as ToFromBytes<4>>::to_be(&x), x.to_be_bytes());
        assert_eq!(<u32 as ToFromBytes<4>>::from_le(&x.to_le_bytes()), x);
        assert_eq!(<u32 as ToFromBytes<4>>::from_be(&x.to_be_bytes()), x);
    }
}

#[test]
fn i32_images_match_the_standard_ones() {
    for sample in samples() {
        let x = sample as i32;
        assert_eq!(<i32 as ToFromBytes<4>>::to_le(&x), x.to_le_bytes());
        assert_eq!(<i32 as ToFromBytes<4>>::to_be(&x), x.to_be_bytes());
        assert_eq!(<i32 as ToFromBytes<4>>::from_le(&x.to_le_bytes()), x);
        assert_eq!(<i32 as ToFromBytes<4>>::from_be(&x.to_be_bytes()), x);
    }
}

#[test]
fn u64_images_match_the_standard_ones() {
    for x in samples() {
        assert_eq!(<u64 as ToFromBytes<8>>::to_le(&x), x.to_le_bytes());
        assert_eq!(<u64 as ToFromBytes<8>>::to_be(&x), x.to_be_bytes());
        assert_eq!(<u64 as ToFromBytes<8>>::from_le(&x.to_le_bytes()), x);
        assert_eq!(<u64 as ToFromBytes<8>>::from_be(&x.to_be_bytes()), x);
    }
}

#[test]
fn i64_images_match_the_standard_ones() {
    for sample in samples() {
        let x = sample as i64;
        assert_eq!(<i64 as ToFromBytes<8>>::to_le(&x), x.to_le_bytes());
        assert_eq!(<i64 as ToFromBytes<8>>::to_be(&x), x.to_be_bytes());
        assert_eq!(<i64 as ToFromBytes<8>>::from_le(&x.to_le_bytes()), x);
        assert_eq!(<i64 as ToFromBytes<8>>::from_be(&x.to_be_bytes()), x);
    }
}

#[test]
fn binary16_images_match_those_of_half() {
    for bits in 0..=u16::MAX {
        let float = half::f16::from_bits(bits);
        let value = Binary16(bits);
        assert_eq!(value.to_le(), float.to_le_bytes());
        assert_eq!(value.to_be(), float.to_be_bytes());
        assert_eq!(Binary16::from_le(&float.to_le_bytes()), value);
        assert_eq!(Binary16::from_be(&float.to_be_bytes()), value);
    }
}

#[test]
fn binary32_images_match_those_of_f32() {
    for sample in samples() {
        let bits = sample as u32;
        let float = f32::from_bits(bits);
        let value = Binary32(bits);
        assert_eq!(value.to_le(), float.to_le_bytes());
        assert_eq!(value.to_be(), float.to_be_bytes());
        assert_eq!(Binary32::from_le(&float.to_le_bytes()), value);
        assert_eq!(Binary32::from_be(&float.to_be_bytes()), value);
    }
}

#[test]
fn binary64_images_match_those_of_f64() {
    for bits in samples() {
        let float = f64::from_bits(bits);
        let value = Binary64(bits);
        assert_eq!(value.to_le(), float.to_le_bytes());
        assert_eq!(value.to_be(), float.to_be_bytes());
        assert_eq!(Binary64::from_le(&float.to_le_bytes()), value);
        assert_eq!(Binary64::from_be(&float.to_be_bytes()), value);
    }
}

#[test]
fn exact_images_of_single_values() {
    assert_eq!(<u16 as ToFromBytes<2>>::to_le(&256), [0x00, 0x01]);
    assert_eq!(<u16 as ToFromBytes<2>>::to_be(&256), [0x01, 0x00]);
    assert_eq!(
        <u32 as ToFromBytes<4>>::to_be(&0x0102_0304),
        [0x01, 0x02, 0x03, 0x04]
    );
    assert_eq!(
        <u32 as ToFromBytes<4>>::to_le(&0x0102_0304),
        [0x04, 0x03, 0x02, 0x01]
    );
    assert_eq!(<i8 as ToFromBytes<1>>::to_be(&-1), [0xff]);
    assert_eq!(<i16 as ToFromBytes<2>>::to_be(&-2), [0xff, 0xfe]);
    assert_eq!(<i16 as ToFromBytes<2>>::to_le(&-2), [0xfe, 0xff]);
    assert_eq!(
        <i64 as ToFromBytes<8>>::to_le(&i64::MIN),
        [0, 0, 0, 0, 0, 0, 0, 0x80]
    );
    assert_eq!(
        <u64 as ToFromBytes<8>>::from_be(&[1, 2, 3, 4, 5, 6, 7, 8]),
        0x0102_0304_0506_0708
    );
    assert_eq!(
        <i32 as ToFromBytes<4>>::from_le(&[0xfe, 0xff, 0xff, 0xff]),
        -2
    );
    // 1.0 in binary32 is 0x3f80_0000.
    assert_eq!(Binary32(0x3f80_0000).to_be(), [0x3f, 0x80, 0x00, 0x00]);
    assert_eq!(Binary32(1.0f32.to_bits()).to_le(), [0x00, 0x00, 0x80, 0x3f]);
}

#[test]
fn context_reports_its_byte_order() {
    assert_eq!(
        TypedArrayContext::new(Endianness::BigEndian).desired_endianness(),
        Endianness::BigEndian
    );
    assert_eq!(
        TypedArrayContext::new(Endianness::LittleEndian).desired_endianness(),
        Endianness::LittleEndian
    );
}

#[test]
fn to_vec8_packs_in_order_without_gaps() {
    let little = TypedArrayContext::new(Endianness::LittleEndian);
    let big = TypedArrayContext::new(Endianness::BigEndian);
    let array: [u16; 5] = [256, 2, 3, 4, 5];
    assert_eq!(
        little.to_vec8::<2, u16>(&array),
        vec![0x00, 0x01, 0x02, 0x00, 0x03, 0x00, 0x04, 0x00, 0x05, 0x00]
    );
    assert_eq!(
        big.to_vec8::<2, u16>(&array),
        vec![0x01, 0x00, 0x00, 0x02, 0x00, 0x03, 0x00, 0x04, 0x00, 0x05]
    );
    let signed: [i32; 2] = [-1, 1 << 20];
    assert_eq!(
        big.to_vec8::<4, i32>(&signed),
        vec![0xff, 0xff, 0xff, 0xff, 0x00, 0x10, 0x00, 0x00]
    );
    let nothing: [u64; 0] = [];
    assert_eq!(little.to_vec8::<8, u64>(&nothing), Vec::<u8>::new());
}

#[test]
fn to_vec8_matches_the_standard_images() {
    let little = TypedArrayContext::new(Endianness::LittleEndian);
    let big = TypedArrayContext::new(Endianness::BigEndian);
    let values = samples();
    let expected_le: Vec<u8> = values.iter().flat_map(|x| x.to_le_bytes()).collect();
    let expected_be: Vec<u8> = values.iter().flat_map(|x| x.to_be_bytes()).collect();
    assert_eq!(little.to_vec8::<8, u64>(&values), expected_le);
    assert_eq!(big.to_vec8::<8, u64>(&values), expected_be);
}

#[test]
fn unpack_reads_chunks_in_order() {
    let bytes = [0x00, 0x01, 0x02, 0x00, 0x03, 0x00];
    assert_eq!(
        unpack::<2, u16>(&bytes, &Endianness::LittleEndian),
        Ok(vec![256, 2, 3])
    );
    assert_eq!(
        unpack::<2, u16>(&bytes, &Endianness::BigEndian),
        Ok(vec![1, 0x0200, 0x0300])
    );
    assert_eq!(
        unpack::<1, i8>(&[0xff, 0x80, 0x7f], &Endianness::BigEndian),
        Ok(vec![-1, -128, 127])
    );
    assert_eq!(
        unpack::<4, u32>(&[], &Endianness::BigEndian),
        Ok(Vec::<u32>::new())
    );
}

#[test]
fn unpack_refuses_a_partial_chunk() {
    assert_eq!(
        unpack::<4, u32>(&[1, 2, 3], &Endianness::BigEndian),
        Err(TypedArrayError::TruncatedInput)
    );
    assert_eq!(
        unpack::<4, u32>(&[1, 2, 3, 4, 5], &Endianness::LittleEndian),
        Err(TypedArrayError::TruncatedInput)
    );
    assert_eq!(
        unpack::<2, i16>(&[1], &Endianness::LittleEndian),
        Err(TypedArrayError::TruncatedInput)
    );
    assert_eq!(
        unpack::<8, u64>(&[0; 15], &Endianness::BigEndian),
        Err(TypedArrayError::TruncatedInput)
    );
}

#[test]
fn unpack_inverts_to_vec8() {
    let values = samples();
    for order in [Endianness::BigEndian, Endianness::LittleEndian] {
        let context = TypedArrayContext::new(order);
        let bytes = context.to_vec8::<8, u64>(&values);
        assert_eq!(bytes.len(), values.len() * 8);
        assert_eq!(unpack::<8, u64>(&bytes, &order), Ok(values.clone()));
        let narrow: Vec<i16> = values.iter().map(|x| *x as i16).collect();
        let bytes = context.to_vec8::<2, i16>(&narrow);
        assert_eq!(bytes.len(), narrow.len() * 2);
        assert_eq!(unpack::<2, i16>(&bytes, &order), Ok(narrow));
    }
}
