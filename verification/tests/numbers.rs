use matfile::ieee::{double_bits_from_i32, single_bits_from_i32};
use matfile::numeric::{decode_elements, signed16, signed32, signed64, signed8};
use matfile::parse::{
    ceil_to_multiple, dense_part_check, dimensions_hold, numeric_data_types_are_compatible,
    parse_array_flags_subelement, parse_array_name_subelement, parse_data_element_tag,
    parse_dimensions_array_subelement, parse_numeric_data_element, take, ArrayFlags, ArrayType,
    DataType, NumericData as Raw, ParseError,
};
use matfile::sparse::{index_from_i32, parse_row_index_array_subelement};
use matfile::text::text_from_bytes;
use matfile::widen::{unsigned32_from_i32, unsigned64_from_i32};
use matfile::wire::{read_u16, read_u32, read_u64, read_word};
use matfile::{try_convert_number_format, Error, NumericData};

const KINDS: [DataType; 15] = [
    DataType::Int8,
    DataType::UInt8,
    DataType::Int16,
    DataType::UInt16,
    DataType::Int32,
    DataType::UInt32,
    DataType::Single,
    DataType::Double,
    DataType::Int64,
    DataType::UInt64,
    DataType::Matrix,
    DataType::Compressed,
    DataType::Utf8,
    DataType::Utf16,
    DataType::Utf32,
];

const CLASSES: [ArrayType; 15] = [
    ArrayType::Cell,
    ArrayType::Struct,
    ArrayType::Object,
    ArrayType::Char,
    ArrayType::Sparse,
    ArrayType::Double,
    ArrayType::Single,
    ArrayType::Int8,
    ArrayType::UInt8,
    ArrayType::Int16,
    ArrayType::UInt16,
    ArrayType::Int32,
    ArrayType::UInt32,
    ArrayType::Int64,
    ArrayType::UInt64,
];

#[test]
fn words_in_both_byte_orders() {
    let bytes = [0x01, 0x02, 0x03, 0x04, 0x05, 0x06, 0x07, 0x08, 0x09];
    assert_eq!(read_u16(&bytes, 0, true), 0x0201);
    assert_eq!(read_u16(&bytes, 0, false), 0x0102);
    assert_eq!(read_u16(&bytes, 7, true), 0x0908);
    assert_eq!(read_u32(&bytes, 1, true), 0x05040302);
    assert_eq!(read_u32(&bytes, 1, false), 0x02030405);
    assert_eq!(read_u64(&bytes, 0, true), 0x0807060504030201);
    assert_eq!(read_u64(&bytes, 1, false), 0x0203040506070809);
    assert_eq!(read_word(&bytes, 3, 1, true), 4);
    assert_eq!(read_word(&bytes, 3, 2, false), 0x0405);
    assert_eq!(read_word(&bytes, 0, 4, true), 0x04030201);
    assert_eq!(read_word(&bytes, 0, 8, false), 0x0102030405060708);
}

#[test]
fn reversed_bytes_read_the_same_in_the_other_order() {
    let bytes = [0xde, 0xad, 0xbe, 0xef, 0x01, 0x23, 0x45, 0x67];
    for width in [1usize, 2, 4, 8] {
        let mut reversed = bytes[..width].to_vec();
        reversed.reverse();
        assert_eq!(read_word(&bytes, 0, width, true), read_word(&reversed, 0, width, false));
    }
}

#[test]
fn twos_complement() {
    assert_eq!(signed8(0x7f), 127);
    assert_eq!(signed8(0x80), -128);
    assert_eq!(signed8(0xff), -1);
    assert_eq!(signed16(0x8000), i16::MIN);
    assert_eq!(signed16(0xfffe), -2);
    assert_eq!(signed16(0x1234), 0x1234);
    assert_eq!(signed32(0xffff_ffff), -1);
    assert_eq!(signed32(0x8000_0000), i32::MIN);
    assert_eq!(signed32(0x7fff_ffff), i32::MAX);
    assert_eq!(signed64(u64::MAX), -1);
    assert_eq!(signed64(0x8000_0000_0000_0000), i64::MIN);
    assert_eq!(signed64(5), 5);
}

#[test]
fn codes_of_kinds_and_classes() {
    let codes = [1u32, 2, 3, 4, 5, 6, 7, 9, 12, 13, 14, 15, 16, 17, 18];
    for (kind, code) in KINDS.iter().zip(codes) {
        assert_eq!(kind.code(), code);
        assert_eq!(DataType::from_u32(code), Some(*kind));
    }
    for code in [0u32, 8, 10, 11, 19, 0x1_0001] {
        assert_eq!(DataType::from_u32(code), None);
    }
    for (k, class) in CLASSES.iter().enumerate() {
        assert_eq!(class.code() as usize, k + 1);
        assert_eq!(ArrayType::from_u8((k + 1) as u8), Some(*class));
    }
    assert_eq!(ArrayType::from_u8(0), None);
    assert_eq!(ArrayType::from_u8(16), None);
    let widths = [1usize, 1, 2, 2, 4, 4, 4, 8, 8, 8, 0, 0, 0, 0, 0];
    for (kind, width) in KINDS.iter().zip(widths) {
        assert_eq!(kind.width(), width);
    }
}

#[test]
fn kinds_of_classes() {
    assert_eq!(ArrayType::Double.numeric_data_type(), Some(DataType::Double));
    assert_eq!(ArrayType::Single.numeric_data_type(), Some(DataType::Single));
    assert_eq!(ArrayType::Int8.numeric_data_type(), Some(DataType::Int8));
    assert_eq!(ArrayType::UInt8.numeric_data_type(), Some(DataType::UInt8));
    assert_eq!(ArrayType::Int16.numeric_data_type(), Some(DataType::Int16));
    assert_eq!(ArrayType::UInt16.numeric_data_type(), Some(DataType::UInt16));
    assert_eq!(ArrayType::Int32.numeric_data_type(), Some(DataType::UInt32));
    assert_eq!(ArrayType::UInt32.numeric_data_type(), Some(DataType::UInt32));
    assert_eq!(ArrayType::Int64.numeric_data_type(), Some(DataType::Int64));
    assert_eq!(ArrayType::UInt64.numeric_data_type(), Some(DataType::UInt64));
    assert_eq!(ArrayType::Int32.storage_type(), Some(DataType::Int32));
    assert_eq!(ArrayType::UInt32.storage_type(), Some(DataType::UInt32));
    for class in &CLASSES[..5] {
        assert_eq!(class.numeric_data_type(), None);
        assert_eq!(class.storage_type(), None);
    }
}

fn admitted(kind: DataType) -> Vec<DataType> {
    let wide = vec![DataType::UInt8, DataType::Int16, DataType::UInt16, DataType::Int32];
    let with = |mut list: Vec<DataType>, extra: DataType| {
        if !list.contains(&extra) {
            list.push(extra);
        }
        list
    };
    match kind {
        DataType::Double | DataType::Single | DataType::UInt64 | DataType::Int64 => {
            with(wide, kind)
        }
        DataType::Int32 => wide,
        DataType::UInt32 => {
            vec![DataType::UInt8, DataType::Int16, DataType::UInt16, DataType::UInt32]
        }
        DataType::UInt16 => vec![DataType::UInt8, DataType::UInt16],
        DataType::Int16 => vec![DataType::UInt8, DataType::Int16],
        DataType::UInt8 => vec![DataType::UInt8],
        DataType::Int8 => vec![DataType::Int8],
        _ => vec![],
    }
}

#[test]
fn compatibility_table() {
    for array in KINDS {
        for payload in KINDS {
            assert_eq!(
                numeric_data_types_are_compatible(array, payload),
                admitted(array).contains(&payload),
                "{:?} <- {:?}",
                array,
                payload
            );
        }
    }
}

fn sample(kind: DataType) -> Raw {
    match kind {
        DataType::Int8 => Raw::Int8(vec![-3, 4]),
        DataType::UInt8 => Raw::UInt8(vec![0, 200]),
        DataType::Int16 => Raw::Int16(vec![-300, 300]),
        DataType::UInt16 => Raw::UInt16(vec![7, 60000]),
        DataType::Int32 => Raw::Int32(vec![-70000, 70000]),
        DataType::UInt32 => Raw::UInt32(vec![1, 4_000_000_000]),
        DataType::Int64 => Raw::Int64(vec![i64::MIN, 9]),
        DataType::UInt64 => Raw::UInt64(vec![u64::MAX, 9]),
        DataType::Single => Raw::Single(vec![1.5f32.to_bits(), (-2.0f32).to_bits()]),
        _ => Raw::Double(vec![1.5f64.to_bits(), (-2.0f64).to_bits()]),
    }
}

#[test]
fn widening_table() {
    for class in CLASSES {
        for payload in &KINDS[..10] {
            let result = try_convert_number_format(class, sample(*payload));
            let allowed = match class.storage_type() {
                Some(kind) => admitted(kind).contains(payload),
                None => false,
            };
            match result {
                Ok(data) => {
                    assert!(allowed, "{:?} <- {:?}", class, payload);
                    assert_eq!(Some(data.data_type()), class.storage_type());
                    assert_eq!(data.len(), 2);
                }
                Err(e) => {
                    assert!(!allowed, "{:?} <- {:?}", class, payload);
                    assert_eq!(e, Error::ConversionError);
                }
            }
        }
    }
}

#[test]
fn widening_keeps_values() {
    assert_eq!(
        try_convert_number_format(ArrayType::Double, Raw::UInt8(vec![0, 1, 255])),
        Ok(Raw::Double(vec![0f64.to_bits(), 1f64.to_bits(), 255f64.to_bits()]))
    );
    assert_eq!(
        try_convert_number_format(ArrayType::Double, Raw::Int32(vec![i32::MIN, -1, i32::MAX])),
        Ok(Raw::Double(vec![
            (i32::MIN as f64).to_bits(),
            (-1f64).to_bits(),
            (i32::MAX as f64).to_bits()
        ]))
    );
    assert_eq!(
        try_convert_number_format(ArrayType::Single, Raw::UInt16(vec![65535, 3])),
        Ok(Raw::Single(vec![65535f32.to_bits(), 3f32.to_bits()]))
    );
    assert_eq!(
        try_convert_number_format(ArrayType::Single, Raw::Int32(vec![16777217, -16777219])),
        Ok(Raw::Single(vec![(16777217i32 as f32).to_bits(), (-16777219i32 as f32).to_bits()]))
    );
    assert_eq!(
        try_convert_number_format(ArrayType::Int64, Raw::Int16(vec![-5, 5])),
        Ok(Raw::Int64(vec![-5, 5]))
    );
    assert_eq!(
        try_convert_number_format(ArrayType::UInt64, Raw::Int32(vec![-1, 5])),
        Ok(Raw::UInt64(vec![u64::MAX, 5]))
    );
    assert_eq!(
        try_convert_number_format(ArrayType::UInt32, Raw::Int16(vec![-2, 5])),
        Ok(Raw::UInt32(vec![u32::MAX - 1, 5]))
    );
    assert_eq!(
        try_convert_number_format(ArrayType::Int32, Raw::UInt16(vec![65535])),
        Ok(Raw::Int32(vec![65535]))
    );
    assert_eq!(
        try_convert_number_format(ArrayType::UInt16, Raw::UInt8(vec![255, 0])),
        Ok(Raw::UInt16(vec![255, 0]))
    );
    assert_eq!(
        try_convert_number_format(ArrayType::Int16, Raw::UInt8(vec![255, 0])),
        Ok(Raw::Int16(vec![255, 0]))
    );
    assert_eq!(
        try_convert_number_format(ArrayType::Int8, Raw::Int8(vec![-1])),
        Ok(Raw::Int8(vec![-1]))
    );
    assert_eq!(
        try_convert_number_format(ArrayType::Double, Raw::Int8(vec![1])),
        Err(Error::ConversionError)
    );
    assert_eq!(
        try_convert_number_format(ArrayType::UInt16, Raw::Int16(vec![1])),
        Err(Error::ConversionError)
    );
    assert_eq!(
        try_convert_number_format(ArrayType::Sparse, Raw::Double(vec![1])),
        Err(Error::ConversionError)
    );
}

#[test]
fn parts_are_put_together() {
    assert_eq!(
        NumericData::try_from(ArrayType::Double, Raw::UInt8(vec![2]), Some(Raw::Int16(vec![-2]))),
        Ok(NumericData::Double {
            real: vec![2f64.to_bits()],
            imag: Some(vec![(-2f64).to_bits()])
        })
    );
    assert_eq!(
        NumericData::try_from(ArrayType::Int8, Raw::Int8(vec![2]), None),
        Ok(NumericData::Int8 { real: vec![2], imag: None })
    );
    assert_eq!(
        NumericData::try_from(ArrayType::UInt8, Raw::UInt8(vec![2]), Some(Raw::Int8(vec![2]))),
        Err(Error::ConversionError)
    );
    assert_eq!(
        NumericData::try_from(ArrayType::UInt8, Raw::Int8(vec![2]), Some(Raw::UInt8(vec![2]))),
        Err(Error::ConversionError)
    );
    for class in &CLASSES[5..] {
        let kind = class.storage_type().unwrap();
        let data = NumericData::try_from(*class, sample(kind), Some(sample(kind))).unwrap();
        let single = NumericData::try_from(*class, sample(kind), None).unwrap();
        assert_ne!(data, single);
    }
}

fn check_bits(x: i32) {
    assert_eq!(double_bits_from_i32(x), (x as f64).to_bits(), "double of {}", x);
    assert_eq!(single_bits_from_i32(x), (x as f32).to_bits(), "single of {}", x);
}

#[test]
fn bit_patterns_of_integers() {
    assert_eq!(double_bits_from_i32(0), 0);
    assert_eq!(double_bits_from_i32(1), 0x3ff0_0000_0000_0000);
    assert_eq!(double_bits_from_i32(-2), 0xc000_0000_0000_0000);
    assert_eq!(single_bits_from_i32(1), 0x3f80_0000);
    assert_eq!(single_bits_from_i32(-2), 0xc000_0000);
    assert_eq!(single_bits_from_i32(16777217), 0x4b80_0000);
    assert_eq!(single_bits_from_i32(16777219), 0x4b80_0002);
    assert_eq!(single_bits_from_i32(i32::MAX), 0x4f00_0000);
    for x in [
        0,
        1,
        -1,
        2,
        3,
        255,
        256,
        -32768,
        65535,
        16777215,
        16777216,
        16777217,
        16777218,
        16777219,
        33554430,
        33554431,
        33554433,
        33554434,
        33554435,
        2147483520,
        2147483583,
        2147483584,
        2147483585,
        i32::MAX,
        i32::MIN,
        i32::MIN + 1,
        -16777217,
        -16777219,
    ] {
        check_bits(x);
    }
    let mut state: u32 = 12345;
    for _ in 0..200_000 {
        state = state.wrapping_mul(1664525).wrapping_add(1013904223);
        check_bits(state as i32);
        check_bits((state >> 7) as i32);
    }
}

#[test]
fn unsigned_words_of_negative_integers() {
    assert_eq!(unsigned64_from_i32(-1), u64::MAX);
    assert_eq!(unsigned64_from_i32(i32::MIN), i32::MIN as u64);
    assert_eq!(unsigned64_from_i32(7), 7);
    assert_eq!(unsigned32_from_i32(-1), u32::MAX);
    assert_eq!(unsigned32_from_i32(i32::MIN), 0x8000_0000);
    assert_eq!(unsigned32_from_i32(7), 7);
    assert_eq!(index_from_i32(7), 7);
    assert_eq!(index_from_i32(-1), usize::MAX);
    assert_eq!(index_from_i32(i32::MIN), i32::MIN as usize);
}

#[test]
fn rounding_up() {
    assert_eq!(ceil_to_multiple(0, 8), 0);
    assert_eq!(ceil_to_multiple(1, 8), 8);
    assert_eq!(ceil_to_multiple(8, 8), 8);
    assert_eq!(ceil_to_multiple(9, 8), 16);
    assert_eq!(ceil_to_multiple(u32::MAX, 8), 0x1_0000_0000);
    assert_eq!(ceil_to_multiple(10, 3), 12);
}

#[test]
fn taking_bytes() {
    let bytes = [1u8, 2, 3];
    let (rest, taken) = take(&bytes, 2).unwrap();
    assert_eq!(rest, &[3]);
    assert_eq!(taken, &[1, 2]);
    let (rest, taken) = take(&bytes, 3).unwrap();
    assert!(rest.is_empty());
    assert_eq!(taken, &[1, 2, 3]);
    assert_eq!(take(&bytes, 4).err(), Some(ParseError::Framing));
}

#[test]
fn tags_in_both_layouts() {
    let long = [5u8, 0, 0, 0, 12, 0, 0, 0, 9, 9];
    let (rest, tag) = parse_data_element_tag(&long, true).unwrap();
    assert_eq!(rest, &[9, 9]);
    assert_eq!(tag.data_type, DataType::Int32);
    assert_eq!(tag.data_byte_size, 12);
    assert_eq!(tag.padding_byte_size, 4);
    let long = [0u8, 0, 0, 9, 0, 0, 0, 16];
    let (rest, tag) = parse_data_element_tag(&long, false).unwrap();
    assert!(rest.is_empty());
    assert_eq!(tag.data_type, DataType::Double);
    assert_eq!(tag.data_byte_size, 16);
    assert_eq!(tag.padding_byte_size, 0);
    let small = [3u8, 0, 2, 0, 7, 7, 0, 0];
    let (rest, tag) = parse_data_element_tag(&small, true).unwrap();
    assert_eq!(rest, &[7, 7, 0, 0]);
    assert_eq!(tag.data_type, DataType::Int16);
    assert_eq!(tag.data_byte_size, 2);
    assert_eq!(tag.padding_byte_size, 2);
    let small = [0u8, 4, 0, 1, 7, 7, 7, 7];
    let (_, tag) = parse_data_element_tag(&small, false).unwrap();
    assert_eq!(tag.data_type, DataType::Int8);
    assert_eq!(tag.data_byte_size, 4);
    assert_eq!(tag.padding_byte_size, 0);
    assert_eq!(parse_data_element_tag(&[1, 0, 0], true).err(), Some(ParseError::Framing));
    assert_eq!(parse_data_element_tag(&[1, 0, 0, 0, 1], true).err(), Some(ParseError::Framing));
    assert_eq!(
        parse_data_element_tag(&[1, 0, 5, 0, 0, 0, 0, 0], true).err(),
        Some(ParseError::Framing)
    );
    assert_eq!(
        parse_data_element_tag(&[8, 0, 0, 0, 0, 0, 0, 0], true).err(),
        Some(ParseError::Framing)
    );
    let (_, tag) = parse_data_element_tag(&[2, 0, 0, 0, 0xfd, 0xff, 0xff, 0xff], true).unwrap();
    assert_eq!(tag.data_byte_size, 0xffff_fffd);
    assert_eq!(tag.padding_byte_size, 3);
}

#[test]
fn numeric_subelements_of_every_kind() {
    let cases: Vec<(u8, Raw)> = vec![
        (1, Raw::Int8(vec![1, 2, 3, 4, 5, 6, 7, -8])),
        (2, Raw::UInt8(vec![1, 2, 3, 4, 5, 6, 7, 0xf8])),
        (3, Raw::Int16(vec![0x0201, 0x0403, 0x0605, -0x07f9])),
        (4, Raw::UInt16(vec![0x0201, 0x0403, 0x0605, 0xf807])),
        (5, Raw::Int32(vec![0x04030201, -0x07f8f9fb])),
        (6, Raw::UInt32(vec![0x04030201, 0xf8070605])),
        (7, Raw::Single(vec![0x04030201, 0xf8070605])),
        (9, Raw::Double(vec![0xf807060504030201])),
        (12, Raw::Int64(vec![-0x07f8f9fafbfcfdff])),
        (13, Raw::UInt64(vec![0xf807060504030201])),
    ];
    for (code, expected) in cases {
        let mut bytes = vec![code, 0, 0, 0, 8, 0, 0, 0, 1, 2, 3, 4, 5, 6, 7, 0xf8, 0xaa];
        let (rest, data) = parse_numeric_data_element(&bytes, true).unwrap();
        assert_eq!(rest, &[0xaa]);
        assert_eq!(data, expected);
        assert_eq!(data.len() * data.data_type().width(), 8);
        bytes.truncate(15);
        assert_eq!(parse_numeric_data_element(&bytes, true).err(), Some(ParseError::Framing));
    }
    let big = [0u8, 0, 0, 3, 0, 0, 0, 4, 0x12, 0x34, 0xff, 0xfe, 0, 0, 0, 0];
    let (rest, data) = parse_numeric_data_element(&big, false).unwrap();
    assert!(rest.is_empty());
    assert_eq!(data, Raw::Int16(vec![0x1234, -2]));
    for code in [14u8, 15, 16, 17, 18] {
        let bytes = [code, 0, 0, 0, 0, 0, 0, 0];
        assert_eq!(parse_numeric_data_element(&bytes, true).err(), Some(ParseError::Framing));
    }
    let odd = [3u8, 0, 0, 0, 3, 0, 0, 0, 1, 0, 9, 9, 9, 9, 9, 9];
    let (rest, data) = parse_numeric_data_element(&odd, true).unwrap();
    assert_eq!(data, Raw::Int16(vec![1]));
    assert_eq!(rest, &[9]);
    let unpadded = [3u8, 0, 0, 0, 2, 0, 0, 0, 1, 0, 0, 0];
    assert_eq!(parse_numeric_data_element(&unpadded, true).err(), Some(ParseError::Framing));
}

#[test]
fn decoding_elements() {
    let bytes = [0x80u8, 0x00, 0x00, 0x01, 0xff];
    assert_eq!(decode_elements(DataType::Int16, &bytes, 2, false), Raw::Int16(vec![-32768, 1]));
    assert_eq!(decode_elements(DataType::UInt16, &bytes, 2, true), Raw::UInt16(vec![0x80, 0x100]));
    assert_eq!(decode_elements(DataType::Int8, &bytes, 5, true), Raw::Int8(vec![-128, 0, 0, 1, -1]));
    assert_eq!(decode_elements(DataType::UInt32, &bytes, 0, true), Raw::UInt32(vec![]));
}

#[test]
fn flags_dimensions_and_names() {
    let bytes = [6u8, 0, 0, 0, 8, 0, 0, 0, 6, 0x0e, 0, 0, 3, 0, 0, 0, 1];
    let (rest, flags) = parse_array_flags_subelement(&bytes, true).unwrap();
    assert_eq!(rest, &[1]);
    assert!(flags.complex && flags.global && flags.logical);
    assert_eq!(flags.class, ArrayType::Double);
    assert_eq!(flags.nzmax, 3);
    let bytes = [0u8, 0, 0, 6, 0, 0, 0, 8, 0, 0, 8, 5, 0, 0, 0, 9];
    let (_, flags) = parse_array_flags_subelement(&bytes, false).unwrap();
    assert!(flags.complex && !flags.global && !flags.logical);
    assert_eq!(flags.class, ArrayType::Sparse);
    assert_eq!(flags.nzmax, 9);
    let bytes = [5u8, 0, 0, 0, 8, 0, 0, 0, 6, 0, 0, 0, 0, 0, 0, 0];
    assert_eq!(parse_array_flags_subelement(&bytes, true).err(), Some(ParseError::Framing));
    let bytes = [6u8, 0, 0, 0, 4, 0, 0, 0, 6, 0, 0, 0, 0, 0, 0, 0];
    assert_eq!(parse_array_flags_subelement(&bytes, true).err(), Some(ParseError::Framing));
    let bytes = [6u8, 0, 0, 0, 8, 0, 0, 0, 16, 0, 0, 0, 0, 0, 0, 0];
    assert_eq!(parse_array_flags_subelement(&bytes, true).err(), Some(ParseError::Framing));
    assert_eq!(parse_array_flags_subelement(&bytes[..15], true).err(), Some(ParseError::Framing));

    let dims = [5u8, 0, 0, 0, 8, 0, 0, 0, 2, 0, 0, 0, 0xff, 0xff, 0xff, 0xff];
    let (rest, found) = parse_dimensions_array_subelement(&dims, true).unwrap();
    assert!(rest.is_empty());
    assert_eq!(found, vec![2, -1]);
    let one = [5u8, 0, 4, 0, 2, 0, 0, 0];
    assert_eq!(parse_dimensions_array_subelement(&one, true).err(), Some(ParseError::Framing));
    let wrong = [6u8, 0, 0, 0, 8, 0, 0, 0, 2, 0, 0, 0, 1, 0, 0, 0];
    assert_eq!(parse_dimensions_array_subelement(&wrong, true).err(), Some(ParseError::Framing));
    let ragged = [5u8, 0, 0, 0, 10, 0, 0, 0, 2, 0, 0, 0, 1, 0, 0, 0, 0, 0, 0, 0, 0, 0, 0, 0];
    assert_eq!(parse_dimensions_array_subelement(&ragged, true).err(), Some(ParseError::Framing));

    let name = [1u8, 0, 3, 0, b'a', b'b', b'c', 0, 5];
    let (rest, found) = parse_array_name_subelement(&name, true).unwrap();
    assert_eq!(rest, &[5]);
    assert_eq!(found, "abc");
    let empty = [1u8, 0, 0, 0, 0, 0, 0, 0];
    assert_eq!(parse_array_name_subelement(&empty, true).err(), Some(ParseError::Framing));
    let wrong = [2u8, 0, 3, 0, b'a', b'b', b'c', 0];
    assert_eq!(parse_array_name_subelement(&wrong, true).err(), Some(ParseError::Framing));

    let rows = [5u8, 0, 0, 0, 8, 0, 0, 0, 2, 0, 0, 0, 0xff, 0xff, 0xff, 0xff];
    let (_, found) = parse_row_index_array_subelement(&rows, true).unwrap();
    assert_eq!(found, vec![2, usize::MAX]);
}

#[test]
fn text_must_be_utf8() {
    assert_eq!(text_from_bytes(b"abc"), Some("abc".to_string()));
    assert_eq!(text_from_bytes("grüß".as_bytes()), Some("grüß".to_string()));
    assert_eq!(text_from_bytes(&[]), Some(String::new()));
    assert_eq!(text_from_bytes(&[0xc3]), None);
    assert_eq!(text_from_bytes(&[0xff, 0x41]), None);
}

#[test]
fn products_of_dimensions() {
    assert!(dimensions_hold(&vec![2, 3], 6));
    assert!(!dimensions_hold(&vec![2, 3], 5));
    assert!(dimensions_hold(&vec![], 1));
    assert!(dimensions_hold(&vec![0, i32::MAX, i32::MAX, i32::MAX], 0));
    assert!(dimensions_hold(&vec![i32::MAX, i32::MAX, i32::MAX, 0], 0));
    assert!(!dimensions_hold(&vec![i32::MAX, i32::MAX, i32::MAX, i32::MAX], 1));
    assert!(!dimensions_hold(&vec![65536, 65536, 65536, 65536], 0));
    assert!(dimensions_hold(&vec![-2, -3], 6));
    assert!(!dimensions_hold(&vec![-2, 3], 6));
    assert!(dimensions_hold(&vec![46341, 46341], 2147488281));

    let flags = ArrayFlags {
        complex: false,
        global: false,
        logical: false,
        class: ArrayType::Int16,
        nzmax: 0,
    };
    assert_eq!(dense_part_check(&flags, &vec![1, 2], &Raw::UInt8(vec![1, 2])), None);
    assert_eq!(
        dense_part_check(&flags, &vec![1, 2], &Raw::UInt8(vec![1])),
        Some(ParseError::Framing)
    );
    assert_eq!(
        dense_part_check(&flags, &vec![1, 2], &Raw::UInt16(vec![1, 2])),
        Some(ParseError::TypeMismatch)
    );
    assert_eq!(
        dense_part_check(&flags, &vec![1, 2], &Raw::UInt16(vec![1])),
        Some(ParseError::Framing)
    );
}
