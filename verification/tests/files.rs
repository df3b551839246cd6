use std::io::Write;

use matfile::parse::{
    parse_all, parse_header, parse_next_data_element, ArrayType, DataElement, ParseError,
    MAX_NESTING,
};
use matfile::{Array, Error, MatFile, NumericData};

fn word(x: u32, le: bool) -> Vec<u8> {
    if le {
        x.to_le_bytes().to_vec()
    } else {
        x.to_be_bytes().to_vec()
    }
}

fn header(le: bool) -> Vec<u8> {
    let mut out = b"MATLAB 5.0 MAT-file, Platform: GLNXA64".to_vec();
    while out.len() < 116 {
        out.push(b' ');
    }
    out.extend_from_slice(&[0u8; 8]);
    if le {
        out.extend_from_slice(&[0x00, 0x01]);
        out.extend_from_slice(b"IM");
    } else {
        out.extend_from_slice(&[0x01, 0x00]);
        out.extend_from_slice(b"MI");
    }
    out
}

fn element(kind: u32, payload: &[u8], le: bool) -> Vec<u8> {
    let mut out = word(kind, le);
    out.extend(word(payload.len() as u32, le));
    out.extend_from_slice(payload);
    while out.len() % 8 != 0 {
        out.push(0);
    }
    out
}

fn small_element(kind: u32, payload: &[u8], le: bool) -> Vec<u8> {
    assert!(!payload.is_empty() && payload.len() <= 4);
    let mut out = word(((payload.len() as u32) << 16) | kind, le);
    out.extend_from_slice(payload);
    while out.len() < 8 {
        out.push(0);
    }
    out
}

fn i32s(values: &[i32], le: bool) -> Vec<u8> {
    let mut out = Vec::new();
    for v in values {
        out.extend(word(*v as u32, le));
    }
    out
}

fn i16s(values: &[i16], le: bool) -> Vec<u8> {
    let mut out = Vec::new();
    for v in values {
        if le {
            out.extend_from_slice(&v.to_le_bytes());
        } else {
            out.extend_from_slice(&v.to_be_bytes());
        }
    }
    out
}

fn f64s(values: &[f64], le: bool) -> Vec<u8> {
    let mut out = Vec::new();
    for v in values {
        if le {
            out.extend_from_slice(&v.to_le_bytes());
        } else {
            out.extend_from_slice(&v.to_be_bytes());
        }
    }
    out
}

fn f32s(values: &[f32], le: bool) -> Vec<u8> {
    let mut out = Vec::new();
    for v in values {
        if le {
            out.extend_from_slice(&v.to_le_bytes());
        } else {
            out.extend_from_slice(&v.to_be_bytes());
        }
    }
    out
}

fn flags(class: u32, bits: u32, nzmax: u32, le: bool) -> Vec<u8> {
    let mut payload = word(class | bits, le);
    payload.extend(word(nzmax, le));
    element(6, &payload, le)
}

fn name(text: &str, le: bool) -> Vec<u8> {
    if text.len() <= 4 {
        small_element(1, text.as_bytes(), le)
    } else {
        element(1, text.as_bytes(), le)
    }
}

const COMPLEX: u32 = 0x0800;

fn dense(class: u32, bits: u32, dims: &[i32], text: &str, parts: &[Vec<u8>], le: bool) -> Vec<u8> {
    let mut body = flags(class, bits, 0, le);
    body.extend(element(5, &i32s(dims, le), le));
    body.extend(name(text, le));
    for part in parts {
        body.extend_from_slice(part);
    }
    element(14, &body, le)
}

fn compressed(inner: &[u8], le: bool) -> Vec<u8> {
    let mut encoder = libflate::zlib::Encoder::new(Vec::new()).unwrap();
    encoder.write_all(inner).unwrap();
    let packed = encoder.finish().into_result().unwrap();
    let mut out = word(15, le);
    out.extend(word(packed.len() as u32, le));
    out.extend(packed);
    out
}

fn file(le: bool, elements: &[Vec<u8>]) -> Vec<u8> {
    let mut out = header(le);
    for e in elements {
        out.extend_from_slice(e);
    }
    out
}

fn doubles(bits: &[u64]) -> Vec<f64> {
    bits.iter().map(|b| f64::from_bits(*b)).collect()
}

fn singles(bits: &[u32]) -> Vec<f32> {
    bits.iter().map(|b| f32::from_bits(*b)).collect()
}

fn pos_values() -> Vec<f64> {
    vec![-5.0, 8.0, 6.0, 9.0, 7.0, 10.0]
}

fn double_file(le: bool) -> Vec<u8> {
    let real = element(9, &f64s(&pos_values(), le), le);
    file(le, &[dense(6, 0, &[2, 3], "pos", &[real], le)])
}

fn summary(array: &Array) -> (String, Vec<usize>, NumericData) {
    (array.name().to_string(), array.size().clone(), array.data().clone())
}

#[test]
fn double_array() {
    let data = double_file(true);
    let mat_file = MatFile::parse(data.as_ref()).unwrap();
    assert_eq!(mat_file.arrays().len(), 1);
    let pos = mat_file.find_by_name("pos").unwrap();
    assert_eq!(pos.name(), "pos");
    assert_eq!(pos.size(), &vec![2, 3]);
    assert_eq!(pos.ndims(), 2);
    match pos.data() {
        NumericData::Double { real, imag } => {
            assert_eq!(doubles(real), pos_values());
            assert!(imag.is_none());
        }
        other => panic!("unexpected data {:?}", other),
    }
    assert!(mat_file.find_by_name("Pos").is_none());
}

#[test]
fn double_as_int16_array() {
    let real = element(3, &i16s(&[-300, 0, 7, 32767, -32768, 1], true), true);
    let data = file(true, &[dense(6, 0, &[3, 2], "a", &[real], true)]);
    let mat_file = MatFile::parse(data.as_ref()).unwrap();
    match mat_file.arrays()[0].data() {
        NumericData::Double { real, imag } => {
            assert_eq!(doubles(real), vec![-300.0, 0.0, 7.0, 32767.0, -32768.0, 1.0]);
            assert!(imag.is_none());
        }
        other => panic!("unexpected data {:?}", other),
    }
}

#[test]
fn double_as_uint8_array() {
    let real = element(2, &[1, 2, 3, 255, 0, 128], true);
    let data = file(true, &[dense(6, 0, &[1, 6], "b", &[real], true)]);
    let mat_file = MatFile::parse(data.as_ref()).unwrap();
    match mat_file.arrays()[0].data() {
        NumericData::Double { real, imag } => {
            assert_eq!(doubles(real), vec![1.0, 2.0, 3.0, 255.0, 0.0, 128.0]);
            assert!(imag.is_none());
        }
        other => panic!("unexpected data {:?}", other),
    }
}

#[test]
fn single_complex_array() {
    let real = element(7, &f32s(&[1.5, -2.0, 3.25, 4.0], true), true);
    let imag = element(7, &f32s(&[0.5, 0.0, -1.0, 8.0], true), true);
    let data = file(true, &[dense(7, COMPLEX, &[2, 2], "C", &[real, imag], true)]);
    let mat_file = MatFile::parse(data.as_ref()).unwrap();
    let c = mat_file.find_by_name("C").unwrap();
    match c.data() {
        NumericData::Single { real, imag } => {
            assert_eq!(singles(real), vec![1.5, -2.0, 3.25, 4.0]);
            assert_eq!(singles(imag.as_ref().unwrap()), vec![0.5, 0.0, -1.0, 8.0]);
        }
        other => panic!("unexpected data {:?}", other),
    }
}

#[test]
fn two_arrays() {
    let first = element(9, &f64s(&[1.0, 2.0], true), true);
    let second = element(5, &i32s(&[-1, 2, 3], true), true);
    let data = file(
        true,
        &[
            dense(6, 0, &[1, 2], "A", &[first], true),
            dense(14, 0, &[3, 1], "B", &[second], true),
        ],
    );
    let mat_file = MatFile::parse(data.as_ref()).unwrap();
    assert_eq!(mat_file.arrays().len(), 2);
    assert_eq!(mat_file.arrays()[0].name(), "A");
    assert_eq!(mat_file.arrays()[1].name(), "B");
    assert_eq!(
        mat_file.arrays()[1].data(),
        &NumericData::Int64 { real: vec![-1, 2, 3], imag: None }
    );
}

#[test]
fn multidimensional_array() {
    let values: Vec<f64> = (0..24).map(|x| x as f64).collect();
    let real = element(9, &f64s(&values, true), true);
    let data = file(true, &[dense(6, 0, &[2, 3, 4], "A", &[real], true)]);
    let mat_file = MatFile::parse(data.as_ref()).unwrap();
    let a = mat_file.find_by_name("A").unwrap();
    assert_eq!(a.ndims(), 3);
    assert_eq!(a.size(), &vec![2, 3, 4]);
    match a.data() {
        NumericData::Double { real, .. } => assert_eq!(doubles(real), values),
        other => panic!("unexpected data {:?}", other),
    }
}

#[test]
fn long_name() {
    let text = "a_rather_long_name_for_an_array_that_needs_a_long_tag";
    let real = element(9, &f64s(&[4.0], true), true);
    let data = file(true, &[dense(6, 0, &[1, 1], text, &[real], true)]);
    let mat_file = MatFile::parse(data.as_ref()).unwrap();
    assert_eq!(mat_file.arrays()[0].name(), text);
    assert!(mat_file.find_by_name(text).is_some());
}

fn sparse_file(
    le: bool,
    nzmax: u32,
    bits: u32,
    dims: &[i32],
    rows: &[i32],
    columns: &[i32],
    parts: &[Vec<f64>],
) -> Vec<u8> {
    let mut body = flags(5, bits, nzmax, le);
    body.extend(element(5, &i32s(dims, le), le));
    body.extend(name("S", le));
    body.extend(element(5, &i32s(rows, le), le));
    body.extend(element(5, &i32s(columns, le), le));
    for part in parts {
        body.extend(element(9, &f64s(part, le), le));
    }
    file(le, &[element(14, &body, le)])
}

fn double_bits(values: &[f64]) -> Vec<u64> {
    values.iter().map(|v| v.to_bits()).collect()
}

#[test]
fn sparse1() {
    let data = sparse_file(
        true,
        7,
        0,
        &[8, 8],
        &[5, 7, 2, 0, 1, 3, 6],
        &[0, 1, 2, 2, 3, 4, 5, 6, 7],
        &[vec![2.0, 7.0, 4.0, 9.0, 5.0, 8.0, 6.0]],
    );

    let (_, parsed_data) = parse_all(&data).unwrap();
    let parsed_matrix_data = parsed_data.data_elements[0].clone();
    if let DataElement::SparseMatrix(_flags, dim, _name, irows, icols, real_vals, imag_vals) =
        parsed_matrix_data
    {
        assert_eq!(dim, vec![8, 8]);
        assert_eq!(irows, vec![5, 7, 2, 0, 1, 3, 6]);
        assert_eq!(icols, vec![0, 1, 2, 2, 3, 4, 5, 6, 7]);
        assert_eq!(
            real_vals,
            matfile::parse::NumericData::Double(double_bits(&[2.0, 7.0, 4.0, 9.0, 5.0, 8.0, 6.0]))
        );
        assert_eq!(imag_vals, None);
    } else {
        panic!("Error extracting DataElement::SparseMatrix");
    }
    assert!(MatFile::parse(&data).unwrap().arrays().is_empty());
}

#[test]
fn sparse2() {
    let data = sparse_file(
        true,
        8,
        COMPLEX,
        &[8, 8],
        &[5, 7, 2, 0, 1, 5, 3, 6],
        &[0, 1, 2, 2, 3, 4, 6, 7, 8],
        &[
            vec![2.0, 7.0, 4.0, 9.0, 5.0, 6.0, 8.0, 6.0],
            vec![4.0, 0.0, 3.0, 7.0, 0.0, 1.0, 0.0, 0.0],
        ],
    );

    let (_, parsed_data) = parse_all(&data).unwrap();
    let parsed_matrix_data = parsed_data.data_elements[0].clone();
    if let DataElement::SparseMatrix(_flags, dim, _name, irows, icols, real_vals, imag_vals) =
        parsed_matrix_data
    {
        assert_eq!(dim, vec![8, 8]);
        assert_eq!(irows, vec![5, 7, 2, 0, 1, 5, 3, 6]);
        assert_eq!(icols, vec![0, 1, 2, 2, 3, 4, 6, 7, 8]);
        assert_eq!(
            real_vals,
            matfile::parse::NumericData::Double(double_bits(&[
                2.0, 7.0, 4.0, 9.0, 5.0, 6.0, 8.0, 6.0
            ]))
        );
        assert_eq!(
            imag_vals,
            Some(matfile::parse::NumericData::Double(double_bits(&[
                4.0, 0.0, 3.0, 7.0, 0.0, 1.0, 0.0, 0.0
            ])))
        );
    } else {
        panic!("Error extracting DataElement::SparseMatrix");
    }
}

#[test]
fn sparse() {
    let data = sparse_file(false, 1, 0, &[2, 2], &[1], &[0, 0, 1], &[vec![3.0]]);
    let (rest, header) = parse_header(&data).unwrap();
    assert!(!header.is_little_endian);
    assert!(header.text.starts_with("MATLAB 5.0 MAT-file"));
    assert_eq!(header.text.len(), 116);
    assert_eq!(rest.len(), data.len() - 128);
}

#[test]
fn sparse_column_shift_count_is_checked() {
    let data = sparse_file(true, 1, 0, &[2, 2], &[1], &[0, 1], &[vec![3.0]]);
    assert_eq!(parse_all(&data).err(), Some(ParseError::Framing));
}

#[test]
fn sparse_value_count_is_checked() {
    let data = sparse_file(true, 2, 0, &[2, 2], &[1], &[0, 0, 1], &[vec![3.0]]);
    assert_eq!(parse_all(&data).err(), Some(ParseError::Framing));
}

#[test]
fn header_rejects_leading_null_bytes() {
    let mut data = double_file(true);
    data[2] = 0;
    assert_eq!(parse_header(&data).err(), Some(ParseError::Framing));
    assert_eq!(MatFile::parse(&data).err(), Some(Error::ParseError(ParseError::Framing)));
}

#[test]
fn header_rejects_bad_version_and_marker() {
    let mut data = double_file(true);
    data[124] = 2;
    assert_eq!(parse_header(&data).err(), Some(ParseError::Framing));
    let mut data = double_file(true);
    data[126] = b'X';
    assert_eq!(parse_header(&data).err(), Some(ParseError::Framing));
    let data = double_file(true);
    assert_eq!(parse_header(&data[..127]).err(), Some(ParseError::Framing));
}

#[test]
fn header_text_that_is_not_utf8_is_empty() {
    let mut data = double_file(true);
    data[10] = 0xff;
    let (_, header) = parse_header(&data).unwrap();
    assert_eq!(header.text, "");
    assert!(header.is_little_endian);
}

#[test]
fn byte_order_does_not_matter() {
    let little = MatFile::parse(&double_file(true)).unwrap();
    let big = MatFile::parse(&double_file(false)).unwrap();
    assert_eq!(summary(&little.arrays()[0]), summary(&big.arrays()[0]));

    let real = |le| element(3, &i16s(&[-2, 515], le), le);
    let imag = |le| element(4, &i16s(&[258, 3], le), le);
    let make = |le| file(le, &[dense(12, COMPLEX, &[2, 1], "mixed", &[real(le), imag(le)], le)]);
    let little = MatFile::parse(&make(true)).unwrap();
    let big = MatFile::parse(&make(false)).unwrap();
    assert_eq!(summary(&little.arrays()[0]), summary(&big.arrays()[0]));
    assert_eq!(
        little.arrays()[0].data(),
        &NumericData::Int32 { real: vec![-2, 515], imag: Some(vec![258, 3]) }
    );
}

#[test]
fn small_and_long_tags_decode_alike() {
    for le in [true, false] {
        let payload = i16s(&[-1234], le);
        let small = file(le, &[dense(10, 0, &[1, 1], "x", &[small_element(3, &payload, le)], le)]);
        let long = file(le, &[dense(10, 0, &[1, 1], "x", &[element(3, &payload, le)], le)]);
        let a = MatFile::parse(&small).unwrap();
        let b = MatFile::parse(&long).unwrap();
        assert_eq!(summary(&a.arrays()[0]), summary(&b.arrays()[0]));
        assert_eq!(a.arrays()[0].data(), &NumericData::Int16 { real: vec![-1234], imag: None });
    }
}

#[test]
fn compressed_element_decodes_like_the_plain_one() {
    for le in [true, false] {
        let real = element(9, &f64s(&pos_values(), le), le);
        let plain = dense(6, 0, &[2, 3], "pos", &[real], le);
        let a = MatFile::parse(&file(le, &[plain.clone()])).unwrap();
        let b = MatFile::parse(&file(le, &[compressed(&plain, le)])).unwrap();
        assert_eq!(b.arrays().len(), 1);
        assert_eq!(summary(&a.arrays()[0]), summary(&b.arrays()[0]));
        let both = MatFile::parse(&file(le, &[compressed(&plain, le), plain.clone()])).unwrap();
        assert_eq!(both.arrays().len(), 2);
    }
}

#[test]
fn compressed_payload_that_does_not_inflate_is_rejected() {
    let mut broken = word(15, true);
    broken.extend(word(6, true));
    broken.extend_from_slice(&[1, 2, 3, 4, 5, 6]);
    assert_eq!(
        MatFile::parse(&file(true, &[broken])).err(),
        Some(Error::ParseError(ParseError::Framing))
    );
}

#[test]
fn compressed_elements_nest_to_the_limit() {
    let real = element(9, &f64s(&[1.0], true), true);
    let mut wrapped = dense(6, 0, &[1, 1], "n", &[real], true);
    for _ in 0..MAX_NESTING {
        wrapped = compressed(&wrapped, true);
    }
    let (rest, found) = parse_next_data_element(&wrapped, true, MAX_NESTING).unwrap();
    assert!(rest.is_empty());
    assert!(matches!(found, DataElement::NumericMatrix(..)));
    assert_eq!(MatFile::parse(&file(true, &[wrapped.clone()])).unwrap().arrays().len(), 1);
    let deeper = compressed(&wrapped, true);
    assert_eq!(
        parse_next_data_element(&deeper, true, MAX_NESTING).err(),
        Some(ParseError::Framing)
    );
}

#[test]
fn bytes_after_the_inflated_element_are_ignored() {
    let real = element(9, &f64s(&[1.0], true), true);
    let mut inner = dense(6, 0, &[1, 1], "n", &[real], true);
    inner.extend_from_slice(&[9, 9, 9]);
    let mat_file = MatFile::parse(&file(true, &[compressed(&inner, true)])).unwrap();
    assert_eq!(mat_file.arrays().len(), 1);
}

#[test]
fn unsupported_classes_are_passed_over() {
    for class in [1u32, 2, 3, 4] {
        let mut body = flags(class, 0, 0, true);
        body.extend_from_slice(&[7, 7, 7, 7, 7, 7, 7, 7]);
        let real = element(9, &f64s(&[1.0], true), true);
        let data = file(
            true,
            &[element(14, &body, true), dense(6, 0, &[1, 1], "kept", &[real], true)],
        );
        let (_, parsed) = parse_all(&data).unwrap();
        assert_eq!(parsed.data_elements.len(), 2);
        assert!(matches!(parsed.data_elements[0], DataElement::Unsupported));
        let mat_file = MatFile::parse(&data).unwrap();
        assert_eq!(mat_file.arrays().len(), 1);
        assert_eq!(mat_file.arrays()[0].name(), "kept");
    }
}

#[test]
fn elements_of_other_kinds_are_passed_over() {
    let data = file(true, &[element(16, b"hello", true), small_element(2, &[1, 2], true)]);
    let (rest, parsed) = parse_all(&data).unwrap();
    assert!(rest.is_empty());
    assert_eq!(parsed.data_elements.len(), 2);
    assert!(matches!(parsed.data_elements[0], DataElement::Unsupported));
    assert!(matches!(parsed.data_elements[1], DataElement::Unsupported));
    assert!(MatFile::parse(&data).unwrap().arrays().is_empty());
}

#[test]
fn truncated_input_is_a_framing_error() {
    let full = double_file(true);
    for cut in 129..full.len() {
        assert_eq!(
            MatFile::parse(&full[..cut]).err(),
            Some(Error::ParseError(ParseError::Framing)),
            "cut at {}",
            cut
        );
    }
    let mut data = header(true);
    data.extend(word(14, true));
    data.extend(word(4096, true));
    data.extend_from_slice(&[0; 16]);
    assert_eq!(parse_all(&data).err(), Some(ParseError::Framing));
    assert!(MatFile::parse(&header(true)).unwrap().arrays().is_empty());
}

#[test]
fn unknown_codes_are_framing_errors() {
    let data = file(true, &[element(8, &[0; 8], true)]);
    assert_eq!(parse_all(&data).err(), Some(ParseError::Framing));
    let data = file(true, &[element(19, &[0; 8], true)]);
    assert_eq!(parse_all(&data).err(), Some(ParseError::Framing));
    let real = element(9, &f64s(&[1.0], true), true);
    let data = file(true, &[dense(16, 0, &[1, 1], "x", &[real.clone()], true)]);
    assert_eq!(parse_all(&data).err(), Some(ParseError::Framing));
    let data = file(true, &[dense(0, 0, &[1, 1], "x", &[real], true)]);
    assert_eq!(parse_all(&data).err(), Some(ParseError::Framing));
    let mut oversized = word((5 << 16) | 2, true);
    oversized.extend_from_slice(&[0; 4]);
    assert_eq!(parse_all(&file(true, &[oversized])).err(), Some(ParseError::Framing));
}

#[test]
fn element_count_must_match_the_dimensions() {
    let real = element(9, &f64s(&[1.0, 2.0, 3.0], true), true);
    let data = file(true, &[dense(6, 0, &[2, 2], "x", &[real], true)]);
    assert_eq!(parse_all(&data).err(), Some(ParseError::Framing));
    let real = element(9, &f64s(&[1.0, 2.0, 3.0, 4.0], true), true);
    let imag = element(9, &f64s(&[1.0, 2.0, 3.0], true), true);
    let data = file(true, &[dense(6, COMPLEX, &[2, 2], "x", &[real.clone(), imag], true)]);
    assert_eq!(parse_all(&data).err(), Some(ParseError::Framing));
    let data = file(true, &[dense(6, COMPLEX, &[2, 2], "x", &[real], true)]);
    assert_eq!(parse_all(&data).err(), Some(ParseError::Framing));
}

#[test]
fn empty_and_huge_dimensions() {
    let real = element(9, &[], true);
    let data = file(true, &[dense(6, 0, &[0, 5], "e", &[real.clone()], true)]);
    let mat_file = MatFile::parse(&data).unwrap();
    assert_eq!(mat_file.arrays()[0].size(), &vec![0, 5]);
    assert_eq!(mat_file.arrays()[0].data(), &NumericData::Double { real: vec![], imag: None });
    let data = file(true, &[dense(6, 0, &[65536, 65536], "e", &[real.clone()], true)]);
    assert_eq!(parse_all(&data).err(), Some(ParseError::Framing));
    let data = file(
        true,
        &[dense(6, 0, &[i32::MAX, i32::MAX, i32::MAX, i32::MAX, 0], "e", &[real.clone()], true)],
    );
    assert!(parse_all(&data).is_ok());
    let one = element(9, &f64s(&[1.0], true), true);
    let data = file(true, &[dense(6, 0, &[-1, -1], "e", &[one.clone()], true)]);
    assert!(parse_all(&data).is_ok());
    let data = file(true, &[dense(6, 0, &[-1, 1], "e", &[one], true)]);
    assert_eq!(parse_all(&data).err(), Some(ParseError::Framing));
}

#[test]
fn payload_kind_must_suit_the_class() {
    let real = element(1, &[1, 2, 3, 4], true);
    let data = file(true, &[dense(6, 0, &[2, 2], "x", &[real], true)]);
    assert_eq!(parse_all(&data).err(), Some(ParseError::TypeMismatch));
    assert_eq!(MatFile::parse(&data).err(), Some(Error::ParseError(ParseError::TypeMismatch)));
    let real = element(5, &i32s(&[1, 2], true), true);
    let data = file(true, &[dense(10, 0, &[2, 1], "x", &[real], true)]);
    assert_eq!(parse_all(&data).err(), Some(ParseError::TypeMismatch));
}

#[test]
fn int32_class_is_held_against_uint32_payloads() {
    assert_eq!(ArrayType::Int32.numeric_data_type(), ArrayType::UInt32.numeric_data_type());
    let real = element(5, &i32s(&[1, 2], true), true);
    let data = file(true, &[dense(12, 0, &[2, 1], "x", &[real], true)]);
    assert_eq!(parse_all(&data).err(), Some(ParseError::TypeMismatch));
    let real = element(6, &i32s(&[1, 2], true), true);
    let data = file(true, &[dense(12, 0, &[2, 1], "x", &[real], true)]);
    assert!(parse_all(&data).is_ok());
    assert_eq!(MatFile::parse(&data).err(), Some(Error::ConversionError));
}

#[test]
fn name_must_be_text() {
    let real = element(9, &f64s(&[1.0], true), true);
    let mut body = flags(6, 0, 0, true);
    body.extend(element(5, &i32s(&[1, 1], true), true));
    body.extend(small_element(1, &[0xff, 0xfe], true));
    body.extend(real.clone());
    assert_eq!(parse_all(&file(true, &[element(14, &body, true)])).err(), Some(ParseError::Framing));
    let mut body = flags(6, 0, 0, true);
    body.extend(element(5, &i32s(&[1, 1], true), true));
    body.extend(small_element(1, "é".as_bytes(), true));
    body.extend(real);
    let mat_file = MatFile::parse(&file(true, &[element(14, &body, true)])).unwrap();
    assert_eq!(mat_file.arrays()[0].name(), "é");
    assert!(mat_file.find_by_name("é").is_some());
}

#[test]
fn flags_are_read_bit_by_bit() {
    let real = element(2, &[1], true);
    let data = file(true, &[dense(9, 0x0400 | 0x0200, &[1, 1], "f", &[real], true)]);
    let (_, parsed) = parse_all(&data).unwrap();
    match &parsed.data_elements[0] {
        DataElement::NumericMatrix(flags, dims, name, real, imag) => {
            assert!(!flags.complex);
            assert!(flags.global);
            assert!(flags.logical);
            assert_eq!(flags.class, ArrayType::UInt8);
            assert_eq!(flags.nzmax, 0);
            assert_eq!(dims, &vec![1, 1]);
            assert_eq!(name, "f");
            assert_eq!(real, &matfile::parse::NumericData::UInt8(vec![1]));
            assert!(imag.is_none());
        }
        other => panic!("unexpected element {:?}", other),
    }
}

#[test]
fn error_messages() {
    assert_eq!(
        Error::ParseError(ParseError::Framing).message(),
        "An error occurred while parsing the file"
    );
    assert_eq!(
        Error::ConversionError.message(),
        "An error occurred while converting number formats"
    );
    assert_eq!(Error::InternalError.message(), "An internal error occurred, this is a bug");
}
