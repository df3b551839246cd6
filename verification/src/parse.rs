//! The framing layer: header, element tags and the subelements of a matrix.

use vstd::prelude::*;
use vstd::slice::slice_subrange;
pub use crate::kinds::{
    numeric_data_types_are_compatible, spec_types_are_compatible, ArrayType, DataType,
};
pub use crate::numeric::NumericData;
use crate::numeric::{decode_elements, decode_int32, spec_elements, NumericSeq};
use crate::ieee::spec_magnitude;
use crate::inflate::{zlib_inflate, zlib_inflated};
use crate::sparse::{parse_sparse_matrix_subelements, spec_parse_sparse_matrix_subelements};
use crate::text::{spec_text, text_from_bytes};
use crate::wire::{read_u16, read_u32, spec_u16, spec_u32};

verus! {

/// Why a byte stream was rejected.
#[derive(Clone, Copy, Debug, PartialEq, Eq, Structural)]
pub enum ParseError {
    /// The stream is malformed: bad header, unknown code, truncated input,
    /// a subelement of the wrong kind or size, or data that does not inflate.
    Framing,
    /// The payload's element kind cannot be stored in an array of the
    /// declared class.
    TypeMismatch,
}

/// The fixed preamble of a file.
#[derive(Clone, Debug)]
pub struct Header {
    pub text: String,
    pub is_little_endian: bool,
}

/// What a `Header` stands for in contracts.
pub struct HeaderView {
    pub text: Seq<char>,
    pub is_little_endian: bool,
}

impl View for Header {
    type V = HeaderView;

    open spec fn view(&self) -> HeaderView {
        HeaderView { text: self.text@, is_little_endian: self.is_little_endian }
    }
}

/// The attributes that head every matrix element.
#[derive(Clone, Copy, Debug)]
pub struct ArrayFlags {
    pub complex: bool,
    pub global: bool,
    pub logical: bool,
    pub class: ArrayType,
    pub nzmax: usize,
}

pub type Dimensions = Vec<i32>;

pub type RowIndex = Vec<usize>;

pub type ColumnShift = Vec<usize>;

/// The tag in front of a payload.
#[derive(Clone, Copy, Debug)]
pub struct DataElementTag {
    pub data_type: DataType,
    pub data_byte_size: u32,
    pub padding_byte_size: u32,
}

/// What a parser yields in contracts: the bytes it left and its value, or
/// the reason for rejecting the input.
pub type Parsed<T> = Result<(Seq<u8>, T), ParseError>;

/// An executable parser's result `r` is what the contract `s` asks for.
pub open spec fn agrees<T>(r: Result<(&[u8], T), ParseError>, s: Parsed<T>) -> bool {
    match r {
        Ok((rest, value)) => s == Ok::<(Seq<u8>, T), ParseError>((rest@, value)),
        Err(e) => s == Err::<(Seq<u8>, T), ParseError>(e),
    }
}

/// As `agrees`, for a value that contracts see through its view.
pub open spec fn agrees_view<T: View>(
    r: Result<(&[u8], T), ParseError>,
    s: Parsed<T::V>,
) -> bool {
    match r {
        Ok((rest, value)) => s == Ok::<(Seq<u8>, T::V), ParseError>((rest@, value@)),
        Err(e) => s == Err::<(Seq<u8>, T::V), ParseError>(e),
    }
}

/// Splits off the first `count` bytes: what is left, then what was taken.
pub open spec fn spec_take(s: Seq<u8>, count: int) -> Result<(Seq<u8>, Seq<u8>), ParseError> {
    if 0 <= count <= s.len() {
        Ok((s.skip(count), s.take(count)))
    } else {
        Err(ParseError::Framing)
    }
}

/// Splits off the first `count` bytes of `i`; a framing error if `i` is
/// shorter than that.
pub fn take(i: &[u8], count: usize) -> (r: Result<(&[u8], &[u8]), ParseError>)
    ensures
        match r {
            Ok((rest, taken)) => spec_take(i@, count as int) == Ok::<
                (Seq<u8>, Seq<u8>),
                ParseError,
            >((rest@, taken@)),
            Err(e) => spec_take(i@, count as int) == Err::<(Seq<u8>, Seq<u8>), ParseError>(e),
        },
{
    if count <= i.len() {
        let taken = slice_subrange(i, 0, count);
        let rest = slice_subrange(i, count, i.len());
        assert(rest@ =~= i@.skip(count as int));
        assert(taken@ =~= i@.take(count as int));
        Ok((rest, taken))
    } else {
        Err(ParseError::Framing)
    }
}

/// The least multiple of `multiple` that is not below `x`.
pub open spec fn spec_ceil_to_multiple(x: int, multiple: int) -> int {
    if x % multiple == 0 {
        x
    } else {
        x - x % multiple + multiple
    }
}

/// The least multiple of `multiple` that is not below `x`.
pub fn ceil_to_multiple(x: u32, multiple: u32) -> (r: u64)
    requires
        multiple > 0,
    ensures
        r as int == spec_ceil_to_multiple(x as int, multiple as int),
{
    let rem: u32 = x % multiple;
    assert(rem <= x) by (nonlinear_arith)
        requires
            rem == x % multiple,
            multiple > 0,
    ;
    if rem == 0 {
        x as u64
    } else {
        (x - rem) as u64 + multiple as u64
    }
}

/// The tag at the start of `s`, in either of its two layouts.
///
/// Where the upper half of the first word is zero the tag is long: the word
/// is the kind, the next word the payload's size, and the payload is padded
/// to a multiple of eight bytes. Otherwise it is small: the lower half is
/// the kind, the upper half the size, at most four, and tag and payload
/// fill eight bytes.
#[verifier::opaque]
pub open spec fn spec_parse_data_element_tag(s: Seq<u8>, le: bool) -> Parsed<DataElementTag> {
    if s.len() < 4 {
        Err(ParseError::Framing)
    } else {
        let first = spec_u32(s, le);
        if first < 0x1_0000 {
            if s.len() < 8 {
                Err(ParseError::Framing)
            } else {
                let size = spec_u32(s.skip(4), le);
                match DataType::spec_from_code(first) {
                    Some(data_type) => Ok(
                        (
                            s.skip(8),
                            DataElementTag {
                                data_type,
                                data_byte_size: size as u32,
                                padding_byte_size: (spec_ceil_to_multiple(size, 8) - size) as u32,
                            },
                        ),
                    ),
                    None => Err(ParseError::Framing),
                }
            }
        } else {
            let size = first / 0x1_0000;
            match DataType::spec_from_code(first % 0x1_0000) {
                Some(data_type) => if size > 4 {
                    Err(ParseError::Framing)
                } else {
                    Ok(
                        (
                            s.skip(4),
                            DataElementTag {
                                data_type,
                                data_byte_size: size as u32,
                                padding_byte_size: (4 - size) as u32,
                            },
                        ),
                    )
                },
                None => Err(ParseError::Framing),
            }
        }
    }
}

/// Reads the tag at the start of `i`.
pub fn parse_data_element_tag(i: &[u8], le: bool) -> (r: Result<
    (&[u8], DataElementTag),
    ParseError,
>)
    ensures
        agrees(r, spec_parse_data_element_tag(i@, le)),
        r matches Ok((rest, tag)) ==> rest@.len() + 4 <= i@.len() && tag.padding_byte_size < 8,
{
    proof {
        reveal(spec_parse_data_element_tag);
    }
    if i.len() < 4 {
        return Err(ParseError::Framing);
    }
    let first: u32 = read_u32(i, 0, le);
    assert(i@.skip(0) =~= i@);
    if first < 0x1_0000 {
        if i.len() < 8 {
            return Err(ParseError::Framing);
        }
        let size: u32 = read_u32(i, 4, le);
        let padded: u64 = ceil_to_multiple(size, 8);
        match DataType::from_u32(first) {
            Some(data_type) => {
                let rest = slice_subrange(i, 8, i.len());
                assert(rest@ =~= i@.skip(8));
                Ok(
                    (
                        rest,
                        DataElementTag {
                            data_type,
                            data_byte_size: size,
                            padding_byte_size: (padded - size as u64) as u32,
                        },
                    ),
                )
            },
            None => Err(ParseError::Framing),
        }
    } else {
        let size: u32 = first / 0x1_0000;
        match DataType::from_u32(first % 0x1_0000) {
            Some(data_type) => {
                if size > 4 {
                    return Err(ParseError::Framing);
                }
                let rest = slice_subrange(i, 4, i.len());
                assert(rest@ =~= i@.skip(4));
                Ok(
                    (
                        rest,
                        DataElementTag {
                            data_type,
                            data_byte_size: size,
                            padding_byte_size: 4 - size,
                        },
                    ),
                )
            },
            None => Err(ParseError::Framing),
        }
    }
}

/// A numeric subelement: a tag of one of the ten numeric kinds, as many
/// whole elements as the announced size holds, then the tag's padding.
#[verifier::opaque]
pub open spec fn spec_parse_numeric_data_element(s: Seq<u8>, le: bool) -> Parsed<NumericSeq> {
    match spec_parse_data_element_tag(s, le) {
        Err(e) => Err(e),
        Ok((rest, tag)) => {
            let width = tag.data_type.spec_width();
            if width == 0 {
                Err(ParseError::Framing)
            } else {
                let count = tag.data_byte_size as int / width;
                if rest.len() < count * width + tag.padding_byte_size {
                    Err(ParseError::Framing)
                } else {
                    Ok(
                        (
                            rest.skip(count * width + tag.padding_byte_size),
                            NumericSeq {
                                kind: tag.data_type,
                                values: spec_elements(tag.data_type, rest, count, le),
                            },
                        ),
                    )
                }
            }
        },
    }
}

/// Reads one numeric subelement from the start of `i`.
pub fn parse_numeric_data_element(i: &[u8], le: bool) -> (r: Result<(&[u8], NumericData), ParseError>)
    ensures
        agrees_view(r, spec_parse_numeric_data_element(i@, le)),
{
    proof {
        reveal(spec_parse_numeric_data_element);
    }
    let (rest, tag) = match parse_data_element_tag(i, le) {
        Ok(found) => found,
        Err(e) => {
            return Err(e);
        },
    };
    let width: usize = tag.data_type.width();
    if width == 0 {
        return Err(ParseError::Framing);
    }
    let size: usize = tag.data_byte_size as usize;
    let count: usize = size / width;
    let used: usize = size - size % width;
    assert(used == count * width) by {
        if width == 1 {
        } else if width == 2 {
        } else if width == 4 {
        } else {
            assert(width == 8);
        }
    }
    let padding: usize = tag.padding_byte_size as usize;
    if rest.len() < used || rest.len() - used < padding {
        return Err(ParseError::Framing);
    }
    let data = decode_elements(tag.data_type, rest, count, le);
    let after = slice_subrange(rest, used + padding, rest.len());
    assert(after@ =~= rest@.skip(count * width + tag.padding_byte_size));
    Ok((after, data))
}

/// The 128 bytes that open a file.
///
/// None of the first four bytes is zero. Bytes 0 to 115 are descriptive
/// text, taken as empty where they are not UTF-8. Bytes 126 and 127 spell
/// "IM" in a little-endian file and "MI" in a big-endian one, and bytes 124
/// and 125 hold the version, 0x0100, in the file's byte order.
#[verifier::opaque]
pub open spec fn spec_parse_header(s: Seq<u8>) -> Parsed<HeaderView> {
    if s.len() < 128 {
        Err(ParseError::Framing)
    } else if s[0] == 0 || s[1] == 0 || s[2] == 0 || s[3] == 0 {
        Err(ParseError::Framing)
    } else {
        let little = s[126] == 0x49 && s[127] == 0x4d;
        let big = s[126] == 0x4d && s[127] == 0x49;
        if !little && !big {
            Err(ParseError::Framing)
        } else if spec_u16(s.skip(124), little) != 0x0100 {
            Err(ParseError::Framing)
        } else {
            Ok(
                (
                    s.skip(128),
                    HeaderView {
                        text: match spec_text(s.take(116)) {
                            Some(text) => text,
                            None => Seq::empty(),
                        },
                        is_little_endian: little,
                    },
                ),
            )
        }
    }
}

/// Reads the header at the start of `i`.
pub fn parse_header(i: &[u8]) -> (r: Result<(&[u8], Header), ParseError>)
    ensures
        agrees_view(r, spec_parse_header(i@)),
{
    proof {
        reveal(spec_parse_header);
    }
    if i.len() < 128 {
        return Err(ParseError::Framing);
    }
    if i[0] == 0 || i[1] == 0 || i[2] == 0 || i[3] == 0 {
        return Err(ParseError::Framing);
    }
    let little: bool = i[126] == 0x49 && i[127] == 0x4d;
    let big: bool = i[126] == 0x4d && i[127] == 0x49;
    if !little && !big {
        return Err(ParseError::Framing);
    }
    let version: u16 = read_u16(i, 124, little);
    if version != 0x0100 {
        return Err(ParseError::Framing);
    }
    let bytes = slice_subrange(i, 0, 116);
    assert(bytes@ =~= i@.take(116));
    let text = match text_from_bytes(bytes) {
        Some(text) => text,
        None => String::new(),
    };
    let rest = slice_subrange(i, 128, i.len());
    assert(rest@ =~= i@.skip(128));
    Ok((rest, Header { text, is_little_endian: little }))
}

/// The array flags: a long tag of kind `UInt32` and size 8, a word whose
/// low byte is the class and whose bits 0x0800, 0x0400 and 0x0200 say
/// complex, global and logical, and a word that holds `nzmax`.
#[verifier::opaque]
pub open spec fn spec_parse_array_flags_subelement(s: Seq<u8>, le: bool) -> Parsed<ArrayFlags> {
    if s.len() < 16 {
        Err(ParseError::Framing)
    } else if spec_u32(s, le) != 6 || spec_u32(s.skip(4), le) != 8 {
        Err(ParseError::Framing)
    } else {
        let word = spec_u32(s.skip(8), le);
        match ArrayType::spec_from_code(word % 0x100) {
            Some(class) => Ok(
                (
                    s.skip(16),
                    ArrayFlags {
                        complex: (word / 0x800) % 2 == 1,
                        global: (word / 0x400) % 2 == 1,
                        logical: (word / 0x200) % 2 == 1,
                        class,
                        nzmax: spec_u32(s.skip(12), le) as usize,
                    },
                ),
            ),
            None => Err(ParseError::Framing),
        }
    }
}

/// Reads the array flags at the start of `i`.
pub fn parse_array_flags_subelement(i: &[u8], le: bool) -> (r: Result<
    (&[u8], ArrayFlags),
    ParseError,
>)
    ensures
        agrees(r, spec_parse_array_flags_subelement(i@, le)),
{
    proof {
        reveal(spec_parse_array_flags_subelement);
    }
    if i.len() < 16 {
        return Err(ParseError::Framing);
    }
    let tag_data_type: u32 = read_u32(i, 0, le);
    assert(i@.skip(0) =~= i@);
    let tag_data_len: u32 = read_u32(i, 4, le);
    if !(tag_data_type == DataType::UInt32.code() && tag_data_len == 8) {
        return Err(ParseError::Framing);
    }
    let flags_and_class: u32 = read_u32(i, 8, le);
    let nzmax: u32 = read_u32(i, 12, le);
    match ArrayType::from_u8((flags_and_class % 0x100) as u8) {
        Some(class) => {
            let rest = slice_subrange(i, 16, i.len());
            assert(rest@ =~= i@.skip(16));
            Ok(
                (
                    rest,
                    ArrayFlags {
                        complex: (flags_and_class / 0x800) % 2 == 1,
                        global: (flags_and_class / 0x400) % 2 == 1,
                        logical: (flags_and_class / 0x200) % 2 == 1,
                        class,
                        nzmax: nzmax as usize,
                    },
                ),
            )
        },
        None => Err(ParseError::Framing),
    }
}

/// The payload of a subelement of 32-bit integers: as many whole integers
/// as the tag's size holds, then the tag's padding.
pub open spec fn spec_int32_payload(s: Seq<u8>, tag: DataElementTag, le: bool) -> Parsed<Seq<int>> {
    let count = tag.data_byte_size as int / 4;
    if s.len() < count * 4 + tag.padding_byte_size {
        Err(ParseError::Framing)
    } else {
        Ok(
            (
                s.skip(count * 4 + tag.padding_byte_size),
                spec_elements(DataType::Int32, s, count, le),
            ),
        )
    }
}

/// Reads the payload of a subelement of 32-bit integers.
pub fn parse_int32_payload(i: &[u8], tag: DataElementTag, le: bool) -> (r: Result<
    (&[u8], Vec<i32>),
    ParseError,
>)
    ensures
        match r {
            Ok((rest, values)) => spec_int32_payload(i@, tag, le) == Ok::<
                (Seq<u8>, Seq<int>),
                ParseError,
            >((rest@, values@.map_values(|x: i32| x as int))),
            Err(e) => spec_int32_payload(i@, tag, le) == Err::<(Seq<u8>, Seq<int>), ParseError>(e),
        },
        r matches Ok((rest, values)) ==> values@.len() == tag.data_byte_size as int / 4,
{
    let size: usize = tag.data_byte_size as usize;
    let count: usize = size / 4;
    let padding: usize = tag.padding_byte_size as usize;
    if i.len() < count * 4 || i.len() - count * 4 < padding {
        return Err(ParseError::Framing);
    }
    let values = decode_int32(i, count, le);
    let rest = slice_subrange(i, count * 4 + padding, i.len());
    assert(rest@ =~= i@.skip(count * 4 + tag.padding_byte_size));
    Ok((rest, values))
}

/// The dimensions subelement: kind `Int32`, at least two entries.
#[verifier::opaque]
pub open spec fn spec_parse_dimensions_array_subelement(s: Seq<u8>, le: bool) -> Parsed<Seq<int>> {
    match spec_parse_data_element_tag(s, le) {
        Err(e) => Err(e),
        Ok((rest, tag)) => if tag.data_type == DataType::Int32 && tag.data_byte_size >= 8
            && tag.data_byte_size % 4 == 0 {
            spec_int32_payload(rest, tag, le)
        } else {
            Err(ParseError::Framing)
        },
    }
}

/// Reads the dimensions subelement at the start of `i`.
pub fn parse_dimensions_array_subelement(i: &[u8], le: bool) -> (r: Result<
    (&[u8], Dimensions),
    ParseError,
>)
    ensures
        match r {
            Ok((rest, dims)) => spec_parse_dimensions_array_subelement(i@, le) == Ok::<
                (Seq<u8>, Seq<int>),
                ParseError,
            >((rest@, dims@.map_values(|x: i32| x as int))),
            Err(e) => spec_parse_dimensions_array_subelement(i@, le) == Err::<
                (Seq<u8>, Seq<int>),
                ParseError,
            >(e),
        },
        r matches Ok((rest, dims)) ==> dims@.len() >= 2,
{
    proof {
        reveal(spec_parse_dimensions_array_subelement);
    }
    let (rest, tag) = match parse_data_element_tag(i, le) {
        Ok(found) => found,
        Err(e) => {
            return Err(e);
        },
    };
    if !(tag.data_type == DataType::Int32 && tag.data_byte_size >= 8 && tag.data_byte_size % 4
        == 0) {
        return Err(ParseError::Framing);
    }
    parse_int32_payload(rest, tag, le)
}

/// The name subelement: kind `Int8`, not empty, UTF-8.
#[verifier::opaque]
pub open spec fn spec_parse_array_name_subelement(s: Seq<u8>, le: bool) -> Parsed<Seq<char>> {
    match spec_parse_data_element_tag(s, le) {
        Err(e) => Err(e),
        Ok((rest, tag)) => if tag.data_type == DataType::Int8 && tag.data_byte_size > 0 {
            if rest.len() < tag.data_byte_size + tag.padding_byte_size {
                Err(ParseError::Framing)
            } else {
                match spec_text(rest.take(tag.data_byte_size as int)) {
                    Some(name) => Ok(
                        (rest.skip(tag.data_byte_size + tag.padding_byte_size), name),
                    ),
                    None => Err(ParseError::Framing),
                }
            }
        } else {
            Err(ParseError::Framing)
        },
    }
}

/// Reads the name subelement at the start of `i`.
pub fn parse_array_name_subelement(i: &[u8], le: bool) -> (r: Result<(&[u8], String), ParseError>)
    ensures
        agrees_view(r, spec_parse_array_name_subelement(i@, le)),
{
    proof {
        reveal(spec_parse_array_name_subelement);
    }
    let (rest, tag) = match parse_data_element_tag(i, le) {
        Ok(found) => found,
        Err(e) => {
            return Err(e);
        },
    };
    if !(tag.data_type == DataType::Int8 && tag.data_byte_size > 0) {
        return Err(ParseError::Framing);
    }
    let size: usize = tag.data_byte_size as usize;
    let padding: usize = tag.padding_byte_size as usize;
    if rest.len() < size || rest.len() - size < padding {
        return Err(ParseError::Framing);
    }
    let bytes = slice_subrange(rest, 0, size);
    assert(bytes@ =~= rest@.take(size as int));
    match text_from_bytes(bytes) {
        Some(name) => {
            let after = slice_subrange(rest, size + padding, rest.len());
            assert(after@ =~= rest@.skip(tag.data_byte_size + tag.padding_byte_size));
            Ok((after, name))
        },
        None => Err(ParseError::Framing),
    }
}

/// One top-level element of a file.
#[derive(Clone, Debug)]
pub enum DataElement {
    /// Flags, dimensions, name, real part and, for a complex array,
    /// imaginary part of a dense numeric array.
    NumericMatrix(ArrayFlags, Dimensions, String, NumericData, Option<NumericData>),
    /// Flags, dimensions, name, row indices, column shifts, real part and,
    /// for a complex array, imaginary part of a sparse array.
    SparseMatrix(
        ArrayFlags,
        Dimensions,
        String,
        RowIndex,
        ColumnShift,
        NumericData,
        Option<NumericData>,
    ),
    /// An element that is recognised and passed over.
    Unsupported,
}

/// A `DataElement` in contracts.
pub enum DataElementView {
    NumericMatrix {
        flags: ArrayFlags,
        dims: Seq<int>,
        name: Seq<char>,
        real_part: NumericSeq,
        imag_part: Option<NumericSeq>,
    },
    SparseMatrix {
        flags: ArrayFlags,
        dims: Seq<int>,
        name: Seq<char>,
        row_index: Seq<int>,
        column_shift: Seq<int>,
        real_part: NumericSeq,
        imag_part: Option<NumericSeq>,
    },
    Unsupported,
}

/// The view of an optional numeric vector.
pub open spec fn spec_optional(part: Option<NumericData>) -> Option<NumericSeq> {
    match part {
        Some(data) => Some(data@),
        None => None,
    }
}

impl View for DataElement {
    type V = DataElementView;

    open spec fn view(&self) -> DataElementView {
        match self {
            DataElement::NumericMatrix(flags, dims, name, real_part, imag_part) => {
                DataElementView::NumericMatrix {
                    flags: *flags,
                    dims: dims@.map_values(|x: i32| x as int),
                    name: name@,
                    real_part: real_part@,
                    imag_part: spec_optional(*imag_part),
                }
            },
            DataElement::SparseMatrix(flags, dims, name, rows, columns, real_part, imag_part) => {
                DataElementView::SparseMatrix {
                    flags: *flags,
                    dims: dims@.map_values(|x: i32| x as int),
                    name: name@,
                    row_index: rows@.map_values(|x: usize| x as int),
                    column_shift: columns@.map_values(|x: usize| x as int),
                    real_part: real_part@,
                    imag_part: spec_optional(*imag_part),
                }
            },
            DataElement::Unsupported => DataElementView::Unsupported,
        }
    }
}

impl DataElementView {
    /// What holds of every element that a parser hands out: a dense array
    /// has as many elements as its dimensions multiply to, of a kind that
    /// its class admits; a sparse array has `nzmax` elements and one column
    /// shift more than it has columns; an imaginary part is as long as the
    /// real part.
    pub open spec fn well_formed(self) -> bool {
        match self {
            DataElementView::NumericMatrix { flags, dims, name, real_part, imag_part } => {
                &&& flags.class.spec_numeric_data_type() matches Some(expected)
                &&& dims.len() >= 2
                &&& real_part.values.len() == spec_product(dims)
                &&& spec_types_are_compatible(expected, real_part.kind)
                &&& imag_part is Some == flags.complex
                &&& imag_part matches Some(part) ==> part.values.len() == real_part.values.len()
                    && spec_types_are_compatible(expected, part.kind)
            },
            DataElementView::SparseMatrix {
                flags,
                dims,
                name,
                row_index,
                column_shift,
                real_part,
                imag_part,
            } => {
                &&& dims.len() >= 2
                &&& real_part.values.len() == flags.nzmax
                &&& column_shift.len() == dims[1] + 1
                &&& imag_part is Some == flags.complex
                &&& imag_part matches Some(part) ==> part.values.len() == real_part.values.len()
            },
            DataElementView::Unsupported => true,
        }
    }
}

/// The product of the entries of `dims`; 1 for no entries.
pub open spec fn spec_product(dims: Seq<int>) -> int
    decreases dims.len(),
{
    if dims.len() == 0 {
        1
    } else {
        spec_product(dims.drop_last()) * dims.last()
    }
}

/// A product with a zero factor is zero.
pub proof fn lemma_product_zero(dims: Seq<int>, k: int)
    requires
        0 <= k < dims.len(),
        dims[k] == 0,
    ensures
        spec_product(dims) == 0,
    decreases dims.len(),
{
    if k < dims.len() - 1 {
        lemma_product_zero(dims.drop_last(), k);
    }
    assert(spec_product(dims) == spec_product(dims.drop_last()) * dims.last());
    assert(spec_product(dims.drop_last()) == 0 || dims.last() == 0);
    assert(spec_product(dims.drop_last()) * dims.last() == 0) by (nonlinear_arith)
        requires
            spec_product(dims.drop_last()) == 0 || dims.last() == 0,
    ;
}

/// Without a zero factor, the product of a prefix is no further from zero
/// than the product of the whole.
pub proof fn lemma_product_grows(dims: Seq<int>, k: int)
    requires
        0 <= k <= dims.len(),
        forall|j: int| 0 <= j < dims.len() ==> dims[j] != 0,
    ensures
        spec_magnitude(spec_product(dims.take(k))) <= spec_magnitude(spec_product(dims)),
    decreases dims.len(),
{
    if k == dims.len() {
        assert(dims.take(k) =~= dims);
    } else {
        let front = dims.drop_last();
        lemma_product_grows(front, k);
        assert(front.take(k) =~= dims.take(k));
        let p = spec_product(front);
        let d = dims.last();
        assert(spec_magnitude(p) <= spec_magnitude(p * d)) by (nonlinear_arith)
            requires
                d != 0,
        ;
    }
}

/// Whether the entries of `dims` multiply to `count`.
pub fn dimensions_hold(dims: &Vec<i32>, count: usize) -> (r: bool)
    ensures
        r == (spec_product(dims@.map_values(|x: i32| x as int)) == count),
{
    let ghost all = dims@.map_values(|x: i32| x as int);
    let mut k: usize = 0;
    while k < dims.len()
        invariant
            k <= dims.len(),
            all == dims@.map_values(|x: i32| x as int),
            forall|j: int| 0 <= j < k ==> all[j] != 0,
        decreases dims.len() - k,
    {
        if dims[k] == 0 {
            proof {
                lemma_product_zero(all, k as int);
            }
            return count == 0;
        }
        k += 1;
    }
    let mut product: i128 = 1;
    k = 0;
    while k < dims.len()
        invariant
            k <= dims.len(),
            all == dims@.map_values(|x: i32| x as int),
            forall|j: int| 0 <= j < dims.len() ==> all[j] != 0,
            product as int == spec_product(all.take(k as int)),
            spec_magnitude(product as int) <= 0x1_0000_0000_0000_0000,
        decreases dims.len() - k,
    {
        let d: i128 = dims[k] as i128;
        proof {
            assert(all.take(k + 1).drop_last() =~= all.take(k as int));
            assert(all.take(k + 1).last() == d);
            assert(spec_magnitude(product * d) <= 0x1_0000_0000_0000_0000 * 0x8000_0000)
                by (nonlinear_arith)
                requires
                    spec_magnitude(product as int) <= 0x1_0000_0000_0000_0000,
                    -0x8000_0000 <= d <= 0x8000_0000,
            ;
        }
        product = product * d;
        k += 1;
        if product > 0x1_0000_0000_0000_0000 || product < -0x1_0000_0000_0000_0000 {
            proof {
                lemma_product_grows(all, k as int);
            }
            return false;
        }
    }
    assert(all.take(k as int) =~= all);
    if product < 0 {
        false
    } else {
        product == count as i128
    }
}

/// The choice of dense checks on one numeric vector.
pub open spec fn spec_dense_part_check(
    flags: ArrayFlags,
    dims: Seq<int>,
    part: NumericSeq,
) -> Option<ParseError> {
    if part.values.len() != spec_product(dims) {
        Some(ParseError::Framing)
    } else {
        match flags.class.spec_numeric_data_type() {
            Some(expected) => if spec_types_are_compatible(expected, part.kind) {
                None
            } else {
                Some(ParseError::TypeMismatch)
            },
            None => Some(ParseError::Framing),
        }
    }
}

/// Holds one numeric vector against the dimensions and the class of the
/// array it belongs to: a framing error where the length is not the product
/// of the dimensions, else a type error where the class does not admit the
/// vector's kind.
pub fn dense_part_check(flags: &ArrayFlags, dims: &Vec<i32>, part: &NumericData) -> (r: Option<
    ParseError,
>)
    ensures
        r == spec_dense_part_check(*flags, dims@.map_values(|x: i32| x as int), part@),
{
    if !dimensions_hold(dims, part.len()) {
        return Some(ParseError::Framing);
    }
    match flags.class.numeric_data_type() {
        Some(expected) => {
            if numeric_data_types_are_compatible(expected, part.data_type()) {
                None
            } else {
                Some(ParseError::TypeMismatch)
            }
        },
        None => Some(ParseError::Framing),
    }
}

/// The subelements of a dense numeric array after its flags: dimensions,
/// name, real part and, where the flags say complex, imaginary part. Each
/// part has as many elements as the dimensions multiply to, of a kind that
/// the class admits.
pub open spec fn spec_parse_numeric_matrix_subelements(
    s: Seq<u8>,
    le: bool,
    flags: ArrayFlags,
) -> Parsed<DataElementView> {
    match spec_parse_dimensions_array_subelement(s, le) {
        Err(e) => Err(e),
        Ok((after_dims, dims)) => match spec_parse_array_name_subelement(after_dims, le) {
            Err(e) => Err(e),
            Ok((after_name, name)) => match spec_parse_numeric_data_element(after_name, le) {
                Err(e) => Err(e),
                Ok((after_real, real_part)) => match spec_dense_part_check(flags, dims, real_part) {
                    Some(e) => Err(e),
                    None => if flags.complex {
                        match spec_parse_numeric_data_element(after_real, le) {
                            Err(e) => Err(e),
                            Ok((after_imag, imag_part)) => match spec_dense_part_check(
                                flags,
                                dims,
                                imag_part,
                            ) {
                                Some(e) => Err(e),
                                None => Ok(
                                    (
                                        after_imag,
                                        DataElementView::NumericMatrix {
                                            flags,
                                            dims,
                                            name,
                                            real_part,
                                            imag_part: Some(imag_part),
                                        },
                                    ),
                                ),
                            },
                        }
                    } else {
                        Ok(
                            (
                                after_real,
                                DataElementView::NumericMatrix {
                                    flags,
                                    dims,
                                    name,
                                    real_part,
                                    imag_part: None,
                                },
                            ),
                        )
                    },
                },
            },
        },
    }
}

/// Reads the subelements of a dense numeric array after its flags.
pub fn parse_numeric_matrix_subelements(i: &[u8], le: bool, flags: ArrayFlags) -> (r: Result<
    (&[u8], DataElement),
    ParseError,
>)
    ensures
        agrees_view(r, spec_parse_numeric_matrix_subelements(i@, le, flags)),
        r matches Ok((rest, element)) ==> element@.well_formed(),
{
    let (i, dimensions) = match parse_dimensions_array_subelement(i, le) {
        Ok(found) => found,
        Err(e) => {
            return Err(e);
        },
    };
    let (i, name) = match parse_array_name_subelement(i, le) {
        Ok(found) => found,
        Err(e) => {
            return Err(e);
        },
    };
    let (i, real_part) = match parse_numeric_data_element(i, le) {
        Ok(found) => found,
        Err(e) => {
            return Err(e);
        },
    };
    match dense_part_check(&flags, &dimensions, &real_part) {
        Some(e) => {
            return Err(e);
        },
        None => {},
    }
    if flags.complex {
        let (i, imag_part) = match parse_numeric_data_element(i, le) {
            Ok(found) => found,
            Err(e) => {
                return Err(e);
            },
        };
        match dense_part_check(&flags, &dimensions, &imag_part) {
            Some(e) => {
                return Err(e);
            },
            None => {},
        }
        Ok((i, DataElement::NumericMatrix(flags, dimensions, name, real_part, Some(imag_part))))
    } else {
        Ok((i, DataElement::NumericMatrix(flags, dimensions, name, real_part, None)))
    }
}

/// How many compressed elements may lie inside one another.
pub const MAX_NESTING: usize = 8;

/// What an element parser yields in contracts when nothing is left over.
pub type Decoded = Result<DataElementView, ParseError>;

/// An executable result `r` is what the contract `s` asks for.
pub open spec fn agrees_element(r: Result<DataElement, ParseError>, s: Decoded) -> bool {
    match r {
        Ok(element) => s == Ok::<DataElementView, ParseError>(element@),
        Err(e) => s == Err::<DataElementView, ParseError>(e),
    }
}

/// The payload of a matrix element: the array flags, then what the class in
/// them asks for. Cells, structures, objects and character arrays are
/// passed over, whatever follows their flags.
pub open spec fn spec_parse_matrix_data_element(s: Seq<u8>, le: bool) -> Decoded {
    match spec_parse_array_flags_subelement(s, le) {
        Err(e) => Err(e),
        Ok((rest, flags)) => match flags.class {
            ArrayType::Cell | ArrayType::Struct | ArrayType::Object | ArrayType::Char => Ok(
                DataElementView::Unsupported,
            ),
            ArrayType::Sparse => match spec_parse_sparse_matrix_subelements(rest, le, flags) {
                Ok((after, element)) => Ok(element),
                Err(e) => Err(e),
            },
            _ => match spec_parse_numeric_matrix_subelements(rest, le, flags) {
                Ok((after, element)) => Ok(element),
                Err(e) => Err(e),
            },
        },
    }
}

/// Reads the payload of a matrix element.
pub fn parse_matrix_data_element(i: &[u8], le: bool) -> (r: Result<DataElement, ParseError>)
    ensures
        agrees_element(r, spec_parse_matrix_data_element(i@, le)),
        r matches Ok(element) ==> element@.well_formed(),
{
    let (i, flags) = match parse_array_flags_subelement(i, le) {
        Ok(found) => found,
        Err(e) => {
            return Err(e);
        },
    };
    match flags.class {
        ArrayType::Cell | ArrayType::Struct | ArrayType::Object | ArrayType::Char => {
            parse_unsupported_data_element(i)
        },
        ArrayType::Sparse => match parse_sparse_matrix_subelements(i, le, flags) {
            Ok((_, element)) => Ok(element),
            Err(e) => Err(e),
        },
        _ => match parse_numeric_matrix_subelements(i, le, flags) {
            Ok((_, element)) => Ok(element),
            Err(e) => Err(e),
        },
    }
}

/// Passes over a payload that is not decoded.
pub fn parse_unsupported_data_element(i: &[u8]) -> (r: Result<DataElement, ParseError>)
    ensures
        r matches Ok(element) && element@ == DataElementView::Unsupported,
{
    Ok(DataElement::Unsupported)
}

/// One element at the start of `s`: its tag, its payload of exactly the
/// announced size, and its padding.
///
/// A matrix payload is decoded as a matrix, a compressed payload is
/// inflated and decoded as one element, and a payload of any other kind is
/// passed over. A compressed payload has no padding; any other padding is
/// skipped where all of it is there, and left alone where the input ends
/// before it does.
pub open spec fn spec_parse_next_data_element(s: Seq<u8>, le: bool, depth: nat) -> Parsed<
    DataElementView,
>
    decreases depth, 1nat,
{
    match spec_parse_data_element_tag(s, le) {
        Err(e) => Err(e),
        Ok((rest, tag)) => if rest.len() < tag.data_byte_size {
            Err(ParseError::Framing)
        } else {
            let payload = rest.take(tag.data_byte_size as int);
            let after = rest.skip(tag.data_byte_size as int);
            match tag.data_type {
                DataType::Matrix => match spec_parse_matrix_data_element(payload, le) {
                    Err(e) => Err(e),
                    Ok(element) => Ok((spec_skip_padding(after, tag.padding_byte_size), element)),
                },
                DataType::Compressed => match spec_parse_compressed_data_element(
                    payload,
                    le,
                    depth,
                ) {
                    Err(e) => Err(e),
                    Ok(element) => Ok((after, element)),
                },
                _ => Ok(
                    (
                        spec_skip_padding(after, tag.padding_byte_size),
                        DataElementView::Unsupported,
                    ),
                ),
            }
        },
    }
}

/// A compressed payload: a zlib stream that inflates to one element, which
/// may be followed by bytes that are ignored. Compressed elements nest at
/// most `depth` deep.
pub open spec fn spec_parse_compressed_data_element(s: Seq<u8>, le: bool, depth: nat) -> Decoded
    decreases depth, 0nat,
{
    if depth == 0 {
        Err(ParseError::Framing)
    } else {
        match zlib_inflated(s) {
            None => Err(ParseError::Framing),
            Some(inflated) => match spec_parse_next_data_element(
                inflated,
                le,
                (depth - 1) as nat,
            ) {
                Ok((after, element)) => Ok(element),
                Err(e) => Err(e),
            },
        }
    }
}

/// The first element of an inflated payload.
pub open spec fn spec_parse_inflated_data_element(s: Seq<u8>, le: bool, depth: nat) -> Decoded {
    match spec_parse_next_data_element(s, le, depth) {
        Ok((after, element)) => Ok(element),
        Err(e) => Err(e),
    }
}

/// `s` without its first `padding` bytes where it has that many, else `s`.
pub open spec fn spec_skip_padding(s: Seq<u8>, padding: u32) -> Seq<u8> {
    if s.len() >= padding {
        s.skip(padding as int)
    } else {
        s
    }
}

/// Reads one element from the start of `i`. Compressed elements may nest
/// `depth` deep.
pub fn parse_next_data_element(i: &[u8], le: bool, depth: usize) -> (r: Result<
    (&[u8], DataElement),
    ParseError,
>)
    ensures
        agrees_view(r, spec_parse_next_data_element(i@, le, depth as nat)),
        r matches Ok((rest, element)) ==> rest@.len() < i@.len() && element@.well_formed(),
    decreases depth, 1nat,
{
    proof {
        reveal(spec_parse_data_element_tag);
    }
    let (rest, tag) = match parse_data_element_tag(i, le) {
        Ok(found) => found,
        Err(e) => {
            return Err(e);
        },
    };
    let (after, payload) = match take(rest, tag.data_byte_size as usize) {
        Ok(found) => found,
        Err(e) => {
            return Err(e);
        },
    };
    let data_element = match tag.data_type {
        DataType::Matrix => parse_matrix_data_element(payload, le),
        DataType::Compressed => parse_compressed_data_element(payload, le, depth),
        _ => parse_unsupported_data_element(payload),
    };
    let data_element = match data_element {
        Ok(element) => element,
        Err(e) => {
            return Err(e);
        },
    };
    let num_padding_bytes: usize = if tag.data_type == DataType::Compressed {
        0
    } else {
        tag.padding_byte_size as usize
    };
    assert(after@.skip(0) =~= after@);
    match take(after, num_padding_bytes) {
        Ok((left, _)) => Ok((left, data_element)),
        Err(_) => Ok((after, data_element)),
    }
}

/// Inflates a compressed payload and reads the element in it.
pub fn parse_compressed_data_element(i: &[u8], le: bool, depth: usize) -> (r: Result<
    DataElement,
    ParseError,
>)
    ensures
        agrees_element(r, spec_parse_compressed_data_element(i@, le, depth as nat)),
        r matches Ok(element) ==> element@.well_formed(),
    decreases depth, 0nat,
{
    if depth == 0 {
        return Err(ParseError::Framing);
    }
    match zlib_inflate(i) {
        Some(buf) => parse_inflated_data_element(buf.as_slice(), le, depth - 1),
        None => Err(ParseError::Framing),
    }
}

/// Reads the first element of an inflated payload; what follows it is
/// ignored.
pub fn parse_inflated_data_element(i: &[u8], le: bool, depth: usize) -> (r: Result<
    DataElement,
    ParseError,
>)
    ensures
        agrees_element(r, spec_parse_inflated_data_element(i@, le, depth as nat)),
        r matches Ok(element) ==> element@.well_formed(),
    decreases depth, 2nat,
{
    match parse_next_data_element(i, le, depth) {
        Ok((_, element)) => Ok(element),
        Err(e) => Err(e),
    }
}

/// The elements that fill `s` to its end, in their order. Every element
/// leaves less than it found, so the last test in the definition always
/// holds; it is there to show that the definition ends.
pub open spec fn spec_parse_elements(s: Seq<u8>, le: bool) -> Result<
    Seq<DataElementView>,
    ParseError,
>
    decreases s.len(),
{
    if s.len() == 0 {
        Ok(Seq::empty())
    } else {
        match spec_parse_next_data_element(s, le, MAX_NESTING as nat) {
            Err(e) => Err(e),
            Ok((rest, element)) => if rest.len() < s.len() {
                match spec_parse_elements(rest, le) {
                    Err(e) => Err(e),
                    Ok(others) => Ok(seq![element] + others),
                }
            } else {
                Err(ParseError::Framing)
            },
        }
    }
}

/// A header and the elements that follow it.
#[derive(Debug)]
pub struct ParseResult {
    pub header: Header,
    pub data_elements: Vec<DataElement>,
}

/// A `ParseResult` in contracts.
pub struct ParseResultView {
    pub header: HeaderView,
    pub data_elements: Seq<DataElementView>,
}

/// The views of `elements`, in their order.
pub open spec fn spec_element_views(elements: Seq<DataElement>) -> Seq<DataElementView> {
    elements.map_values(|e: DataElement| e@)
}

impl View for ParseResult {
    type V = ParseResultView;

    open spec fn view(&self) -> ParseResultView {
        ParseResultView {
            header: self.header@,
            data_elements: spec_element_views(self.data_elements@),
        }
    }
}

/// A whole file: the header, then elements to the end of the input.
pub open spec fn spec_parse_all(s: Seq<u8>) -> Parsed<ParseResultView> {
    match spec_parse_header(s) {
        Err(e) => Err(e),
        Ok((rest, header)) => match spec_parse_elements(rest, header.is_little_endian) {
            Err(e) => Err(e),
            Ok(data_elements) => Ok((Seq::empty(), ParseResultView { header, data_elements })),
        },
    }
}

/// `list` in front of what `tail` yields.
pub open spec fn spec_prepend(list: Seq<DataElementView>, tail: Result<
    Seq<DataElementView>,
    ParseError,
>) -> Result<Seq<DataElementView>, ParseError> {
    match tail {
        Ok(others) => Ok(list + others),
        Err(e) => Err(e),
    }
}

/// Reads a whole file. Nothing is handed out unless every element to the
/// end of the input was read.
pub fn parse_all(i: &[u8]) -> (r: Result<(&[u8], ParseResult), ParseError>)
    ensures
        agrees_view(r, spec_parse_all(i@)),
        r matches Ok((rest, result)) ==> forall|k: int|
            0 <= k < result@.data_elements.len() ==> (
            #[trigger] result@.data_elements[k]).well_formed(),
{
    let (start, header) = match parse_header(i) {
        Ok(found) => found,
        Err(e) => {
            return Err(e);
        },
    };
    let le: bool = header.is_little_endian;
    let mut data_elements: Vec<DataElement> = Vec::new();
    let mut rest: &[u8] = start;
    proof {
        match spec_parse_elements(start@, le) {
            Ok(others) => {
                assert(spec_element_views(data_elements@) + others =~= others);
            },
            Err(_) => {},
        }
    }
    while rest.len() > 0
        invariant
            spec_parse_header(i@) == Ok::<(Seq<u8>, HeaderView), ParseError>((start@, header@)),
            le == header.is_little_endian,
            spec_parse_elements(start@, le) == spec_prepend(
                spec_element_views(data_elements@),
                spec_parse_elements(rest@, le),
            ),
            forall|k: int|
                0 <= k < data_elements@.len() ==> (#[trigger] data_elements@[k])@.well_formed(),
        decreases rest@.len(),
    {
        match parse_next_data_element(rest, le, MAX_NESTING) {
            Ok((left, element)) => {
                proof {
                    let before = spec_element_views(data_elements@);
                    let after = spec_element_views(data_elements@.push(element));
                    assert(after =~= before + seq![element@]);
                    match spec_parse_elements(left@, le) {
                        Ok(others) => {
                            assert(before + (seq![element@] + others) =~= after + others);
                        },
                        Err(_) => {},
                    }
                }
                data_elements.push(element);
                rest = left;
            },
            Err(e) => {
                return Err(e);
            },
        }
    }
    proof {
        assert(spec_element_views(data_elements@) + Seq::<DataElementView>::empty()
            =~= spec_element_views(data_elements@));
        assert(rest@ =~= Seq::<u8>::empty());
    }
    Ok((rest, ParseResult { header, data_elements }))
}

} // verus!
