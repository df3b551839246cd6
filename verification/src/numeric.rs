//! The ten kinds of numeric vector that a payload can hold.

use vstd::prelude::*;
use crate::parse::DataType;
use crate::wire::{read_word, spec_signed, spec_word};

verus! {

/// A vector of one of the ten numeric kinds, as it was read from a payload.
///
/// `Single` and `Double` hold the IEEE 754 bit patterns of their samples.
#[derive(Clone, Debug, PartialEq)]
pub enum NumericData {
    Int8(Vec<i8>),
    UInt8(Vec<u8>),
    Int16(Vec<i16>),
    UInt16(Vec<u16>),
    Int32(Vec<i32>),
    UInt32(Vec<u32>),
    Int64(Vec<i64>),
    UInt64(Vec<u64>),
    Single(Vec<u32>),
    Double(Vec<u64>),
}

/// A numeric vector in contracts: its kind, and its elements as integers
/// (for the two floating point kinds, the bit patterns).
pub struct NumericSeq {
    pub kind: DataType,
    pub values: Seq<int>,
}

impl View for NumericData {
    type V = NumericSeq;

    open spec fn view(&self) -> NumericSeq {
        match self {
            NumericData::Int8(v) => NumericSeq {
                kind: DataType::Int8,
                values: v@.map_values(|x: i8| x as int),
            },
            NumericData::UInt8(v) => NumericSeq {
                kind: DataType::UInt8,
                values: v@.map_values(|x: u8| x as int),
            },
            NumericData::Int16(v) => NumericSeq {
                kind: DataType::Int16,
                values: v@.map_values(|x: i16| x as int),
            },
            NumericData::UInt16(v) => NumericSeq {
                kind: DataType::UInt16,
                values: v@.map_values(|x: u16| x as int),
            },
            NumericData::Int32(v) => NumericSeq {
                kind: DataType::Int32,
                values: v@.map_values(|x: i32| x as int),
            },
            NumericData::UInt32(v) => NumericSeq {
                kind: DataType::UInt32,
                values: v@.map_values(|x: u32| x as int),
            },
            NumericData::Int64(v) => NumericSeq {
                kind: DataType::Int64,
                values: v@.map_values(|x: i64| x as int),
            },
            NumericData::UInt64(v) => NumericSeq {
                kind: DataType::UInt64,
                values: v@.map_values(|x: u64| x as int),
            },
            NumericData::Single(v) => NumericSeq {
                kind: DataType::Single,
                values: v@.map_values(|x: u32| x as int),
            },
            NumericData::Double(v) => NumericSeq {
                kind: DataType::Double,
                values: v@.map_values(|x: u64| x as int),
            },
        }
    }
}

impl NumericData {
    /// The number of elements.
    pub fn len(&self) -> (r: usize)
        ensures
            r == self@.values.len(),
    {
        match self {
            NumericData::Int8(vec) => vec.len(),
            NumericData::UInt8(vec) => vec.len(),
            NumericData::Int16(vec) => vec.len(),
            NumericData::UInt16(vec) => vec.len(),
            NumericData::Int32(vec) => vec.len(),
            NumericData::UInt32(vec) => vec.len(),
            NumericData::Int64(vec) => vec.len(),
            NumericData::UInt64(vec) => vec.len(),
            NumericData::Single(vec) => vec.len(),
            NumericData::Double(vec) => vec.len(),
        }
    }

    /// The kind of the elements.
    pub fn data_type(&self) -> (r: DataType)
        ensures
            r == self@.kind,
    {
        match self {
            NumericData::Int8(_) => DataType::Int8,
            NumericData::UInt8(_) => DataType::UInt8,
            NumericData::Int16(_) => DataType::Int16,
            NumericData::UInt16(_) => DataType::UInt16,
            NumericData::Int32(_) => DataType::Int32,
            NumericData::UInt32(_) => DataType::UInt32,
            NumericData::Int64(_) => DataType::Int64,
            NumericData::UInt64(_) => DataType::UInt64,
            NumericData::Single(_) => DataType::Single,
            NumericData::Double(_) => DataType::Double,
        }
    }
}

/// The element of kind `kind` that starts `s`, as an integer.
pub open spec fn spec_element(kind: DataType, s: Seq<u8>, le: bool) -> int {
    let word = spec_word(s, kind.spec_width(), le);
    if kind.spec_is_signed() {
        spec_signed(word, 8 * kind.spec_width())
    } else {
        word
    }
}

/// The first `count` elements of kind `kind` in `s`.
pub open spec fn spec_elements(kind: DataType, s: Seq<u8>, count: int, le: bool) -> Seq<int> {
    Seq::new(count as nat, |k: int| spec_element(kind, s.skip(k * kind.spec_width()), le))
}

/// The 8-bit word `word` read as two's complement.
pub fn signed8(word: u64) -> (r: i8)
    requires
        word < 0x100,
    ensures
        r as int == spec_signed(word as int, 8),
{
    if word >= 0x80 {
        let low: i8 = (word - 0x80) as i8;
        low + i8::MIN
    } else {
        word as i8
    }
}

/// The 16-bit word `word` read as two's complement.
pub fn signed16(word: u64) -> (r: i16)
    requires
        word < 0x1_0000,
    ensures
        r as int == spec_signed(word as int, 16),
{
    if word >= 0x8000 {
        let low: i16 = (word - 0x8000) as i16;
        low + i16::MIN
    } else {
        word as i16
    }
}

/// The 32-bit word `word` read as two's complement.
pub fn signed32(word: u64) -> (r: i32)
    requires
        word < 0x1_0000_0000,
    ensures
        r as int == spec_signed(word as int, 32),
{
    if word >= 0x8000_0000 {
        let low: i32 = (word - 0x8000_0000) as i32;
        low + i32::MIN
    } else {
        word as i32
    }
}

/// The 64-bit word `word` read as two's complement.
pub fn signed64(word: u64) -> (r: i64)
    ensures
        r as int == spec_signed(word as int, 64),
{
    if word >= 0x8000_0000_0000_0000 {
        let low: i64 = (word - 0x8000_0000_0000_0000) as i64;
        low + i64::MIN
    } else {
        word as i64
    }
}

/// Reads `count` elements of kind `Int8` from the start of `i`.
pub fn decode_int8(i: &[u8], count: usize, le: bool) -> (r: Vec<i8>)
    requires
        count * 1 <= i@.len(),
    ensures
        r@.len() == count,
        r@.map_values(|x: i8| x as int) == spec_elements(DataType::Int8, i@, count as int, le),
{
    let mut out: Vec<i8> = Vec::new();
    let mut k: usize = 0;
    let len: usize = i.len();
    while k < count
        invariant
            k <= count,
            len == i@.len(),
            count * 1 <= i@.len(),
            out@.len() == k,
            forall|j: int|
                0 <= j < k ==> out@[j] as int == #[trigger] spec_element(
                    DataType::Int8,
                    i@.skip(j * 1),
                    le,
                ),
        decreases count - k,
    {
        let word: u64 = read_word(i, k * 1, 1, le);
        out.push(signed8(word));
        k += 1;
    }
    assert(out@.map_values(|x: i8| x as int) =~= spec_elements(
        DataType::Int8,
        i@,
        count as int,
        le,
    ));
    out
}

/// Reads `count` elements of kind `UInt8` from the start of `i`.
pub fn decode_uint8(i: &[u8], count: usize, le: bool) -> (r: Vec<u8>)
    requires
        count * 1 <= i@.len(),
    ensures
        r@.len() == count,
        r@.map_values(|x: u8| x as int) == spec_elements(DataType::UInt8, i@, count as int, le),
{
    let mut out: Vec<u8> = Vec::new();
    let mut k: usize = 0;
    let len: usize = i.len();
    while k < count
        invariant
            k <= count,
            len == i@.len(),
            count * 1 <= i@.len(),
            out@.len() == k,
            forall|j: int|
                0 <= j < k ==> out@[j] as int == #[trigger] spec_element(
                    DataType::UInt8,
                    i@.skip(j * 1),
                    le,
                ),
        decreases count - k,
    {
        let word: u64 = read_word(i, k * 1, 1, le);
        out.push(word as u8);
        k += 1;
    }
    assert(out@.map_values(|x: u8| x as int) =~= spec_elements(
        DataType::UInt8,
        i@,
        count as int,
        le,
    ));
    out
}

/// Reads `count` elements of kind `Int16` from the start of `i`.
pub fn decode_int16(i: &[u8], count: usize, le: bool) -> (r: Vec<i16>)
    requires
        count * 2 <= i@.len(),
    ensures
        r@.len() == count,
        r@.map_values(|x: i16| x as int) == spec_elements(DataType::Int16, i@, count as int, le),
{
    let mut out: Vec<i16> = Vec::new();
    let mut k: usize = 0;
    let len: usize = i.len();
    while k < count
        invariant
            k <= count,
            len == i@.len(),
            count * 2 <= i@.len(),
            out@.len() == k,
            forall|j: int|
                0 <= j < k ==> out@[j] as int == #[trigger] spec_element(
                    DataType::Int16,
                    i@.skip(j * 2),
                    le,
                ),
        decreases count - k,
    {
        let word: u64 = read_word(i, k * 2, 2, le);
        out.push(signed16(word));
        k += 1;
    }
    assert(out@.map_values(|x: i16| x as int) =~= spec_elements(
        DataType::Int16,
        i@,
        count as int,
        le,
    ));
    out
}

/// Reads `count` elements of kind `UInt16` from the start of `i`.
pub fn decode_uint16(i: &[u8], count: usize, le: bool) -> (r: Vec<u16>)
    requires
        count * 2 <= i@.len(),
    ensures
        r@.len() == count,
        r@.map_values(|x: u16| x as int) == spec_elements(DataType::UInt16, i@, count as int, le),
{
    let mut out: Vec<u16> = Vec::new();
    let mut k: usize = 0;
    let len: usize = i.len();
    while k < count
        invariant
            k <= count,
            len == i@.len(),
            count * 2 <= i@.len(),
            out@.len() == k,
            forall|j: int|
                0 <= j < k ==> out@[j] as int == #[trigger] spec_element(
                    DataType::UInt16,
                    i@.skip(j * 2),
                    le,
                ),
        decreases count - k,
    {
        let word: u64 = read_word(i, k * 2, 2, le);
        out.push(word as u16);
        k += 1;
    }
    assert(out@.map_values(|x: u16| x as int) =~= spec_elements(
        DataType::UInt16,
        i@,
        count as int,
        le,
    ));
    out
}

/// Reads `count` elements of kind `Int32` from the start of `i`.
pub fn decode_int32(i: &[u8], count: usize, le: bool) -> (r: Vec<i32>)
    requires
        count * 4 <= i@.len(),
    ensures
        r@.len() == count,
        r@.map_values(|x: i32| x as int) == spec_elements(DataType::Int32, i@, count as int, le),
{
    let mut out: Vec<i32> = Vec::new();
    let mut k: usize = 0;
    let len: usize = i.len();
    while k < count
        invariant
            k <= count,
            len == i@.len(),
            count * 4 <= i@.len(),
            out@.len() == k,
            forall|j: int|
                0 <= j < k ==> out@[j] as int == #[trigger] spec_element(
                    DataType::Int32,
                    i@.skip(j * 4),
                    le,
                ),
        decreases count - k,
    {
        let word: u64 = read_word(i, k * 4, 4, le);
        out.push(signed32(word));
        k += 1;
    }
    assert(out@.map_values(|x: i32| x as int) =~= spec_elements(
        DataType::Int32,
        i@,
        count as int,
        le,
    ));
    out
}

/// Reads `count` elements of kind `UInt32` from the start of `i`.
pub fn decode_uint32(i: &[u8], count: usize, le: bool) -> (r: Vec<u32>)
    requires
        count * 4 <= i@.len(),
    ensures
        r@.len() == count,
        r@.map_values(|x: u32| x as int) == spec_elements(DataType::UInt32, i@, count as int, le),
{
    let mut out: Vec<u32> = Vec::new();
    let mut k: usize = 0;
    let len: usize = i.len();
    while k < count
        invariant
            k <= count,
            len == i@.len(),
            count * 4 <= i@.len(),
            out@.len() == k,
            forall|j: int|
                0 <= j < k ==> out@[j] as int == #[trigger] spec_element(
                    DataType::UInt32,
                    i@.skip(j * 4),
                    le,
                ),
        decreases count - k,
    {
        let word: u64 = read_word(i, k * 4, 4, le);
        out.push(word as u32);
        k += 1;
    }
    assert(out@.map_values(|x: u32| x as int) =~= spec_elements(
        DataType::UInt32,
        i@,
        count as int,
        le,
    ));
    out
}

/// Reads `count` elements of kind `Int64` from the start of `i`.
pub fn decode_int64(i: &[u8], count: usize, le: bool) -> (r: Vec<i64>)
    requires
        count * 8 <= i@.len(),
    ensures
        r@.len() == count,
        r@.map_values(|x: i64| x as int) == spec_elements(DataType::Int64, i@, count as int, le),
{
    let mut out: Vec<i64> = Vec::new();
    let mut k: usize = 0;
    let len: usize = i.len();
    while k < count
        invariant
            k <= count,
            len == i@.len(),
            count * 8 <= i@.len(),
            out@.len() == k,
            forall|j: int|
                0 <= j < k ==> out@[j] as int == #[trigger] spec_element(
                    DataType::Int64,
                    i@.skip(j * 8),
                    le,
                ),
        decreases count - k,
    {
        let word: u64 = read_word(i, k * 8, 8, le);
        out.push(signed64(word));
        k += 1;
    }
    assert(out@.map_values(|x: i64| x as int) =~= spec_elements(
        DataType::Int64,
        i@,
        count as int,
        le,
    ));
    out
}

/// Reads `count` elements of kind `UInt64` from the start of `i`.
pub fn decode_uint64(i: &[u8], count: usize, le: bool) -> (r: Vec<u64>)
    requires
        count * 8 <= i@.len(),
    ensures
        r@.len() == count,
        r@.map_values(|x: u64| x as int) == spec_elements(DataType::UInt64, i@, count as int, le),
{
    let mut out: Vec<u64> = Vec::new();
    let mut k: usize = 0;
    let len: usize = i.len();
    while k < count
        invariant
            k <= count,
            len == i@.len(),
            count * 8 <= i@.len(),
            out@.len() == k,
            forall|j: int|
                0 <= j < k ==> out@[j] as int == #[trigger] spec_element(
                    DataType::UInt64,
                    i@.skip(j * 8),
                    le,
                ),
        decreases count - k,
    {
        let word: u64 = read_word(i, k * 8, 8, le);
        out.push(word);
        k += 1;
    }
    assert(out@.map_values(|x: u64| x as int) =~= spec_elements(
        DataType::UInt64,
        i@,
        count as int,
        le,
    ));
    out
}

/// Reads `count` elements of kind `Single` from the start of `i`.
pub fn decode_single(i: &[u8], count: usize, le: bool) -> (r: Vec<u32>)
    requires
        count * 4 <= i@.len(),
    ensures
        r@.len() == count,
        r@.map_values(|x: u32| x as int) == spec_elements(DataType::Single, i@, count as int, le),
{
    let mut out: Vec<u32> = Vec::new();
    let mut k: usize = 0;
    let len: usize = i.len();
    while k < count
        invariant
            k <= count,
            len == i@.len(),
            count * 4 <= i@.len(),
            out@.len() == k,
            forall|j: int|
                0 <= j < k ==> out@[j] as int == #[trigger] spec_element(
                    DataType::Single,
                    i@.skip(j * 4),
                    le,
                ),
        decreases count - k,
    {
        let word: u64 = read_word(i, k * 4, 4, le);
        out.push(word as u32);
        k += 1;
    }
    assert(out@.map_values(|x: u32| x as int) =~= spec_elements(
        DataType::Single,
        i@,
        count as int,
        le,
    ));
    out
}

/// Reads `count` elements of kind `Double` from the start of `i`.
pub fn decode_double(i: &[u8], count: usize, le: bool) -> (r: Vec<u64>)
    requires
        count * 8 <= i@.len(),
    ensures
        r@.len() == count,
        r@.map_values(|x: u64| x as int) == spec_elements(DataType::Double, i@, count as int, le),
{
    let mut out: Vec<u64> = Vec::new();
    let mut k: usize = 0;
    let len: usize = i.len();
    while k < count
        invariant
            k <= count,
            len == i@.len(),
            count * 8 <= i@.len(),
            out@.len() == k,
            forall|j: int|
                0 <= j < k ==> out@[j] as int == #[trigger] spec_element(
                    DataType::Double,
                    i@.skip(j * 8),
                    le,
                ),
        decreases count - k,
    {
        let word: u64 = read_word(i, k * 8, 8, le);
        out.push(word);
        k += 1;
    }
    assert(out@.map_values(|x: u64| x as int) =~= spec_elements(
        DataType::Double,
        i@,
        count as int,
        le,
    ));
    out
}

/// Reads `count` elements of the numeric kind `kind` from the start of `i`.
pub fn decode_elements(kind: DataType, i: &[u8], count: usize, le: bool) -> (r: NumericData)
    requires
        kind.spec_width() > 0,
        count * kind.spec_width() <= i@.len(),
    ensures
        r@.kind == kind,
        r@.values == spec_elements(kind, i@, count as int, le),
{
    match kind {
        DataType::Int8 => NumericData::Int8(decode_int8(i, count, le)),
        DataType::UInt8 => NumericData::UInt8(decode_uint8(i, count, le)),
        DataType::Int16 => NumericData::Int16(decode_int16(i, count, le)),
        DataType::UInt16 => NumericData::UInt16(decode_uint16(i, count, le)),
        DataType::Int32 => NumericData::Int32(decode_int32(i, count, le)),
        DataType::UInt32 => NumericData::UInt32(decode_uint32(i, count, le)),
        DataType::Int64 => NumericData::Int64(decode_int64(i, count, le)),
        DataType::UInt64 => NumericData::UInt64(decode_uint64(i, count, le)),
        DataType::Single => NumericData::Single(decode_single(i, count, le)),
        DataType::Double => NumericData::Double(decode_double(i, count, le)),
        _ => NumericData::UInt8(Vec::new()),
    }
}

} // verus!
