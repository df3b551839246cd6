//! Reader for MATLAB ".mat" files (level 5 container format).
//!
//! The crate turns a byte sequence into an ordered collection of named
//! numeric arrays. Data is stored in column-major order: the index of the
//! first dimension varies fastest. Floating point samples are carried as
//! their IEEE 754 bit patterns (`u32` for single, `u64` for double
//! precision), so that every value in the crate is an integer.

pub mod ieee;
pub mod inflate;
pub mod kinds;
pub mod laws;
pub mod mirror;
pub mod numeric;
pub mod parse;
pub mod sparse;
pub mod text;
pub mod widen;
pub mod wire;

use vstd::prelude::*;
use crate::numeric::NumericSeq;
use crate::parse::{
    numeric_data_types_are_compatible, parse_all, spec_optional, spec_parse_all,
    spec_types_are_compatible, ArrayType, DataElement, DataElementView, DataType, ParseError,
};
use crate::sparse::{indices_from_i32, spec_index};
use crate::widen::{
    double_from_integers, integers_from_i16, integers_from_u16, integers_from_u8,
    signed16_from_integers, signed64_from_integers, single_from_integers, spec_widened,
    unsigned16_from_integers, unsigned32_from_integers, unsigned64_from_integers,
};

verus! {

/// Why a file could not be read.
#[derive(Clone, Copy, Debug, PartialEq, Eq, Structural)]
pub enum Error {
    /// The bytes are not a well-formed file.
    ParseError(ParseError),
    /// A payload's kind cannot be promoted to the class of its array.
    ConversionError,
    /// The real and the imaginary part of an array came out in different
    /// kinds. No input leads here.
    InternalError,
}

impl Error {
    /// A sentence that describes the error.
    pub fn message(&self) -> (r: String)
        ensures
            r@ == match *self {
                Error::ParseError(_) => "An error occurred while parsing the file"@,
                Error::ConversionError => "An error occurred while converting number formats"@,
                Error::InternalError => "An internal error occurred, this is a bug"@,
            },
    {
        match self {
            Error::ParseError(_) => "An error occurred while parsing the file".to_owned(),
            Error::ConversionError => "An error occurred while converting number formats".to_owned(),
            Error::InternalError => "An internal error occurred, this is a bug".to_owned(),
        }
    }
}

/// The data of a numeric array, in the kind that the array's class names.
/// Real and imaginary parts are separate vectors, the imaginary part being
/// optional, and both are in column-major order.
///
/// `Single` and `Double` hold the IEEE 754 bit patterns of their samples.
#[allow(inconsistent_fields)]
#[derive(Clone, Debug, PartialEq)]
pub enum NumericData {
    Int8 { real: Vec<i8>, imag: Option<Vec<i8>> },
    UInt8 { real: Vec<u8>, imag: Option<Vec<u8>> },
    Int16 { real: Vec<i16>, imag: Option<Vec<i16>> },
    UInt16 { real: Vec<u16>, imag: Option<Vec<u16>> },
    Int32 { real: Vec<i32>, imag: Option<Vec<i32>> },
    UInt32 { real: Vec<u32>, imag: Option<Vec<u32>> },
    Int64 { real: Vec<i64>, imag: Option<Vec<i64>> },
    UInt64 { real: Vec<u64>, imag: Option<Vec<u64>> },
    Single { real: Vec<u32>, imag: Option<Vec<u32>> },
    Double { real: Vec<u64>, imag: Option<Vec<u64>> },
}

/// A `NumericData` in contracts: the kind, and the elements of each part as
/// integers.
pub struct ArrayDataView {
    pub kind: DataType,
    pub real_part: Seq<int>,
    pub imag_part: Option<Seq<int>>,
}

impl View for NumericData {
    type V = ArrayDataView;

    open spec fn view(&self) -> ArrayDataView {
        match self {
            NumericData::Int8 { real: re, imag: im } => ArrayDataView {
                kind: DataType::Int8,
                real_part: re@.map_values(|x: i8| x as int),
                imag_part: match im {
                    Some(part) => Some(part@.map_values(|x: i8| x as int)),
                    None => None,
                },
            },
            NumericData::UInt8 { real: re, imag: im } => ArrayDataView {
                kind: DataType::UInt8,
                real_part: re@.map_values(|x: u8| x as int),
                imag_part: match im {
                    Some(part) => Some(part@.map_values(|x: u8| x as int)),
                    None => None,
                },
            },
            NumericData::Int16 { real: re, imag: im } => ArrayDataView {
                kind: DataType::Int16,
                real_part: re@.map_values(|x: i16| x as int),
                imag_part: match im {
                    Some(part) => Some(part@.map_values(|x: i16| x as int)),
                    None => None,
                },
            },
            NumericData::UInt16 { real: re, imag: im } => ArrayDataView {
                kind: DataType::UInt16,
                real_part: re@.map_values(|x: u16| x as int),
                imag_part: match im {
                    Some(part) => Some(part@.map_values(|x: u16| x as int)),
                    None => None,
                },
            },
            NumericData::Int32 { real: re, imag: im } => ArrayDataView {
                kind: DataType::Int32,
                real_part: re@.map_values(|x: i32| x as int),
                imag_part: match im {
                    Some(part) => Some(part@.map_values(|x: i32| x as int)),
                    None => None,
                },
            },
            NumericData::UInt32 { real: re, imag: im } => ArrayDataView {
                kind: DataType::UInt32,
                real_part: re@.map_values(|x: u32| x as int),
                imag_part: match im {
                    Some(part) => Some(part@.map_values(|x: u32| x as int)),
                    None => None,
                },
            },
            NumericData::Int64 { real: re, imag: im } => ArrayDataView {
                kind: DataType::Int64,
                real_part: re@.map_values(|x: i64| x as int),
                imag_part: match im {
                    Some(part) => Some(part@.map_values(|x: i64| x as int)),
                    None => None,
                },
            },
            NumericData::UInt64 { real: re, imag: im } => ArrayDataView {
                kind: DataType::UInt64,
                real_part: re@.map_values(|x: u64| x as int),
                imag_part: match im {
                    Some(part) => Some(part@.map_values(|x: u64| x as int)),
                    None => None,
                },
            },
            NumericData::Single { real: re, imag: im } => ArrayDataView {
                kind: DataType::Single,
                real_part: re@.map_values(|x: u32| x as int),
                imag_part: match im {
                    Some(part) => Some(part@.map_values(|x: u32| x as int)),
                    None => None,
                },
            },
            NumericData::Double { real: re, imag: im } => ArrayDataView {
                kind: DataType::Double,
                real_part: re@.map_values(|x: u64| x as int),
                imag_part: match im {
                    Some(part) => Some(part@.map_values(|x: u64| x as int)),
                    None => None,
                },
            },
        }
    }
}

/// A payload promoted to the kind of an array of class `target`.
///
/// A payload that is of that kind already stays as it is. A payload of a
/// kind that the kind of the class admits has each element promoted. Any
/// other pairing, and any class that is not numeric, is a conversion error.
pub open spec fn spec_convert_number_format(target: ArrayType, data: NumericSeq) -> Result<
    NumericSeq,
    Error,
> {
    match target.spec_storage_type() {
        None => Err(Error::ConversionError),
        Some(kind) => if data.kind == kind {
            Ok(data)
        } else if spec_types_are_compatible(kind, data.kind) {
            Ok(NumericSeq { kind, values: data.values.map_values(|x: int| spec_widened(kind, x)) })
        } else {
            Err(Error::ConversionError)
        },
    }
}

/// Promotes a payload to the kind of an array of class `target_type`.
pub fn try_convert_number_format(target_type: ArrayType, data: parse::NumericData) -> (r: Result<
    parse::NumericData,
    Error,
>)
    ensures
        match r {
            Ok(converted) => spec_convert_number_format(target_type, data@) == Ok::<
                NumericSeq,
                Error,
            >(converted@),
            Err(e) => spec_convert_number_format(target_type, data@) == Err::<NumericSeq, Error>(e),
        },
        r matches Err(e) ==> e == Error::ConversionError,
{
    let kind = match target_type.storage_type() {
        Some(kind) => kind,
        None => {
            return Err(Error::ConversionError);
        },
    };
    let source = data.data_type();
    if source == kind {
        return Ok(data);
    }
    if !numeric_data_types_are_compatible(kind, source) {
        return Err(Error::ConversionError);
    }
    let ghost before = data@.values;
    let values: Vec<i32> = match data {
        parse::NumericData::UInt8(v) => integers_from_u8(&v),
        parse::NumericData::Int16(v) => integers_from_i16(&v),
        parse::NumericData::UInt16(v) => integers_from_u16(&v),
        parse::NumericData::Int32(v) => v,
        _ => {
            return Err(Error::ConversionError);
        },
    };
    assert(values@.len() == before.len());
    assert(forall|j: int| 0 <= j < values@.len() ==> values@[j] as int == before[j]);
    let converted = match kind {
        DataType::Double => parse::NumericData::Double(double_from_integers(&values)),
        DataType::Single => parse::NumericData::Single(single_from_integers(&values)),
        DataType::UInt64 => parse::NumericData::UInt64(unsigned64_from_integers(&values)),
        DataType::Int64 => parse::NumericData::Int64(signed64_from_integers(&values)),
        DataType::UInt32 => parse::NumericData::UInt32(unsigned32_from_integers(&values)),
        DataType::Int32 => parse::NumericData::Int32(values),
        DataType::UInt16 => parse::NumericData::UInt16(unsigned16_from_integers(&values)),
        DataType::Int16 => parse::NumericData::Int16(signed16_from_integers(&values)),
        _ => {
            return Err(Error::ConversionError);
        },
    };
    assert(converted@.values =~= before.map_values(|x: int| spec_widened(kind, x)));
    Ok(converted)
}

/// The data of an array of class `target` with the payloads `real_part`
/// and `imag_part`: each payload promoted to the kind of the class.
pub open spec fn spec_numeric_data(
    target: ArrayType,
    real_part: NumericSeq,
    imag_part: Option<NumericSeq>,
) -> Result<ArrayDataView, Error> {
    match spec_convert_number_format(target, real_part) {
        Err(e) => Err(e),
        Ok(re) => match imag_part {
            None => Ok(ArrayDataView { kind: re.kind, real_part: re.values, imag_part: None }),
            Some(part) => match spec_convert_number_format(target, part) {
                Err(e) => Err(e),
                Ok(im) => Ok(
                    ArrayDataView {
                        kind: re.kind,
                        real_part: re.values,
                        imag_part: Some(im.values),
                    },
                ),
            },
        },
    }
}

impl NumericData {
    /// Promotes the payloads of an array to the kind of its class and puts
    /// them together. `Error::InternalError` is never returned.
    pub fn try_from(
        target_type: ArrayType,
        real_part: parse::NumericData,
        imag_part: Option<parse::NumericData>,
    ) -> (r: Result<NumericData, Error>)
        ensures
            match r {
                Ok(data) => spec_numeric_data(target_type, real_part@, spec_optional(imag_part))
                    == Ok::<ArrayDataView, Error>(data@),
                Err(e) => spec_numeric_data(target_type, real_part@, spec_optional(imag_part))
                    == Err::<ArrayDataView, Error>(e),
            },
            r matches Err(e) ==> e == Error::ConversionError,
    {
        let re = match try_convert_number_format(target_type, real_part) {
            Ok(converted) => converted,
            Err(e) => {
                return Err(e);
            },
        };
        let im = match imag_part {
            Some(part) => match try_convert_number_format(target_type, part) {
                Ok(converted) => Some(converted),
                Err(e) => {
                    return Err(e);
                },
            },
            None => None,
        };
        match (re, im) {
            (parse::NumericData::Double(re), None) => Ok(NumericData::Double { real: re, imag: None }),
            (parse::NumericData::Double(re), Some(parse::NumericData::Double(im))) => Ok(
                NumericData::Double { real: re, imag: Some(im) },
            ),
            (parse::NumericData::Single(re), None) => Ok(NumericData::Single { real: re, imag: None }),
            (parse::NumericData::Single(re), Some(parse::NumericData::Single(im))) => Ok(
                NumericData::Single { real: re, imag: Some(im) },
            ),
            (parse::NumericData::UInt64(re), None) => Ok(NumericData::UInt64 { real: re, imag: None }),
            (parse::NumericData::UInt64(re), Some(parse::NumericData::UInt64(im))) => Ok(
                NumericData::UInt64 { real: re, imag: Some(im) },
            ),
            (parse::NumericData::Int64(re), None) => Ok(NumericData::Int64 { real: re, imag: None }),
            (parse::NumericData::Int64(re), Some(parse::NumericData::Int64(im))) => Ok(
                NumericData::Int64 { real: re, imag: Some(im) },
            ),
            (parse::NumericData::UInt32(re), None) => Ok(NumericData::UInt32 { real: re, imag: None }),
            (parse::NumericData::UInt32(re), Some(parse::NumericData::UInt32(im))) => Ok(
                NumericData::UInt32 { real: re, imag: Some(im) },
            ),
            (parse::NumericData::Int32(re), None) => Ok(NumericData::Int32 { real: re, imag: None }),
            (parse::NumericData::Int32(re), Some(parse::NumericData::Int32(im))) => Ok(
                NumericData::Int32 { real: re, imag: Some(im) },
            ),
            (parse::NumericData::UInt16(re), None) => Ok(NumericData::UInt16 { real: re, imag: None }),
            (parse::NumericData::UInt16(re), Some(parse::NumericData::UInt16(im))) => Ok(
                NumericData::UInt16 { real: re, imag: Some(im) },
            ),
            (parse::NumericData::Int16(re), None) => Ok(NumericData::Int16 { real: re, imag: None }),
            (parse::NumericData::Int16(re), Some(parse::NumericData::Int16(im))) => Ok(
                NumericData::Int16 { real: re, imag: Some(im) },
            ),
            (parse::NumericData::UInt8(re), None) => Ok(NumericData::UInt8 { real: re, imag: None }),
            (parse::NumericData::UInt8(re), Some(parse::NumericData::UInt8(im))) => Ok(
                NumericData::UInt8 { real: re, imag: Some(im) },
            ),
            (parse::NumericData::Int8(re), None) => Ok(NumericData::Int8 { real: re, imag: None }),
            (parse::NumericData::Int8(re), Some(parse::NumericData::Int8(im))) => Ok(
                NumericData::Int8 { real: re, imag: Some(im) },
            ),
            _ => Err(Error::InternalError),
        }
    }
}

/// A numeric array.
#[derive(Clone, Debug)]
pub struct Array {
    name: String,
    size: Vec<usize>,
    data: NumericData,
}

/// An `Array` in contracts.
pub struct ArrayView {
    pub name: Seq<char>,
    pub size: Seq<int>,
    pub data: ArrayDataView,
}

impl View for Array {
    type V = ArrayView;

    closed spec fn view(&self) -> ArrayView {
        ArrayView {
            name: self.name@,
            size: self.size@.map_values(|x: usize| x as int),
            data: self.data@,
        }
    }
}

impl Array {
    /// The name of this array.
    pub fn name(&self) -> (r: &str)
        ensures
            r@ == self@.name,
    {
        self.name.as_str()
    }

    /// The size of this array: one entry for each dimension. For an array of
    /// two dimensions the first entry is the number of rows and the second
    /// the number of columns.
    pub fn size(&self) -> (r: &Vec<usize>)
        ensures
            r@.map_values(|x: usize| x as int) == self@.size,
    {
        &self.size
    }

    /// The number of dimensions of this array.
    pub fn ndims(&self) -> (r: usize)
        ensures
            r == self@.size.len(),
    {
        self.size.len()
    }

    /// The numerical data stored in this array.
    pub fn data(&self) -> (r: &NumericData)
        ensures
            r@ == self@.data,
    {
        &self.data
    }
}

/// The array that an element becomes: a dense numeric array with its
/// payloads promoted to the kind of its class and its dimensions taken as
/// unsigned sizes, and nothing for any other element.
pub open spec fn spec_array(element: DataElementView) -> Result<Option<ArrayView>, Error> {
    match element {
        DataElementView::NumericMatrix { flags, dims, name, real_part, imag_part } => {
            match spec_numeric_data(flags.class, real_part, imag_part) {
                Ok(data) => Ok(
                    Some(ArrayView { name, size: dims.map_values(|x: int| spec_index(x)), data }),
                ),
                Err(e) => Err(e),
            }
        },
        _ => Ok(None),
    }
}

/// Makes the array that an element becomes.
pub fn array_from_element(element: DataElement) -> (r: Result<Option<Array>, Error>)
    ensures
        match r {
            Ok(Some(array)) => spec_array(element@) == Ok::<Option<ArrayView>, Error>(
                Some(array@),
            ),
            Ok(None) => spec_array(element@) == Ok::<Option<ArrayView>, Error>(None),
            Err(e) => spec_array(element@) == Err::<Option<ArrayView>, Error>(e),
        },
{
    match element {
        DataElement::NumericMatrix(flags, dims, name, real_part, imag_part) => {
            let size = indices_from_i32(&dims);
            match NumericData::try_from(flags.class, real_part, imag_part) {
                Ok(data) => Ok(Some(Array { size, name, data })),
                Err(e) => Err(e),
            }
        },
        _ => Ok(None),
    }
}

/// The arrays that a sequence of elements becomes, in their order; the
/// error of the first element that has one.
pub open spec fn spec_arrays(elements: Seq<DataElementView>) -> Result<Seq<ArrayView>, Error>
    decreases elements.len(),
{
    if elements.len() == 0 {
        Ok(Seq::empty())
    } else {
        match spec_arrays(elements.drop_last()) {
            Err(e) => Err(e),
            Ok(arrays) => match spec_array(elements.last()) {
                Err(e) => Err(e),
                Ok(Some(array)) => Ok(arrays.push(array)),
                Ok(None) => Ok(arrays),
            },
        }
    }
}

/// The arrays of a file: every dense numeric array in it, in file order.
pub open spec fn spec_mat_file(bytes: Seq<u8>) -> Result<Seq<ArrayView>, Error> {
    match spec_parse_all(bytes) {
        Err(e) => Err(Error::ParseError(e)),
        Ok((rest, result)) => spec_arrays(result.data_elements),
    }
}

/// A collection of named arrays.
#[derive(Clone, Debug)]
pub struct MatFile {
    arrays: Vec<Array>,
}

impl View for MatFile {
    type V = Seq<ArrayView>;

    closed spec fn view(&self) -> Seq<ArrayView> {
        self.arrays@.map_values(|a: Array| a@)
    }
}

impl MatFile {
    /// Reads a byte sequence as a ".mat" file. Either every dense numeric
    /// array of the file is handed out, or an error and nothing else.
    pub fn parse(bytes: &[u8]) -> (r: Result<MatFile, Error>)
        ensures
            match r {
                Ok(file) => spec_mat_file(bytes@) == Ok::<Seq<ArrayView>, Error>(file@),
                Err(e) => spec_mat_file(bytes@) == Err::<Seq<ArrayView>, Error>(e),
            },
    {
        let parse_result = match parse_all(bytes) {
            Ok((_, parse_result)) => parse_result,
            Err(e) => {
                return Err(Error::ParseError(e));
            },
        };
        let ghost elements = parse_result@.data_elements;
        let data_elements = parse_result.data_elements;
        let mut arrays: Vec<Array> = Vec::new();
        proof {
            assert(elements.take(0) =~= Seq::<DataElementView>::empty());
            assert(arrays@.map_values(|a: Array| a@) =~= Seq::<ArrayView>::empty());
        }
        for data_element in it: data_elements
            invariant
                it.seq() == data_elements@,
                spec_mat_file(bytes@) == spec_arrays(elements),
                elements == data_elements@.map_values(|e: DataElement| e@),
                spec_arrays(elements.take(it.index())) == Ok::<Seq<ArrayView>, Error>(
                    arrays@.map_values(|a: Array| a@),
                ),
        {
            proof {
                let k = it.index();
                assert(elements.take(k + 1).drop_last() =~= elements.take(k));
                assert(elements.take(k + 1).last() == data_element@);
            }
            match array_from_element(data_element) {
                Ok(Some(array)) => {
                    proof {
                        assert(arrays@.push(array).map_values(|a: Array| a@) =~= arrays@.map_values(
                            |a: Array| a@,
                        ).push(array@));
                    }
                    arrays.push(array);
                },
                Ok(None) => {},
                Err(e) => {
                    proof {
                        lemma_arrays_error(elements, it.index() + 1);
                    }
                    return Err(e);
                },
            }
        }
        assert(elements.take(elements.len() as int) =~= elements);
        Ok(MatFile { arrays })
    }

    /// All arrays of this file, in file order.
    pub fn arrays(&self) -> (r: &Vec<Array>)
        ensures
            r@.map_values(|a: Array| a@) == self@,
    {
        &self.arrays
    }

    /// The first array with the given name, if there is one. Names are
    /// compared letter by letter.
    pub fn find_by_name(&self, name: &str) -> (r: Option<&Array>)
        ensures
            match r {
                Some(array) => exists|k: int|
                    0 <= k < self@.len() && #[trigger] self@[k] == array@ && array@.name == name@
                        && forall|j: int| 0 <= j < k ==> (#[trigger] self@[j]).name != name@,
                None => forall|j: int| 0 <= j < self@.len() ==> (#[trigger] self@[j]).name != name@,
            },
    {
        let wanted: String = name.to_owned();
        let mut k: usize = 0;
        while k < self.arrays.len()
            invariant
                k <= self.arrays.len(),
                wanted@ == name@,
                forall|j: int| 0 <= j < k ==> (#[trigger] self@[j]).name != name@,
            decreases self.arrays.len() - k,
        {
            if self.arrays[k].name == wanted {
                assert(self@[k as int] == self.arrays[k as int]@);
                return Some(&self.arrays[k]);
            }
            assert(self@[k as int] == self.arrays[k as int]@);
            k += 1;
        }
        None
    }
}

/// An error among the first `k` elements is the error of the whole.
pub proof fn lemma_arrays_error(elements: Seq<DataElementView>, k: int)
    requires
        0 <= k <= elements.len(),
        spec_arrays(elements.take(k)) is Err,
    ensures
        spec_arrays(elements) == spec_arrays(elements.take(k)),
    decreases elements.len() - k,
{
    if k < elements.len() {
        assert(elements.take(k + 1).drop_last() =~= elements.take(k));
        lemma_arrays_error(elements, k + 1);
    } else {
        assert(elements.take(k) =~= elements);
    }
}

} // verus!
