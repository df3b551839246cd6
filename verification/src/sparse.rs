//! Sparse arrays in compressed-column form: row indices, one shift per
//! column and one more, and the stored values.

use vstd::prelude::*;
use crate::parse::{
    agrees_view, parse_array_name_subelement, parse_data_element_tag,
    parse_dimensions_array_subelement, parse_int32_payload, parse_numeric_data_element,
    spec_int32_payload, spec_parse_array_name_subelement, spec_parse_data_element_tag,
    spec_parse_dimensions_array_subelement, spec_parse_numeric_data_element, ArrayFlags,
    ColumnShift, DataElement, DataElementView, DataType, ParseError, Parsed, RowIndex,
};

verus! {

/// A 32-bit integer taken as an index: itself where it is not negative,
/// else the unsigned machine word with the same bits.
pub open spec fn spec_index(x: int) -> int {
    if x >= 0 {
        x
    } else {
        x + usize::MAX + 1
    }
}

/// Takes a 32-bit integer as an index.
pub fn index_from_i32(x: i32) -> (r: usize)
    ensures
        r as int == spec_index(x as int),
{
    if x >= 0 {
        x as usize
    } else {
        let below: usize = (-(x as i64)) as usize;
        (usize::MAX - below) + 1
    }
}

/// Takes each of `values` as an index.
pub fn indices_from_i32(values: &Vec<i32>) -> (r: Vec<usize>)
    ensures
        r@.map_values(|x: usize| x as int) == values@.map_values(|x: i32| x as int).map_values(
            |x: int| spec_index(x),
        ),
{
    let mut out: Vec<usize> = Vec::new();
    let mut k: usize = 0;
    while k < values.len()
        invariant
            k <= values.len(),
            out@.len() == k,
            forall|j: int| 0 <= j < k ==> out@[j] as int == spec_index(values@[j] as int),
        decreases values.len() - k,
    {
        out.push(index_from_i32(values[k]));
        k += 1;
    }
    assert(out@.map_values(|x: usize| x as int) =~= values@.map_values(
        |x: i32| x as int,
    ).map_values(|x: int| spec_index(x)));
    out
}

/// An index subelement: kind `Int32`, not empty, each entry taken as an
/// index.
#[verifier::opaque]
pub open spec fn spec_parse_index_array_subelement(s: Seq<u8>, le: bool) -> Parsed<Seq<int>> {
    match spec_parse_data_element_tag(s, le) {
        Err(e) => Err(e),
        Ok((rest, tag)) => if tag.data_type == DataType::Int32 && tag.data_byte_size > 0 {
            match spec_int32_payload(rest, tag, le) {
                Err(e) => Err(e),
                Ok((after, values)) => Ok((after, values.map_values(|x: int| spec_index(x)))),
            }
        } else {
            Err(ParseError::Framing)
        },
    }
}

/// Reads the row index subelement at the start of `i`.
pub fn parse_row_index_array_subelement(i: &[u8], le: bool) -> (r: Result<
    (&[u8], RowIndex),
    ParseError,
>)
    ensures
        match r {
            Ok((rest, rows)) => spec_parse_index_array_subelement(i@, le) == Ok::<
                (Seq<u8>, Seq<int>),
                ParseError,
            >((rest@, rows@.map_values(|x: usize| x as int))),
            Err(e) => spec_parse_index_array_subelement(i@, le) == Err::<
                (Seq<u8>, Seq<int>),
                ParseError,
            >(e),
        },
{
    proof {
        reveal(spec_parse_index_array_subelement);
    }
    let (rest, tag) = match parse_data_element_tag(i, le) {
        Ok(found) => found,
        Err(e) => {
            return Err(e);
        },
    };
    if !(tag.data_type == DataType::Int32 && tag.data_byte_size > 0) {
        return Err(ParseError::Framing);
    }
    match parse_int32_payload(rest, tag, le) {
        Ok((after, row_index)) => Ok((after, indices_from_i32(&row_index))),
        Err(e) => Err(e),
    }
}

/// Reads the column shift subelement at the start of `i`.
pub fn parse_column_index_array_subelement(i: &[u8], le: bool) -> (r: Result<
    (&[u8], ColumnShift),
    ParseError,
>)
    ensures
        match r {
            Ok((rest, columns)) => spec_parse_index_array_subelement(i@, le) == Ok::<
                (Seq<u8>, Seq<int>),
                ParseError,
            >((rest@, columns@.map_values(|x: usize| x as int))),
            Err(e) => spec_parse_index_array_subelement(i@, le) == Err::<
                (Seq<u8>, Seq<int>),
                ParseError,
            >(e),
        },
{
    proof {
        reveal(spec_parse_index_array_subelement);
    }
    let (rest, tag) = match parse_data_element_tag(i, le) {
        Ok(found) => found,
        Err(e) => {
            return Err(e);
        },
    };
    if !(tag.data_type == DataType::Int32 && tag.data_byte_size > 0) {
        return Err(ParseError::Framing);
    }
    match parse_int32_payload(rest, tag, le) {
        Ok((after, column_index)) => Ok((after, indices_from_i32(&column_index))),
        Err(e) => Err(e),
    }
}

/// The subelements of a sparse array after its flags: dimensions, name, row
/// indices, column shifts, real part and, where the flags say complex,
/// imaginary part. There is one column shift more than the second dimension
/// says, and each part has `nzmax` elements; the kind of a part is free.
pub open spec fn spec_parse_sparse_matrix_subelements(
    s: Seq<u8>,
    le: bool,
    flags: ArrayFlags,
) -> Parsed<DataElementView> {
    match spec_parse_dimensions_array_subelement(s, le) {
        Err(e) => Err(e),
        Ok((after_dims, dims)) => match spec_parse_array_name_subelement(after_dims, le) {
            Err(e) => Err(e),
            Ok((after_name, name)) => match spec_parse_index_array_subelement(after_name, le) {
                Err(e) => Err(e),
                Ok((after_rows, row_index)) => match spec_parse_index_array_subelement(
                    after_rows,
                    le,
                ) {
                    Err(e) => Err(e),
                    Ok((after_columns, column_shift)) => if column_shift.len() != dims[1] + 1 {
                        Err(ParseError::Framing)
                    } else {
                        match spec_parse_numeric_data_element(after_columns, le) {
                            Err(e) => Err(e),
                            Ok((after_real, real_part)) => if real_part.values.len()
                                != flags.nzmax {
                                Err(ParseError::Framing)
                            } else if flags.complex {
                                match spec_parse_numeric_data_element(after_real, le) {
                                    Err(e) => Err(e),
                                    Ok((after_imag, imag_part)) => if imag_part.values.len()
                                        != flags.nzmax {
                                        Err(ParseError::Framing)
                                    } else {
                                        Ok(
                                            (
                                                after_imag,
                                                DataElementView::SparseMatrix {
                                                    flags,
                                                    dims,
                                                    name,
                                                    row_index,
                                                    column_shift,
                                                    real_part,
                                                    imag_part: Some(imag_part),
                                                },
                                            ),
                                        )
                                    },
                                }
                            } else {
                                Ok(
                                    (
                                        after_real,
                                        DataElementView::SparseMatrix {
                                            flags,
                                            dims,
                                            name,
                                            row_index,
                                            column_shift,
                                            real_part,
                                            imag_part: None,
                                        },
                                    ),
                                )
                            },
                        }
                    },
                },
            },
        },
    }
}

/// Reads the subelements of a sparse array after its flags.
pub fn parse_sparse_matrix_subelements(i: &[u8], le: bool, flags: ArrayFlags) -> (r: Result<
    (&[u8], DataElement),
    ParseError,
>)
    ensures
        agrees_view(r, spec_parse_sparse_matrix_subelements(i@, le, flags)),
        r matches Ok((rest, element)) ==> element@.well_formed(),
{
    let (i, dimensions) = match parse_dimensions_array_subelement(i, le) {
        Ok(found) => found,
        Err(e) => {
            return Err(e);
        },
    };
    let (i, name) = match parse_array_name_subelement(i, le) {
        Ok(found) => found,
        Err(e) => {
            return Err(e);
        },
    };
    let (i, row_index) = match parse_row_index_array_subelement(i, le) {
        Ok(found) => found,
        Err(e) => {
            return Err(e);
        },
    };
    let (i, column_index) = match parse_column_index_array_subelement(i, le) {
        Ok(found) => found,
        Err(e) => {
            return Err(e);
        },
    };
    let columns: i32 = dimensions[1];
    let found: usize = column_index.len();
    proof {
        let dims = dimensions@.map_values(|x: i32| x as int);
        let shifts = column_index@.map_values(|x: usize| x as int);
        assert(dims[1] == columns as int);
        assert(shifts.len() == found);
    }
    let expected: i64 = columns as i64 + 1;
    if expected < 0 || found as u64 != expected as u64 {
        return Err(ParseError::Framing);
    }
    let (i, real_part) = match parse_numeric_data_element(i, le) {
        Ok(found) => found,
        Err(e) => {
            return Err(e);
        },
    };
    if real_part.len() != flags.nzmax {
        return Err(ParseError::Framing);
    }
    if flags.complex {
        let (i, imag_part) = match parse_numeric_data_element(i, le) {
            Ok(found) => found,
            Err(e) => {
                return Err(e);
            },
        };
        if imag_part.len() != flags.nzmax {
            return Err(ParseError::Framing);
        }
        Ok(
            (
                i,
                DataElement::SparseMatrix(
                    flags,
                    dimensions,
                    name,
                    row_index,
                    column_index,
                    real_part,
                    Some(imag_part),
                ),
            ),
        )
    } else {
        Ok(
            (
                i,
                DataElement::SparseMatrix(
                    flags,
                    dimensions,
                    name,
                    row_index,
                    column_index,
                    real_part,
                    None,
                ),
            ),
        )
    }
}

} // verus!
