//! What holds of every input: statements about the parsers, proved from
//! their definitions.

use vstd::prelude::*;
use crate::inflate::zlib_inflated;
use crate::numeric::{spec_elements, NumericSeq};
use crate::parse::{
    spec_parse_all, spec_parse_array_flags_subelement, spec_parse_data_element_tag,
    spec_parse_dimensions_array_subelement, spec_parse_elements, spec_parse_header,
    spec_parse_matrix_data_element, spec_parse_next_data_element,
    spec_parse_numeric_matrix_subelements, spec_parse_numeric_data_element,
    spec_types_are_compatible, ArrayFlags, ArrayType, DataElementView, DataType, ParseError,
    Parsed, MAX_NESTING,
};
use crate::sparse::spec_parse_sparse_matrix_subelements;
use crate::wire::{lemma_byte_order_symmetry, spec_swapped, spec_u32, spec_word};
use crate::ieee::{
    lemma_double_bits_are_exact, lemma_single_bits_are_exact, spec_double_bits, spec_magnitude,
    spec_single_bits,
};
use crate::{
    spec_array, spec_arrays, spec_convert_number_format, spec_mat_file, ArrayView, Error,
};
use vstd::arithmetic::power2::pow2;

verus! {

/// Two parsers came to the same end: the same value, whatever they left
/// over, or the same error.
pub open spec fn same_outcome<T>(a: Parsed<T>, b: Parsed<T>) -> bool {
    match (a, b) {
        (Ok((rest_a, value_a)), Ok((rest_b, value_b))) => value_a == value_b,
        (Err(e), Err(f)) => e == f,
        _ => false,
    }
}

/// A word depends on its own bytes only.
pub proof fn lemma_word_of_equal_bytes(a: Seq<u8>, b: Seq<u8>, width: int, le: bool)
    requires
        width == 1 || width == 2 || width == 4 || width == 8,
        a.len() >= width,
        b.len() >= width,
        forall|j: int| 0 <= j < width ==> a[j] == b[j],
    ensures
        spec_word(a, width, le) == spec_word(b, width, le),
{
    if width == 8 {
        assert forall|j: int| 0 <= j < 4 implies a.skip(4)[j] == b.skip(4)[j] by {
            assert(a.skip(4)[j] == a[j + 4]);
            assert(b.skip(4)[j] == b[j + 4]);
        }
    }
}

/// A dense numeric array that is handed out has, in its real part and in
/// its imaginary part if it has one, as many elements as its dimensions
/// multiply to, of a kind that its class admits; and it has an imaginary
/// part exactly if its flags say complex.
pub proof fn lemma_dense_array_is_well_formed(s: Seq<u8>, le: bool, flags: ArrayFlags)
    ensures
        spec_parse_numeric_matrix_subelements(s, le, flags) matches Ok((rest, element))
            ==> element.well_formed(),
{
    reveal(spec_parse_dimensions_array_subelement);
}

/// A sparse array that is handed out has `nzmax` elements in each part and
/// one column shift more than it has columns.
pub proof fn lemma_sparse_array_is_well_formed(s: Seq<u8>, le: bool, flags: ArrayFlags)
    ensures
        spec_parse_sparse_matrix_subelements(s, le, flags) matches Ok((rest, element))
            ==> element.well_formed(),
{
    reveal(spec_parse_dimensions_array_subelement);
}

/// A numeric subelement of one to four bytes decodes alike under a small
/// tag and under a long tag.
///
/// `small` starts with a small tag of kind `code` and size `size`, `long`
/// with a long tag of the same kind and size, and the `size` bytes behind
/// the two tags are the same.
pub proof fn lemma_small_and_long_tags_agree(
    small: Seq<u8>,
    long: Seq<u8>,
    le: bool,
    code: int,
    size: int,
)
    requires
        1 <= size <= 4,
        0 <= code < 0x1_0000,
        small.len() >= 8,
        long.len() >= 16,
        spec_u32(small, le) == size * 0x1_0000 + code,
        spec_u32(long, le) == code,
        spec_u32(long.skip(4), le) == size,
        small.subrange(4, 4 + size) == long.subrange(8, 8 + size),
    ensures
        same_outcome(
            spec_parse_numeric_data_element(small, le),
            spec_parse_numeric_data_element(long, le),
        ),
{
    reveal(spec_parse_data_element_tag);
    reveal(spec_parse_numeric_data_element);
    let first = size * 0x1_0000 + code;
    assert(first / 0x1_0000 == size && first % 0x1_0000 == code);
    match DataType::spec_from_code(code) {
        None => {},
        Some(kind) => {
            let width = kind.spec_width();
            if width != 0 {
                let count = size / width;
                assert(count * width <= size) by {
                    vstd::arithmetic::div_mod::lemma_fundamental_div_mod(size, width);
                    vstd::arithmetic::div_mod::lemma_mod_pos_bound(size, width);
                    assert(count * width == width * count) by (nonlinear_arith);
                }
                let a = small.skip(4);
                let b = long.skip(8);
                let ea = spec_elements(kind, a, count, le);
                let eb = spec_elements(kind, b, count, le);
                assert forall|k: int| 0 <= k < count implies #[trigger] ea[k] == eb[k] by {
                    assert(k * width + width <= count * width) by (nonlinear_arith)
                        requires
                            0 <= k < count,
                            width > 0,
                    ;
                    let sa = a.skip(k * width);
                    let sb = b.skip(k * width);
                    assert forall|j: int| 0 <= j < width implies sa[j] == sb[j] by {
                        let m = k * width + j;
                        assert(sa[j] == small.subrange(4, 4 + size)[m]);
                        assert(sb[j] == long.subrange(8, 8 + size)[m]);
                    }
                    lemma_word_of_equal_bytes(a.skip(k * width), b.skip(k * width), width, le);
                }
                assert(ea =~= eb);
            }
        },
    }
}

/// How deep compressed elements may nest does not matter to an element
/// that is not compressed.
pub proof fn lemma_depth_matters_to_compressed_elements_only(
    s: Seq<u8>,
    le: bool,
    d1: nat,
    d2: nat,
)
    requires
        spec_parse_data_element_tag(s, le) matches Ok((rest, tag)) ==> tag.data_type
            != DataType::Compressed,
    ensures
        spec_parse_next_data_element(s, le, d1) == spec_parse_next_data_element(s, le, d2),
{
}

/// A compressed element decodes to what the element inside it decodes to.
///
/// `outer` starts with a tag of kind `Compressed` whose payload inflates to
/// `inner`, and `inner` starts with an element that is not itself
/// compressed, such as a matrix.
pub proof fn lemma_compressed_element_decodes_like_plain(
    outer: Seq<u8>,
    inner: Seq<u8>,
    le: bool,
)
    requires
        spec_parse_data_element_tag(outer, le) matches Ok((rest, tag)) && tag.data_type
            == DataType::Compressed && tag.data_byte_size <= rest.len() && zlib_inflated(
            rest.take(tag.data_byte_size as int),
        ) == Some(inner),
        spec_parse_data_element_tag(inner, le) matches Ok((rest, tag)) ==> tag.data_type
            != DataType::Compressed,
    ensures
        same_outcome(
            spec_parse_next_data_element(outer, le, MAX_NESTING as nat),
            spec_parse_next_data_element(inner, le, MAX_NESTING as nat),
        ),
{
    lemma_depth_matters_to_compressed_elements_only(
        inner,
        le,
        MAX_NESTING as nat,
        (MAX_NESTING - 1) as nat,
    );
}

/// A matrix whose class is cell, structure, object or character array
/// decodes to `Unsupported`, whatever follows its flags, and no array comes
/// of it.
pub proof fn lemma_unsupported_classes_are_passed_over(s: Seq<u8>, le: bool)
    requires
        spec_parse_array_flags_subelement(s, le) matches Ok((rest, flags)) && (flags.class
            == ArrayType::Cell || flags.class == ArrayType::Struct || flags.class
            == ArrayType::Object || flags.class == ArrayType::Char),
    ensures
        spec_parse_matrix_data_element(s, le) == Ok::<DataElementView, ParseError>(
            DataElementView::Unsupported,
        ),
        spec_array(DataElementView::Unsupported) == Ok::<Option<ArrayView>, Error>(None),
{
}

/// An element that is passed over, or a sparse array, adds nothing to the
/// arrays of a file and raises no error.
pub proof fn lemma_only_dense_arrays_are_handed_out(
    elements: Seq<DataElementView>,
    element: DataElementView,
)
    requires
        !(element is NumericMatrix),
    ensures
        spec_arrays(elements.push(element)) == spec_arrays(elements),
{
    assert(elements.push(element).drop_last() =~= elements);
}

/// A file is rejected with a framing error where the tag of its first
/// element announces more bytes than follow it.
pub proof fn lemma_truncated_input_is_rejected(s: Seq<u8>)
    requires
        spec_parse_header(s) matches Ok((body, header)) && (spec_parse_data_element_tag(
            body,
            header.is_little_endian,
        ) matches Ok((rest, tag)) && tag.data_byte_size > rest.len()),
    ensures
        spec_parse_all(s) is Err,
        spec_parse_all(s)->Err_0 == ParseError::Framing,
        spec_mat_file(s) == Err::<Seq<ArrayView>, Error>(Error::ParseError(ParseError::Framing)),
{
    reveal(spec_parse_data_element_tag);
}

/// A file that ends inside its header, or inside the tag of an element, is
/// rejected with a framing error.
pub proof fn lemma_short_input_is_rejected(s: Seq<u8>)
    requires
        s.len() < 128 || (spec_parse_header(s) matches Ok((body, header)) && 0 < body.len() < 4),
    ensures
        spec_mat_file(s) == Err::<Seq<ArrayView>, Error>(Error::ParseError(ParseError::Framing)),
{
    reveal(spec_parse_header);
    reveal(spec_parse_data_element_tag);
}

/// The byte order of a payload does not matter: elements read in one byte
/// order are the elements read in the other order from the payload with the
/// bytes of every element reversed.
pub proof fn lemma_byte_order_of_elements(kind: DataType, s: Seq<u8>, count: int, le: bool)
    requires
        kind.spec_width() > 0,
        0 <= count,
        count * kind.spec_width() <= s.len(),
    ensures
        spec_elements(kind, s, count, le) == spec_elements(
            kind,
            spec_swapped(s, kind.spec_width()),
            count,
            !le,
        ),
{
    let width = kind.spec_width();
    let t = spec_swapped(s, width);
    let ea = spec_elements(kind, s, count, le);
    let eb = spec_elements(kind, t, count, !le);
    assert forall|k: int| 0 <= k < count implies #[trigger] ea[k] == eb[k] by {
        assert(k * width + width <= count * width) by (nonlinear_arith)
            requires
                0 <= k < count,
                width > 0,
        ;
        let sa = s.skip(k * width);
        let sb = t.skip(k * width);
        assert forall|j: int| 0 <= j < width implies #[trigger] sb[j] == sa[width - 1 - j] by {
            let i = k * width + j;
            assert(i / width == k && i % width == j) by {
                vstd::arithmetic::div_mod::lemma_fundamental_div_mod_converse(i, width, k, j);
            }
            assert(sb[j] == t[i]);
            assert(sa[width - 1 - j] == s[k * width + (width - 1 - j)]);
        }
        lemma_byte_order_symmetry(sa, sb, width, le);
    }
    assert(ea =~= eb);
}

/// The kinds of integer that are promoted: those of at most 32 bits that
/// an array of a wider kind may be stored in.
pub open spec fn is_promoted_kind(kind: DataType) -> bool {
    kind == DataType::UInt8 || kind == DataType::Int16 || kind == DataType::UInt16 || kind
        == DataType::Int32
}

/// Promotion to a class of integers keeps every element that the kind of
/// the class can hold: all of them for a signed kind, those that are not
/// negative for an unsigned one.
pub proof fn lemma_promotion_to_integers_keeps_values(target: ArrayType, data: NumericSeq, k: int)
    requires
        target.spec_storage_type() matches Some(kind) && kind != DataType::Double && kind
            != DataType::Single && spec_types_are_compatible(kind, data.kind) && (
        kind.spec_is_signed() || data.values[k] >= 0),
        0 <= k < data.values.len(),
    ensures
        spec_convert_number_format(target, data) matches Ok(out) && out.kind
            == target.spec_storage_type().unwrap() && out.values.len() == data.values.len()
            && out.values[k] == data.values[k],
{
}

/// Promotion to double precision is exact: an element `x` of a promoted
/// kind becomes the pattern whose sign, exponent and fraction denote `x`.
pub proof fn lemma_promotion_to_double_is_exact(data: NumericSeq, k: int)
    requires
        is_promoted_kind(data.kind),
        0 <= k < data.values.len(),
        -0x8000_0000 <= data.values[k] < 0x8000_0000,
    ensures
        spec_convert_number_format(ArrayType::Double, data) matches Ok(out) && out.kind
            == DataType::Double && out.values.len() == data.values.len() && ({
            let x = data.values[k];
            let bits = out.values[k];
            let exponent = (bits / 0x10_0000_0000_0000) % 0x800;
            let fraction = bits % 0x10_0000_0000_0000;
            &&& bits == spec_double_bits(x)
            &&& x == 0 ==> bits == 0
            &&& x != 0 ==> ((bits / 0x8000_0000_0000_0000 == 1) == (x < 0)) && exponent >= 1023
                && (0x10_0000_0000_0000 + fraction) * pow2((exponent - 1023) as nat)
                == spec_magnitude(x) * 0x10_0000_0000_0000
        }),
{
    if data.values[k] != 0 {
        lemma_double_bits_are_exact(data.values[k]);
    }
}

/// Promotion to single precision is exact for an element of at most 24
/// significant bits, which every element of the kinds `UInt8`, `Int16` and
/// `UInt16` is.
pub proof fn lemma_promotion_to_single_is_exact(data: NumericSeq, k: int)
    requires
        is_promoted_kind(data.kind),
        0 <= k < data.values.len(),
        -0x100_0000 < data.values[k] < 0x100_0000,
    ensures
        spec_convert_number_format(ArrayType::Single, data) matches Ok(out) && out.kind
            == DataType::Single && out.values.len() == data.values.len() && ({
            let x = data.values[k];
            let bits = out.values[k];
            let exponent = (bits / 0x80_0000) % 0x100;
            let fraction = bits % 0x80_0000;
            &&& bits == spec_single_bits(x)
            &&& x == 0 ==> bits == 0
            &&& x != 0 ==> ((bits / 0x8000_0000 == 1) == (x < 0)) && exponent >= 127 && (0x80_0000
                + fraction) * pow2((exponent - 127) as nat) == spec_magnitude(x) * 0x80_0000
        }),
{
    if data.values[k] != 0 {
        lemma_single_bits_are_exact(data.values[k]);
    }
}

/// A payload of a kind that the class does not admit is not promoted: the
/// conversion fails, as for signed bytes in an array of doubles.
pub proof fn lemma_unlisted_pairs_are_not_converted(target: ArrayType, data: NumericSeq)
    requires
        target.spec_storage_type() matches Some(kind) ==> !spec_types_are_compatible(
            kind,
            data.kind,
        ),
    ensures
        spec_convert_number_format(target, data) == Err::<NumericSeq, Error>(
            Error::ConversionError,
        ),
        spec_convert_number_format(
            ArrayType::Double,
            NumericSeq { kind: DataType::Int8, values: data.values },
        ) == Err::<NumericSeq, Error>(Error::ConversionError),
{
}

/// Every element takes at least the four bytes of a tag from the input, so
/// reading to the end of the input ends, and `n` bytes hold at most `n`
/// elements.
pub proof fn lemma_every_element_consumes_input(s: Seq<u8>, le: bool, depth: nat)
    ensures
        spec_parse_next_data_element(s, le, depth) matches Ok((rest, element)) ==> rest.len() + 4
            <= s.len(),
        spec_parse_elements(s, le) matches Ok(elements) ==> elements.len() <= s.len(),
    decreases s.len(),
{
    reveal(spec_parse_data_element_tag);
    if s.len() > 0 {
        match spec_parse_next_data_element(s, le, MAX_NESTING as nat) {
            Ok((rest, element)) => {
                lemma_every_element_consumes_input(rest, le, depth);
            },
            Err(_) => {},
        }
    }
}

/// Elements depend on their own bytes only: what follows the last of them
/// in the payload does not matter.
pub proof fn lemma_elements_of_prefix(kind: DataType, s: Seq<u8>, count: int, le: bool)
    requires
        kind.spec_width() > 0,
        0 <= count,
        count * kind.spec_width() <= s.len(),
    ensures
        spec_elements(kind, s, count, le) == spec_elements(
            kind,
            s.take(count * kind.spec_width()),
            count,
            le,
        ),
{
    let width = kind.spec_width();
    let t = s.take(count * width);
    let ea = spec_elements(kind, s, count, le);
    let eb = spec_elements(kind, t, count, le);
    assert forall|k: int| 0 <= k < count implies #[trigger] ea[k] == eb[k] by {
        assert(k * width + width <= count * width) by (nonlinear_arith)
            requires
                0 <= k < count,
                width > 0,
        ;
        let sa = s.skip(k * width);
        let sb = t.skip(k * width);
        assert forall|j: int| 0 <= j < width implies sa[j] == sb[j] by {}
        lemma_word_of_equal_bytes(sa, sb, width, le);
    }
    assert(ea =~= eb);
}

} // verus!
