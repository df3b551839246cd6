//! Byte order independence: a file written in one byte order and the same
//! content written in the other decode alike.
//!
//! Two byte sequences of one length mirror one another where every field
//! of several bytes in the one holds the bytes of the same field of the
//! other in reverse, and every other byte is the same. Which bytes form a
//! field is told by reading the first sequence in its byte order.

use vstd::prelude::*;
use crate::laws::{lemma_byte_order_of_elements, lemma_elements_of_prefix, lemma_word_of_equal_bytes};
use crate::inflate::zlib_inflated;
use crate::parse::{
    spec_parse_all, spec_parse_array_flags_subelement, spec_parse_array_name_subelement,
    spec_parse_compressed_data_element, spec_parse_data_element_tag,
    spec_parse_dimensions_array_subelement, spec_parse_elements, spec_parse_header,
    spec_parse_matrix_data_element, spec_parse_next_data_element,
    spec_parse_numeric_data_element, spec_parse_numeric_matrix_subelements, ArrayFlags,
    DataType, Parsed, MAX_NESTING,
};
use crate::spec_mat_file;
use crate::wire::spec_u16;
use crate::sparse::{spec_parse_index_array_subelement, spec_parse_sparse_matrix_subelements};
use crate::wire::{lemma_byte_order_symmetry, spec_swapped, spec_u32};

verus! {

/// Two parsers, one on `a` and one on `b`, came to the same end: the same
/// error, or the same value with as many bytes left of `b` as of `a`.
pub open spec fn mirrored<T>(pa: Parsed<T>, pb: Parsed<T>, a: Seq<u8>, b: Seq<u8>) -> bool {
    match (pa, pb) {
        (Ok((rest_a, value_a)), Ok((rest_b, value_b))) => value_a == value_b && rest_a.len()
            <= a.len() && rest_b == b.skip(a.len() - rest_a.len()),
        (Err(e), Err(f)) => e == f,
        _ => false,
    }
}

/// The four bytes at `at` in `b` are those of `a` in reverse.
pub open spec fn word_mirrors(a: Seq<u8>, b: Seq<u8>, at: int) -> bool {
    b.subrange(at, at + 4) == a.subrange(at, at + 4).reverse()
}

/// The tags at the start of `a` and `b` mirror one another: the first
/// word, and in a long tag the second.
pub open spec fn tag_mirrors(a: Seq<u8>, b: Seq<u8>, le: bool) -> bool {
    &&& a.len() == b.len()
    &&& a.len() >= 4 ==> word_mirrors(a, b, 0)
    &&& a.len() >= 8 && spec_u32(a, le) < 0x1_0000 ==> word_mirrors(a, b, 4)
}

/// The subelements at the start of `a` and `b` mirror one another: the
/// tags, and behind them the bytes of every element of the payload.
pub open spec fn subelement_mirrors(a: Seq<u8>, b: Seq<u8>, le: bool) -> bool {
    &&& tag_mirrors(a, b, le)
    &&& spec_parse_data_element_tag(a, le) matches Ok((rest, tag)) ==> ({
        let width = tag.data_type.spec_width();
        let used = (tag.data_byte_size as int / width) * width;
        let start = a.len() - rest.len();
        width > 0 && used <= rest.len() ==> b.subrange(start, start + used) == spec_swapped(
            a.subrange(start, start + used),
            width,
        )
    })
}

/// A word that mirrors another reads the same in the other byte order.
pub proof fn lemma_mirrored_word(a: Seq<u8>, b: Seq<u8>, at: int, le: bool)
    requires
        0 <= at,
        at + 4 <= a.len(),
        a.len() == b.len(),
        word_mirrors(a, b, at),
    ensures
        spec_u32(a.skip(at), le) == spec_u32(b.skip(at), !le),
{
    let x = a.subrange(at, at + 4);
    let y = b.subrange(at, at + 4);
    assert forall|j: int| 0 <= j < 4 implies #[trigger] y[j] == x[3 - j] by {}
    lemma_byte_order_symmetry(x, y, 4, le);
    lemma_word_of_equal_bytes(a.skip(at), x, 4, le);
    lemma_word_of_equal_bytes(b.skip(at), y, 4, !le);
}

/// Tags that mirror one another are the same tag.
pub proof fn lemma_mirrored_tag(a: Seq<u8>, b: Seq<u8>, le: bool)
    requires
        tag_mirrors(a, b, le),
    ensures
        mirrored(spec_parse_data_element_tag(a, le), spec_parse_data_element_tag(b, !le), a, b),
{
    reveal(spec_parse_data_element_tag);
    if a.len() >= 4 {
        lemma_mirrored_word(a, b, 0, le);
        assert(a.skip(0) =~= a);
        assert(b.skip(0) =~= b);
        if a.len() >= 8 && spec_u32(a, le) < 0x1_0000 {
            lemma_mirrored_word(a, b, 4, le);
        }
    }
}

/// Numeric subelements that mirror one another hold the same elements.
pub proof fn lemma_mirrored_numeric_data_element(a: Seq<u8>, b: Seq<u8>, le: bool)
    requires
        subelement_mirrors(a, b, le),
    ensures
        mirrored(
            spec_parse_numeric_data_element(a, le),
            spec_parse_numeric_data_element(b, !le),
            a,
            b,
        ),
{
    lemma_mirrored_tag(a, b, le);
    reveal(spec_parse_numeric_data_element);
    match spec_parse_data_element_tag(a, le) {
        Err(_) => {},
        Ok((rest_a, tag)) => {
            let start = a.len() - rest_a.len();
            let rest_b = b.skip(start);
            lemma_tag_leaves_a_suffix(a, le);
            let kind = tag.data_type;
            let width = kind.spec_width();
            if width > 0 {
                let count = tag.data_byte_size as int / width;
                let used = count * width;
                assert(0 <= count && 0 <= used) by (nonlinear_arith)
                    requires
                        count == tag.data_byte_size as int / width,
                        used == count * width,
                        width > 0,
                        tag.data_byte_size >= 0,
                ;
                if rest_a.len() >= used + tag.padding_byte_size {
                    assert(rest_a.take(used) =~= a.subrange(start, start + used));
                    assert(rest_b.take(used) =~= b.subrange(start, start + used));
                    lemma_elements_of_prefix(kind, rest_a, count, le);
                    lemma_elements_of_prefix(kind, rest_b, count, !le);
                    lemma_byte_order_of_elements(kind, rest_a.take(used), count, le);
                    let end = used + tag.padding_byte_size;
                    assert(rest_b.skip(end) =~= b.skip(a.len() - rest_a.skip(end).len()));
                }
            }
        },
    }
}

/// What a tag leaves is the input without its first four or eight bytes.
pub proof fn lemma_tag_leaves_a_suffix(a: Seq<u8>, le: bool)
    ensures
        spec_parse_data_element_tag(a, le) matches Ok((rest, tag)) ==> rest.len() + 4 <= a.len()
            && rest == a.skip(a.len() - rest.len()),
{
    reveal(spec_parse_data_element_tag);
}

/// `s` with every single byte reversed is `s`.
pub proof fn lemma_swapped_bytes(s: Seq<u8>)
    ensures
        spec_swapped(s, 1) == s,
{
    assert(spec_swapped(s, 1) =~= s);
}

/// A subelement of 32-bit integers that is read as dimensions or as
/// indices is read as a numeric subelement too, with the same integers and
/// the same bytes left.
pub proof fn lemma_integers_are_numeric(a: Seq<u8>, le: bool)
    ensures
        spec_parse_dimensions_array_subelement(a, le) matches Ok((rest, dims))
            ==> spec_parse_numeric_data_element(a, le) matches Ok((left, data)) && left == rest
            && data.values == dims && data.kind == DataType::Int32,
        spec_parse_index_array_subelement(a, le) matches Ok((rest, indices))
            ==> spec_parse_numeric_data_element(a, le) matches Ok((left, data)) && left == rest
            && data.kind == DataType::Int32,
        spec_parse_array_name_subelement(a, le) matches Ok((rest, name))
            ==> spec_parse_numeric_data_element(a, le) matches Ok((left, data)) && left == rest
            && data.kind == DataType::Int8,
{
    reveal(spec_parse_dimensions_array_subelement);
    reveal(spec_parse_index_array_subelement);
    reveal(spec_parse_array_name_subelement);
    reveal(spec_parse_numeric_data_element);
    match spec_parse_data_element_tag(a, le) {
        Err(_) => {},
        Ok((rest, tag)) => {
            let size = tag.data_byte_size as int;
            if tag.data_type == DataType::Int8 {
                assert(tag.data_type.spec_width() == 1);
                assert(size / 1 == size);
                assert((size / 1) * 1 == size);
            } else if tag.data_type == DataType::Int32 {
                assert(tag.data_type.spec_width() == 4);
            }
        },
    }
}

/// Dimensions that mirror one another are the same dimensions.
pub proof fn lemma_mirrored_dimensions(a: Seq<u8>, b: Seq<u8>, le: bool)
    requires
        subelement_mirrors(a, b, le),
    ensures
        mirrored(
            spec_parse_dimensions_array_subelement(a, le),
            spec_parse_dimensions_array_subelement(b, !le),
            a,
            b,
        ),
{
    lemma_mirrored_tag(a, b, le);
    lemma_mirrored_numeric_data_element(a, b, le);
    reveal(spec_parse_dimensions_array_subelement);
    reveal(spec_parse_numeric_data_element);
}

/// Indices that mirror one another are the same indices.
pub proof fn lemma_mirrored_indices(a: Seq<u8>, b: Seq<u8>, le: bool)
    requires
        subelement_mirrors(a, b, le),
    ensures
        mirrored(
            spec_parse_index_array_subelement(a, le),
            spec_parse_index_array_subelement(b, !le),
            a,
            b,
        ),
{
    lemma_mirrored_tag(a, b, le);
    lemma_mirrored_numeric_data_element(a, b, le);
    reveal(spec_parse_index_array_subelement);
    reveal(spec_parse_numeric_data_element);
}

/// Names that mirror one another are the same name.
pub proof fn lemma_mirrored_name(a: Seq<u8>, b: Seq<u8>, le: bool)
    requires
        subelement_mirrors(a, b, le),
    ensures
        mirrored(
            spec_parse_array_name_subelement(a, le),
            spec_parse_array_name_subelement(b, !le),
            a,
            b,
        ),
{
    lemma_mirrored_tag(a, b, le);
    lemma_tag_leaves_a_suffix(a, le);
    reveal(spec_parse_array_name_subelement);
    match spec_parse_data_element_tag(a, le) {
        Err(_) => {},
        Ok((rest_a, tag)) => {
            let start = a.len() - rest_a.len();
            let rest_b = b.skip(start);
            let size = tag.data_byte_size as int;
            if tag.data_type == DataType::Int8 && size > 0 && rest_a.len() >= size
                + tag.padding_byte_size {
                assert(tag.data_type.spec_width() == 1);
                assert((size / 1) * 1 == size);
                lemma_swapped_bytes(a.subrange(start, start + size));
                assert(b.subrange(start, start + size) == a.subrange(start, start + size));
                assert(rest_a.take(size) =~= a.subrange(start, start + size));
                assert(rest_b.take(size) =~= b.subrange(start, start + size));
                let end = size + tag.padding_byte_size;
                assert(rest_b.skip(end) =~= b.skip(a.len() - rest_a.skip(end).len()));
            }
        },
    }
}

/// The first `count` subelements of `a` and `b` mirror one another, each
/// starting where the one before it ends.
pub open spec fn subelements_mirror(a: Seq<u8>, b: Seq<u8>, le: bool, count: nat) -> bool
    decreases count,
{
    count > 0 ==> subelement_mirrors(a, b, le) && (spec_parse_numeric_data_element(
        a,
        le,
    ) matches Ok((rest, data)) ==> subelements_mirror(
        rest,
        b.skip(a.len() - rest.len()),
        le,
        (count - 1) as nat,
    ))
}

/// The payloads of two matrix elements mirror one another: the four words
/// of the array flags, and the subelements behind them, of which a matrix
/// has six at most.
pub open spec fn matrix_mirrors(a: Seq<u8>, b: Seq<u8>, le: bool) -> bool {
    &&& a.len() == b.len()
    &&& a.len() >= 16 ==> word_mirrors(a, b, 0) && word_mirrors(a, b, 4) && word_mirrors(a, b, 8)
        && word_mirrors(a, b, 12) && subelements_mirror(a.skip(16), b.skip(16), le, 6)
}

/// Array flags that mirror one another are the same flags.
pub proof fn lemma_mirrored_flags(a: Seq<u8>, b: Seq<u8>, le: bool)
    requires
        a.len() == b.len(),
        a.len() >= 16 ==> word_mirrors(a, b, 0) && word_mirrors(a, b, 4) && word_mirrors(a, b, 8)
            && word_mirrors(a, b, 12),
    ensures
        mirrored(
            spec_parse_array_flags_subelement(a, le),
            spec_parse_array_flags_subelement(b, !le),
            a,
            b,
        ),
{
    reveal(spec_parse_array_flags_subelement);
    if a.len() >= 16 {
        lemma_mirrored_word(a, b, 0, le);
        lemma_mirrored_word(a, b, 4, le);
        lemma_mirrored_word(a, b, 8, le);
        lemma_mirrored_word(a, b, 12, le);
        assert(a.skip(0) =~= a);
        assert(b.skip(0) =~= b);
    }
}

/// What is left of `b` after two steps is what is left after their sum.
pub proof fn lemma_skip_twice(b: Seq<u8>, first: int, second: int)
    requires
        0 <= first,
        0 <= second,
        first + second <= b.len(),
    ensures
        b.skip(first).skip(second) == b.skip(first + second),
{
    assert(b.skip(first).skip(second) =~= b.skip(first + second));
}

/// Dense arrays that mirror one another are the same array.
pub proof fn lemma_mirrored_dense(a: Seq<u8>, b: Seq<u8>, le: bool, flags: ArrayFlags)
    requires
        a.len() == b.len(),
        subelements_mirror(a, b, le, 4),
    ensures
        mirrored(
            spec_parse_numeric_matrix_subelements(a, le, flags),
            spec_parse_numeric_matrix_subelements(b, !le, flags),
            a,
            b,
        ),
{
    reveal_with_fuel(subelements_mirror, 5);
    lemma_mirrored_dimensions(a, b, le);
    lemma_integers_are_numeric(a, le);
    match spec_parse_dimensions_array_subelement(a, le) {
        Err(_) => {},
        Ok((a1, dims)) => {
            let b1 = b.skip(a.len() - a1.len());
            lemma_mirrored_name(a1, b1, le);
            lemma_integers_are_numeric(a1, le);
            match spec_parse_array_name_subelement(a1, le) {
                Err(_) => {},
                Ok((a2, name)) => {
                    let b2 = b1.skip(a1.len() - a2.len());
                    lemma_skip_twice(b, a.len() - a1.len(), a1.len() - a2.len());
                    lemma_mirrored_numeric_data_element(a2, b2, le);
                    match spec_parse_numeric_data_element(a2, le) {
                        Err(_) => {},
                        Ok((a3, real_part)) => {
                            let b3 = b2.skip(a2.len() - a3.len());
                            lemma_skip_twice(b, a.len() - a2.len(), a2.len() - a3.len());
                            lemma_mirrored_numeric_data_element(a3, b3, le);
                            match spec_parse_numeric_data_element(a3, le) {
                                Err(_) => {},
                                Ok((a4, imag_part)) => {
                                    lemma_skip_twice(b, a.len() - a3.len(), a3.len() - a4.len());
                                },
                            }
                        },
                    }
                },
            }
        },
    }
}

/// Sparse arrays that mirror one another are the same array.
pub proof fn lemma_mirrored_sparse(a: Seq<u8>, b: Seq<u8>, le: bool, flags: ArrayFlags)
    requires
        a.len() == b.len(),
        subelements_mirror(a, b, le, 6),
    ensures
        mirrored(
            spec_parse_sparse_matrix_subelements(a, le, flags),
            spec_parse_sparse_matrix_subelements(b, !le, flags),
            a,
            b,
        ),
{
    reveal_with_fuel(subelements_mirror, 7);
    lemma_mirrored_dimensions(a, b, le);
    lemma_integers_are_numeric(a, le);
    match spec_parse_dimensions_array_subelement(a, le) {
        Err(_) => {},
        Ok((a1, dims)) => {
            let b1 = b.skip(a.len() - a1.len());
            lemma_mirrored_name(a1, b1, le);
            lemma_integers_are_numeric(a1, le);
            match spec_parse_array_name_subelement(a1, le) {
                Err(_) => {},
                Ok((a2, name)) => {
                    let b2 = b1.skip(a1.len() - a2.len());
                    lemma_skip_twice(b, a.len() - a1.len(), a1.len() - a2.len());
                    lemma_mirrored_indices(a2, b2, le);
                    lemma_integers_are_numeric(a2, le);
                    match spec_parse_index_array_subelement(a2, le) {
                        Err(_) => {},
                        Ok((a3, rows)) => {
                            let b3 = b2.skip(a2.len() - a3.len());
                            lemma_skip_twice(b, a.len() - a2.len(), a2.len() - a3.len());
                            lemma_mirrored_indices(a3, b3, le);
                            lemma_integers_are_numeric(a3, le);
                            match spec_parse_index_array_subelement(a3, le) {
                                Err(_) => {},
                                Ok((a4, columns)) => {
                                    let b4 = b3.skip(a3.len() - a4.len());
                                    lemma_skip_twice(b, a.len() - a3.len(), a3.len() - a4.len());
                                    lemma_mirrored_numeric_data_element(a4, b4, le);
                                    match spec_parse_numeric_data_element(a4, le) {
                                        Err(_) => {},
                                        Ok((a5, real_part)) => {
                                            let b5 = b4.skip(a4.len() - a5.len());
                                            lemma_skip_twice(
                                                b,
                                                a.len() - a4.len(),
                                                a4.len() - a5.len(),
                                            );
                                            lemma_mirrored_numeric_data_element(a5, b5, le);
                                            match spec_parse_numeric_data_element(a5, le) {
                                                Err(_) => {},
                                                Ok((a6, imag_part)) => {
                                                    lemma_skip_twice(
                                                        b,
                                                        a.len() - a5.len(),
                                                        a5.len() - a6.len(),
                                                    );
                                                },
                                            }
                                        },
                                    }
                                },
                            }
                        },
                    }
                },
            }
        },
    }
}

/// Matrix payloads that mirror one another decode to the same element.
pub proof fn lemma_mirrored_matrix(a: Seq<u8>, b: Seq<u8>, le: bool)
    requires
        matrix_mirrors(a, b, le),
    ensures
        spec_parse_matrix_data_element(a, le) == spec_parse_matrix_data_element(b, !le),
{
    lemma_mirrored_flags(a, b, le);
    reveal(spec_parse_array_flags_subelement);
    match spec_parse_array_flags_subelement(a, le) {
        Err(_) => {},
        Ok((rest, flags)) => {
            assert(rest == a.skip(16));
            reveal_with_fuel(subelements_mirror, 3);
            lemma_mirrored_sparse(a.skip(16), b.skip(16), le, flags);
            lemma_subelements_mirror_fewer(a.skip(16), b.skip(16), le, 6, 4);
            lemma_mirrored_dense(a.skip(16), b.skip(16), le, flags);
        },
    }
}

/// Subelements that mirror one another do so in any smaller number.
pub proof fn lemma_subelements_mirror_fewer(
    a: Seq<u8>,
    b: Seq<u8>,
    le: bool,
    count: nat,
    fewer: nat,
)
    requires
        subelements_mirror(a, b, le, count),
        fewer <= count,
    ensures
        subelements_mirror(a, b, le, fewer),
    decreases fewer,
{
    if fewer > 0 {
        match spec_parse_numeric_data_element(a, le) {
            Ok((rest, data)) => {
                lemma_subelements_mirror_fewer(
                    rest,
                    b.skip(a.len() - rest.len()),
                    le,
                    (count - 1) as nat,
                    (fewer - 1) as nat,
                );
            },
            Err(_) => {},
        }
    }
}

/// The elements at the start of `a` and `b` mirror one another: the tags,
/// and the payloads as far as they are read. The payloads of matrices
/// mirror one another. Compressed payloads either both fail to inflate, or
/// inflate to elements that mirror one another. Payloads that are passed
/// over need not agree at all.
pub open spec fn element_mirrors(a: Seq<u8>, b: Seq<u8>, le: bool, depth: nat) -> bool
    decreases depth,
{
    &&& tag_mirrors(a, b, le)
    &&& spec_parse_data_element_tag(a, le) matches Ok((rest, tag)) ==> tag.data_byte_size
        <= rest.len() ==> ({
        let start = a.len() - rest.len();
        let payload_a = a.subrange(start, start + tag.data_byte_size);
        let payload_b = b.subrange(start, start + tag.data_byte_size);
        match tag.data_type {
            DataType::Matrix => matrix_mirrors(payload_a, payload_b, le),
            DataType::Compressed => depth > 0 ==> (match (
                zlib_inflated(payload_a),
                zlib_inflated(payload_b),
            ) {
                (Some(inner_a), Some(inner_b)) => inner_a.len() == inner_b.len()
                    && element_mirrors(inner_a, inner_b, le, (depth - 1) as nat),
                (None, None) => true,
                _ => false,
            }),
            _ => true,
        }
    })
}

/// Elements that mirror one another decode to the same element.
pub proof fn lemma_mirrored_element(a: Seq<u8>, b: Seq<u8>, le: bool, depth: nat)
    requires
        element_mirrors(a, b, le, depth),
    ensures
        mirrored(
            spec_parse_next_data_element(a, le, depth),
            spec_parse_next_data_element(b, !le, depth),
            a,
            b,
        ),
    decreases depth,
{
    lemma_mirrored_tag(a, b, le);
    lemma_tag_leaves_a_suffix(a, le);
    match spec_parse_data_element_tag(a, le) {
        Err(_) => {},
        Ok((rest_a, tag)) => {
            let start = a.len() - rest_a.len();
            let rest_b = b.skip(start);
            let size = tag.data_byte_size as int;
            if size <= rest_a.len() {
                let payload_a = rest_a.take(size);
                let payload_b = rest_b.take(size);
                assert(payload_a =~= a.subrange(start, start + size));
                assert(payload_b =~= b.subrange(start, start + size));
                let after_a = rest_a.skip(size);
                let after_b = rest_b.skip(size);
                assert(after_b =~= b.skip(a.len() - after_a.len()));
                let padding = tag.padding_byte_size as int;
                if after_a.len() >= padding {
                    assert(after_b.skip(padding) =~= b.skip(
                        a.len() - after_a.skip(padding).len(),
                    ));
                }
                match tag.data_type {
                    DataType::Matrix => {
                        lemma_mirrored_matrix(payload_a, payload_b, le);
                    },
                    DataType::Compressed => {
                        if depth > 0 {
                            match (zlib_inflated(payload_a), zlib_inflated(payload_b)) {
                                (Some(inner_a), Some(inner_b)) => {
                                    lemma_mirrored_element(
                                        inner_a,
                                        inner_b,
                                        le,
                                        (depth - 1) as nat,
                                    );
                                },
                                _ => {},
                            }
                        }
                    },
                    _ => {},
                }
            }
        },
    }
}

/// The elements that fill `a` and `b` mirror one another, one after the
/// other to the end.
pub open spec fn elements_mirror(a: Seq<u8>, b: Seq<u8>, le: bool) -> bool
    decreases a.len(),
{
    &&& a.len() == b.len()
    &&& a.len() > 0 ==> element_mirrors(a, b, le, MAX_NESTING as nat) && (
    spec_parse_next_data_element(a, le, MAX_NESTING as nat) matches Ok((rest, element))
        ==> rest.len() < a.len() ==> elements_mirror(rest, b.skip(a.len() - rest.len()), le))
}

/// Sequences of elements that mirror one another decode to the same
/// elements.
pub proof fn lemma_mirrored_elements(a: Seq<u8>, b: Seq<u8>, le: bool)
    requires
        elements_mirror(a, b, le),
    ensures
        spec_parse_elements(a, le) == spec_parse_elements(b, !le),
    decreases a.len(),
{
    if a.len() > 0 {
        lemma_mirrored_element(a, b, le, MAX_NESTING as nat);
        match spec_parse_next_data_element(a, le, MAX_NESTING as nat) {
            Err(_) => {},
            Ok((rest, element)) => {
                if rest.len() < a.len() {
                    lemma_mirrored_elements(rest, b.skip(a.len() - rest.len()), le);
                }
            },
        }
    }
}

/// Two files mirror one another: the first 124 bytes are the same, the
/// version and the byte order marker hold the same bytes in reverse, and
/// the elements behind them mirror one another.
pub open spec fn file_mirrors(a: Seq<u8>, b: Seq<u8>) -> bool {
    &&& a.len() == b.len()
    &&& a.len() >= 128 ==> a.take(124) == b.take(124) && b[124] == a[125] && b[125] == a[124]
        && b[126] == a[127] && b[127] == a[126] && elements_mirror(
        a.skip(128),
        b.skip(128),
        a[126] == 0x49 && a[127] == 0x4d,
    )
}

/// Byte order independence: two files that mirror one another decode to
/// the same arrays, or are rejected with the same error. Their headers
/// hold the same text and name opposite byte orders.
pub proof fn lemma_byte_order_independence(a: Seq<u8>, b: Seq<u8>)
    requires
        file_mirrors(a, b),
    ensures
        spec_mat_file(a) == spec_mat_file(b),
        match (spec_parse_all(a), spec_parse_all(b)) {
            (Ok((rest_a, result_a)), Ok((rest_b, result_b))) => result_a.data_elements
                == result_b.data_elements && result_a.header.text == result_b.header.text
                && result_a.header.is_little_endian != result_b.header.is_little_endian,
            (Err(e), Err(f)) => e == f,
            _ => false,
        },
{
    reveal(spec_parse_header);
    if a.len() >= 128 {
        assert forall|j: int| 0 <= j < 124 implies a[j] == b[j] by {
            assert(a.take(124)[j] == b.take(124)[j]);
        }
        assert(a.take(116) =~= b.take(116));
        let little = a[126] == 0x49 && a[127] == 0x4d;
        let big = a[126] == 0x4d && a[127] == 0x49;
        if little || big {
            assert(a.skip(124)[0] == a[124] && a.skip(124)[1] == a[125]);
            assert(b.skip(124)[0] == b[124] && b.skip(124)[1] == b[125]);
            lemma_mirrored_elements(a.skip(128), b.skip(128), little);
        }
    }
}

} // verus!
