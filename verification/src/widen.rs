//! Lossless promotion of integer payloads to the kind of the array that
//! they fill.

use vstd::prelude::*;
use crate::ieee::{double_bits_from_i32, single_bits_from_i32, spec_double_bits, spec_single_bits};
use crate::parse::DataType;

verus! {

/// The element of kind `kind` that the integer `x` is promoted to.
///
/// A floating point kind holds the bit pattern of the value of `x`. An
/// unsigned kind of 32 or 64 bits holds `x` itself where `x` is not
/// negative, and else the word that has the bits of `x` in two's
/// complement. Every other kind holds `x` itself.
pub open spec fn spec_widened(kind: DataType, x: int) -> int {
    match kind {
        DataType::Double => spec_double_bits(x),
        DataType::Single => spec_single_bits(x),
        DataType::UInt64 => if x < 0 {
            x + 0x1_0000_0000_0000_0000
        } else {
            x
        },
        DataType::UInt32 => if x < 0 {
            x + 0x1_0000_0000
        } else {
            x
        },
        _ => x,
    }
}

/// The 64-bit word with the bits of `x` in two's complement.
pub fn unsigned64_from_i32(x: i32) -> (r: u64)
    ensures
        r as int == spec_widened(DataType::UInt64, x as int),
{
    if x >= 0 {
        x as u64
    } else {
        let below: u64 = (-(x as i64)) as u64;
        (u64::MAX - below) + 1
    }
}

/// The 32-bit word with the bits of `x` in two's complement.
pub fn unsigned32_from_i32(x: i32) -> (r: u32)
    ensures
        r as int == spec_widened(DataType::UInt32, x as int),
{
    if x >= 0 {
        x as u32
    } else {
        let below: u32 = (-(x as i64)) as u32;
        (u32::MAX - below) + 1
    }
}

/// Copies unsigned 8-bit integers into 32-bit ones.
pub fn integers_from_u8(values: &Vec<u8>) -> (r: Vec<i32>)
    ensures
        r@.len() == values@.len(),
        forall|j: int| 0 <= j < r@.len() ==> r@[j] as int == values@[j] as int,
{
    let mut out: Vec<i32> = Vec::new();
    let mut k: usize = 0;
    while k < values.len()
        invariant
            k <= values.len(),
            out@.len() == k,
            forall|j: int| 0 <= j < k ==> out@[j] as int == values@[j] as int,
        decreases values.len() - k,
    {
        out.push(values[k] as i32);
        k += 1;
    }
    out
}

/// Copies signed 16-bit integers into 32-bit ones.
pub fn integers_from_i16(values: &Vec<i16>) -> (r: Vec<i32>)
    ensures
        r@.len() == values@.len(),
        forall|j: int| 0 <= j < r@.len() ==> r@[j] as int == values@[j] as int,
{
    let mut out: Vec<i32> = Vec::new();
    let mut k: usize = 0;
    while k < values.len()
        invariant
            k <= values.len(),
            out@.len() == k,
            forall|j: int| 0 <= j < k ==> out@[j] as int == values@[j] as int,
        decreases values.len() - k,
    {
        out.push(values[k] as i32);
        k += 1;
    }
    out
}

/// Copies unsigned 16-bit integers into 32-bit ones.
pub fn integers_from_u16(values: &Vec<u16>) -> (r: Vec<i32>)
    ensures
        r@.len() == values@.len(),
        forall|j: int| 0 <= j < r@.len() ==> r@[j] as int == values@[j] as int,
{
    let mut out: Vec<i32> = Vec::new();
    let mut k: usize = 0;
    while k < values.len()
        invariant
            k <= values.len(),
            out@.len() == k,
            forall|j: int| 0 <= j < k ==> out@[j] as int == values@[j] as int,
        decreases values.len() - k,
    {
        out.push(values[k] as i32);
        k += 1;
    }
    out
}

/// Promotes 32-bit integers to the bit patterns of their double precision values.
pub fn double_from_integers(values: &Vec<i32>) -> (r: Vec<u64>)
    ensures
        r@.len() == values@.len(),
        forall|j: int|
            0 <= j < r@.len() ==> r@[j] as int == spec_widened(DataType::Double, values@[j] as int),
{
    let mut out: Vec<u64> = Vec::new();
    let mut k: usize = 0;
    while k < values.len()
        invariant
            k <= values.len(),
            out@.len() == k,
            forall|j: int|
                0 <= j < k ==> out@[j] as int == spec_widened(
                    DataType::Double,
                    values@[j] as int,
                ),
        decreases values.len() - k,
    {
        out.push(double_bits_from_i32(values[k]));
        k += 1;
    }
    out
}

/// Promotes 32-bit integers to the bit patterns of the nearest single precision values.
pub fn single_from_integers(values: &Vec<i32>) -> (r: Vec<u32>)
    ensures
        r@.len() == values@.len(),
        forall|j: int|
            0 <= j < r@.len() ==> r@[j] as int == spec_widened(DataType::Single, values@[j] as int),
{
    let mut out: Vec<u32> = Vec::new();
    let mut k: usize = 0;
    while k < values.len()
        invariant
            k <= values.len(),
            out@.len() == k,
            forall|j: int|
                0 <= j < k ==> out@[j] as int == spec_widened(
                    DataType::Single,
                    values@[j] as int,
                ),
        decreases values.len() - k,
    {
        out.push(single_bits_from_i32(values[k]));
        k += 1;
    }
    out
}

/// Promotes 32-bit integers to unsigned 64-bit integers.
pub fn unsigned64_from_integers(values: &Vec<i32>) -> (r: Vec<u64>)
    ensures
        r@.len() == values@.len(),
        forall|j: int|
            0 <= j < r@.len() ==> r@[j] as int == spec_widened(DataType::UInt64, values@[j] as int),
{
    let mut out: Vec<u64> = Vec::new();
    let mut k: usize = 0;
    while k < values.len()
        invariant
            k <= values.len(),
            out@.len() == k,
            forall|j: int|
                0 <= j < k ==> out@[j] as int == spec_widened(
                    DataType::UInt64,
                    values@[j] as int,
                ),
        decreases values.len() - k,
    {
        out.push(unsigned64_from_i32(values[k]));
        k += 1;
    }
    out
}

/// Promotes 32-bit integers to signed 64-bit integers.
pub fn signed64_from_integers(values: &Vec<i32>) -> (r: Vec<i64>)
    ensures
        r@.len() == values@.len(),
        forall|j: int|
            0 <= j < r@.len() ==> r@[j] as int == spec_widened(DataType::Int64, values@[j] as int),
{
    let mut out: Vec<i64> = Vec::new();
    let mut k: usize = 0;
    while k < values.len()
        invariant
            k <= values.len(),
            out@.len() == k,
            forall|j: int|
                0 <= j < k ==> out@[j] as int == spec_widened(
                    DataType::Int64,
                    values@[j] as int,
                ),
        decreases values.len() - k,
    {
        out.push(values[k] as i64);
        k += 1;
    }
    out
}

/// Promotes 32-bit integers to unsigned 32-bit integers.
pub fn unsigned32_from_integers(values: &Vec<i32>) -> (r: Vec<u32>)
    ensures
        r@.len() == values@.len(),
        forall|j: int|
            0 <= j < r@.len() ==> r@[j] as int == spec_widened(DataType::UInt32, values@[j] as int),
{
    let mut out: Vec<u32> = Vec::new();
    let mut k: usize = 0;
    while k < values.len()
        invariant
            k <= values.len(),
            out@.len() == k,
            forall|j: int|
                0 <= j < k ==> out@[j] as int == spec_widened(
                    DataType::UInt32,
                    values@[j] as int,
                ),
        decreases values.len() - k,
    {
        out.push(unsigned32_from_i32(values[k]));
        k += 1;
    }
    out
}

/// Promotes 32-bit integers to unsigned 16-bit integers.
pub(crate) fn unsigned16_from_integers(values: &Vec<i32>) -> (r: Vec<u16>)
    requires
        forall|j: int| 0 <= j < values@.len() ==> 0 <= #[trigger] values@[j] <= 255,
    ensures
        r@.len() == values@.len(),
        forall|j: int|
            0 <= j < r@.len() ==> r@[j] as int == spec_widened(DataType::UInt16, values@[j] as int),
{
    let mut out: Vec<u16> = Vec::new();
    let mut k: usize = 0;
    while k < values.len()
        invariant
            k <= values.len(),
            out@.len() == k,
            forall|j: int| 0 <= j < values@.len() ==> 0 <= #[trigger] values@[j] <= 255,
            forall|j: int|
                0 <= j < k ==> out@[j] as int == spec_widened(
                    DataType::UInt16,
                    values@[j] as int,
                ),
        decreases values.len() - k,
    {
        out.push(values[k] as u16);
        k += 1;
    }
    out
}

/// Promotes 32-bit integers to signed 16-bit integers.
pub(crate) fn signed16_from_integers(values: &Vec<i32>) -> (r: Vec<i16>)
    requires
        forall|j: int| 0 <= j < values@.len() ==> 0 <= #[trigger] values@[j] <= 255,
    ensures
        r@.len() == values@.len(),
        forall|j: int|
            0 <= j < r@.len() ==> r@[j] as int == spec_widened(DataType::Int16, values@[j] as int),
{
    let mut out: Vec<i16> = Vec::new();
    let mut k: usize = 0;
    while k < values.len()
        invariant
            k <= values.len(),
            out@.len() == k,
            forall|j: int| 0 <= j < values@.len() ==> 0 <= #[trigger] values@[j] <= 255,
            forall|j: int|
                0 <= j < k ==> out@[j] as int == spec_widened(
                    DataType::Int16,
                    values@[j] as int,
                ),
        decreases values.len() - k,
    {
        out.push(values[k] as i16);
        k += 1;
    }
    out
}

} // verus!
