//! Fixed-width integers as they lie in a byte stream, in either byte order.

use vstd::prelude::*;

verus! {

/// The unsigned 16-bit value of the first two bytes of `s`.
pub open spec fn spec_u16(s: Seq<u8>, le: bool) -> int {
    if le {
        s[0] as int + 0x100 * (s[1] as int)
    } else {
        s[1] as int + 0x100 * (s[0] as int)
    }
}

/// The unsigned 32-bit value of the first four bytes of `s`.
pub open spec fn spec_u32(s: Seq<u8>, le: bool) -> int {
    if le {
        s[0] as int + 0x100 * (s[1] as int) + 0x1_0000 * (s[2] as int) + 0x100_0000 * (s[3] as int)
    } else {
        s[3] as int + 0x100 * (s[2] as int) + 0x1_0000 * (s[1] as int) + 0x100_0000 * (s[0] as int)
    }
}

/// The unsigned 64-bit value of the first eight bytes of `s`.
pub open spec fn spec_u64(s: Seq<u8>, le: bool) -> int {
    if le {
        spec_u32(s, true) + 0x1_0000_0000 * spec_u32(s.skip(4), true)
    } else {
        spec_u32(s.skip(4), false) + 0x1_0000_0000 * spec_u32(s, false)
    }
}

/// The unsigned value of the first `width` bytes of `s`, for the widths
/// 1, 2, 4 and 8; zero for any other width.
pub open spec fn spec_word(s: Seq<u8>, width: int, le: bool) -> int {
    if width == 1 {
        s[0] as int
    } else if width == 2 {
        spec_u16(s, le)
    } else if width == 4 {
        spec_u32(s, le)
    } else if width == 8 {
        spec_u64(s, le)
    } else {
        0
    }
}

/// The value of an unsigned `bits`-wide word read as two's complement.
pub open spec fn spec_signed(word: int, bits: int) -> int {
    if bits == 8 {
        if word >= 0x80 { word - 0x100 } else { word }
    } else if bits == 16 {
        if word >= 0x8000 { word - 0x1_0000 } else { word }
    } else if bits == 32 {
        if word >= 0x8000_0000 { word - 0x1_0000_0000 } else { word }
    } else {
        if word >= 0x8000_0000_0000_0000 { word - 0x1_0000_0000_0000_0000 } else { word }
    }
}

/// Reads the 16-bit word at `off`.
pub fn read_u16(i: &[u8], off: usize, le: bool) -> (r: u16)
    requires
        off + 2 <= i@.len(),
    ensures
        r as int == spec_u16(i@.skip(off as int), le),
{
    let a: u16 = i[off] as u16;
    let b: u16 = i[off + 1] as u16;
    if le {
        a + 0x100 * b
    } else {
        b + 0x100 * a
    }
}

/// Reads the 32-bit word at `off`.
pub fn read_u32(i: &[u8], off: usize, le: bool) -> (r: u32)
    requires
        off + 4 <= i@.len(),
    ensures
        r as int == spec_u32(i@.skip(off as int), le),
{
    let a: u32 = i[off] as u32;
    let b: u32 = i[off + 1] as u32;
    let c: u32 = i[off + 2] as u32;
    let d: u32 = i[off + 3] as u32;
    if le {
        a + 0x100 * b + 0x1_0000 * c + 0x100_0000 * d
    } else {
        d + 0x100 * c + 0x1_0000 * b + 0x100_0000 * a
    }
}

/// Reads the 64-bit word at `off`.
pub fn read_u64(i: &[u8], off: usize, le: bool) -> (r: u64)
    requires
        off + 8 <= i@.len(),
    ensures
        r as int == spec_u64(i@.skip(off as int), le),
{
    let len: usize = i.len();
    assert(off + 8 <= len);
    let first: u64 = read_u32(i, off, le) as u64;
    let second: u64 = read_u32(i, off + 4, le) as u64;
    proof {
        assert(i@.skip(off as int).skip(4) =~= i@.skip(off + 4));
    }
    if le {
        first + 0x1_0000_0000 * second
    } else {
        second + 0x1_0000_0000 * first
    }
}

/// Reads the word of `width` bytes at `off`.
pub fn read_word(i: &[u8], off: usize, width: usize, le: bool) -> (r: u64)
    requires
        width == 1 || width == 2 || width == 4 || width == 8,
        off + width <= i@.len(),
    ensures
        r as int == spec_word(i@.skip(off as int), width as int, le),
        width == 1 ==> r < 0x100,
        width == 2 ==> r < 0x1_0000,
        width == 4 ==> r < 0x1_0000_0000,
{
    if width == 1 {
        i[off] as u64
    } else if width == 2 {
        read_u16(i, off, le) as u64
    } else if width == 4 {
        read_u32(i, off, le) as u64
    } else {
        read_u64(i, off, le)
    }
}

/// A word read in one byte order equals the word read in the other order
/// from the same bytes in reverse.
pub proof fn lemma_byte_order_symmetry(a: Seq<u8>, b: Seq<u8>, width: int, le: bool)
    requires
        width == 1 || width == 2 || width == 4 || width == 8,
        a.len() >= width,
        b.len() >= width,
        forall|j: int| 0 <= j < width ==> #[trigger] b[j] == a[width - 1 - j],
    ensures
        spec_word(a, width, le) == spec_word(b, width, !le),
{
    if width == 8 {
        assert(a.skip(4)[0] == a[4] && a.skip(4)[1] == a[5] && a.skip(4)[2] == a[6] && a.skip(4)[3]
            == a[7]);
        assert(b.skip(4)[0] == b[4] && b.skip(4)[1] == b[5] && b.skip(4)[2] == b[6] && b.skip(4)[3]
            == b[7]);
        assert(b[0] == a[7] && b[1] == a[6] && b[2] == a[5] && b[3] == a[4]);
        assert(b[4] == a[3] && b[5] == a[2] && b[6] == a[1] && b[7] == a[0]);
    } else if width == 4 {
        assert(b[0] == a[3] && b[1] == a[2] && b[2] == a[1] && b[3] == a[0]);
    } else if width == 2 {
        assert(b[0] == a[1] && b[1] == a[0]);
    } else {
        assert(b[0] == a[0]);
    }
}

/// `s` with every whole group of `width` bytes reversed.
pub open spec fn spec_swapped(s: Seq<u8>, width: int) -> Seq<u8> {
    Seq::new(
        s.len(),
        |i: int|
            if (i / width) * width + width <= s.len() {
                s[(i / width) * width + (width - 1 - i % width)]
            } else {
                s[i]
            },
    )
}

} // verus!
