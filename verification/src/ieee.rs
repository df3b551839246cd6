//! IEEE 754 bit patterns of integers.
//!
//! Floating point samples travel through this crate as bit patterns. When
//! an integer payload fills an array of floating point class, each integer
//! becomes the pattern of the nearest floating point value, ties going to
//! the even mantissa.

use vstd::arithmetic::power2::{
    lemma2_to64, lemma2_to64_rest, lemma_pow2_adds, lemma_pow2_strictly_increases,
    lemma_pow2_unfold, pow2,
};
use vstd::prelude::*;

verus! {

/// The position of the highest set bit of `m`: the `e` with
/// `2^e <= m < 2^(e+1)`, for a positive `m`.
pub open spec fn spec_floor_log2(m: int) -> nat
    decreases m,
{
    if m <= 1 {
        0
    } else {
        1 + spec_floor_log2(m / 2)
    }
}

/// The distance of `x` from zero.
pub open spec fn spec_magnitude(x: int) -> int {
    if x < 0 {
        -x
    } else {
        x
    }
}

/// The bit pattern of the double precision value of `x`, for an `x` of at
/// most 53 significant bits: sign, then the exponent with a bias of 1023,
/// then the 52 bits below the leading one.
pub open spec fn spec_double_bits(x: int) -> int {
    if x == 0 {
        0
    } else {
        let m = spec_magnitude(x);
        let e = spec_floor_log2(m);
        let sign: int = if x < 0 {
            0x8000_0000_0000_0000
        } else {
            0
        };
        sign + (e + 1023) * 0x10_0000_0000_0000 + (m * pow2((52 - e) as nat)
            - 0x10_0000_0000_0000)
    }
}

/// The bit pattern of the single precision value nearest to `x`: sign,
/// then the exponent with a bias of 127, then the 23 bits below the
/// leading one. Where `x` has more than 24 significant bits the lower ones
/// are rounded off, to the nearest value and on a tie to the even one; a
/// carry out of the mantissa raises the exponent.
pub open spec fn spec_single_bits(x: int) -> int {
    if x == 0 {
        0
    } else {
        let m = spec_magnitude(x);
        let e = spec_floor_log2(m);
        let sign: int = if x < 0 {
            0x8000_0000
        } else {
            0
        };
        if e <= 23 {
            sign + (e + 127) * 0x80_0000 + (m * pow2((23 - e) as nat) - 0x80_0000)
        } else {
            let unit = pow2((e - 23) as nat) as int;
            let kept = m / unit;
            let dropped = m % unit;
            let up: int = if 2 * dropped > unit || (2 * dropped == unit && kept % 2 == 1) {
                1
            } else {
                0
            };
            sign + (e + 127) * 0x80_0000 + (kept + up - 0x80_0000)
        }
    }
}

/// The highest set bit of `m` is bit `e` where `2^e <= m < 2^(e+1)`.
pub proof fn lemma_floor_log2(m: int, e: nat)
    requires
        pow2(e) <= m < 2 * pow2(e),
    ensures
        spec_floor_log2(m) == e,
    decreases e,
{
    if e == 0 {
        lemma2_to64();
    } else {
        lemma_pow2_unfold(e);
        lemma_floor_log2(m / 2, (e - 1) as nat);
    }
}

/// Finds the highest set bit of `m`: its position and its weight.
pub(crate) fn highest_bit(m: u64) -> (r: (u32, u64))
    requires
        0 < m <= 0x8000_0000,
    ensures
        r.0 as nat == spec_floor_log2(m as int),
        r.0 <= 31,
        r.1 as nat == pow2(r.0 as nat),
        r.1 <= m < 2 * r.1,
{
    let mut e: u32 = 0;
    let mut p: u64 = 1;
    proof {
        lemma2_to64();
    }
    while 2 * p <= m
        invariant
            p as nat == pow2(e as nat),
            0 < p <= m <= 0x8000_0000,
            e <= 31,
            p == 0x8000_0000 || e < 31,
        decreases m - p,
    {
        proof {
            lemma_pow2_unfold((e + 1) as nat);
            lemma2_to64();
            if e >= 30 {
                assert(pow2(31) == 0x8000_0000);
                assert(pow2(30) == 0x4000_0000);
                assert(e == 30);
            }
        }
        p = 2 * p;
        e = e + 1;
    }
    proof {
        lemma_floor_log2(m as int, e as nat);
    }
    (e, p)
}

/// Computes `2^n`.
pub(crate) fn power_of_two(n: u32) -> (r: u64)
    requires
        n <= 52,
    ensures
        r as nat == pow2(n as nat),
        r <= 0x10_0000_0000_0000,
{
    let mut k: u32 = 0;
    let mut p: u64 = 1;
    proof {
        lemma2_to64();
        lemma2_to64_rest();
    }
    while k < n
        invariant
            k <= n <= 52,
            p as nat == pow2(k as nat),
            pow2(52) == 0x10_0000_0000_0000,
            p * pow2((52 - k) as nat) == pow2(52),
        decreases n - k,
    {
        proof {
            lemma_pow2_unfold((k + 1) as nat);
            lemma_pow2_unfold((52 - k) as nat);
            let q = pow2((52 - k - 1) as nat);
            assert(p * (2 * q) == (2 * p) * q) by (nonlinear_arith);
            assert(q >= 1) by {
                vstd::arithmetic::power2::lemma_pow2_pos((52 - k - 1) as nat);
            }
            assert(2 * p <= (2 * p) * q) by (nonlinear_arith)
                requires
                    q >= 1,
                    p >= 0,
            ;
        }
        p = 2 * p;
        k = k + 1;
    }
    proof {
        let q = pow2((52 - k) as nat);
        assert(q >= 1) by {
            vstd::arithmetic::power2::lemma_pow2_pos((52 - k) as nat);
        }
        assert(p <= p * q) by (nonlinear_arith)
            requires
                q >= 1,
                p >= 0,
        ;
    }
    p
}

/// The bit pattern of `x` as a double precision value.
pub fn double_bits_from_i32(x: i32) -> (r: u64)
    ensures
        r as int == spec_double_bits(x as int),
{
    if x == 0 {
        return 0;
    }
    let wide: i64 = x as i64;
    let m: u64 = if wide < 0 {
        (-wide) as u64
    } else {
        wide as u64
    };
    let (e, p) = highest_bit(m);
    let q: u64 = power_of_two(52 - e);
    proof {
        lemma_pow2_adds(e as nat, (52 - e) as nat);
        lemma2_to64_rest();
        assert(p * q == 0x10_0000_0000_0000);
        assert(m * q >= p * q && m * q < 2 * (p * q)) by (nonlinear_arith)
            requires
                p <= m < 2 * p,
                q > 0,
        ;
    }
    let mantissa: u64 = m * q - 0x10_0000_0000_0000;
    let exponent: u64 = (e as u64 + 1023) * 0x10_0000_0000_0000;
    let sign: u64 = if x < 0 {
        0x8000_0000_0000_0000
    } else {
        0
    };
    sign + exponent + mantissa
}

/// The bit pattern of the single precision value nearest to `x`.
pub fn single_bits_from_i32(x: i32) -> (r: u32)
    ensures
        r as int == spec_single_bits(x as int),
{
    if x == 0 {
        return 0;
    }
    let wide: i64 = x as i64;
    let m: u64 = if wide < 0 {
        (-wide) as u64
    } else {
        wide as u64
    };
    let (e, p) = highest_bit(m);
    let sign: u32 = if x < 0 {
        0x8000_0000
    } else {
        0
    };
    let exponent: u32 = (e + 127) * 0x80_0000;
    if e <= 23 {
        let q: u64 = power_of_two(23 - e);
        proof {
            lemma_pow2_adds(e as nat, (23 - e) as nat);
            lemma2_to64();
            assert(p * q == 0x80_0000);
            assert(m * q >= p * q && m * q < 2 * (p * q)) by (nonlinear_arith)
                requires
                    p <= m < 2 * p,
                    q > 0,
            ;
        }
        let mantissa: u32 = (m * q - 0x80_0000) as u32;
        sign + exponent + mantissa
    } else {
        let unit: u64 = power_of_two(e - 23);
        proof {
            lemma_pow2_adds(23, (e - 23) as nat);
            lemma2_to64();
            assert(p == 0x80_0000 * unit);
            assert(m / unit >= 0x80_0000 && m / unit < 0x100_0000) by (nonlinear_arith)
                requires
                    0x80_0000 * unit <= m < 2 * (0x80_0000 * unit),
                    unit > 0,
            ;
            assert(m % unit < unit) by (nonlinear_arith)
                requires
                    unit > 0,
            ;
        }
        let kept: u64 = m / unit;
        let dropped: u64 = m % unit;
        let up: u64 = if 2 * dropped > unit || (2 * dropped == unit && kept % 2 == 1) {
            1
        } else {
            0
        };
        let mantissa: u32 = (kept + up - 0x80_0000) as u32;
        sign + exponent + mantissa
    }
}

/// The weight of the highest set bit of a positive `m` is at most `m` and
/// more than half of it.
pub proof fn lemma_floor_log2_bounds(m: int)
    requires
        m >= 1,
    ensures
        pow2(spec_floor_log2(m)) <= m < 2 * pow2(spec_floor_log2(m)),
    decreases m,
{
    if m == 1 {
        lemma2_to64();
    } else {
        lemma_floor_log2_bounds(m / 2);
        lemma_pow2_unfold(spec_floor_log2(m));
    }
}

/// The double precision pattern of an integer denotes that integer.
///
/// For an `x` other than zero and of at most 53 significant bits, the
/// pattern fits in 64 bits, its sign bit is set exactly if `x` is negative,
/// and its exponent field `1023 + e` and fraction field `f` give the value
/// `(1 + f / 2^52) * 2^e`, which is the distance of `x` from zero.
pub proof fn lemma_double_bits_are_exact(x: int)
    requires
        x != 0,
        -0x20_0000_0000_0000 < x < 0x20_0000_0000_0000,
    ensures
        ({
            let bits = spec_double_bits(x);
            let sign = bits / 0x8000_0000_0000_0000;
            let exponent = (bits / 0x10_0000_0000_0000) % 0x800;
            let fraction = bits % 0x10_0000_0000_0000;
            &&& 0 <= bits < 0x1_0000_0000_0000_0000
            &&& (sign == 1) == (x < 0)
            &&& 1023 <= exponent <= 1075
            &&& (0x10_0000_0000_0000 + fraction) * pow2((exponent - 1023) as nat)
                == spec_magnitude(x) * 0x10_0000_0000_0000
        }),
{
    let m = spec_magnitude(x);
    let e = spec_floor_log2(m);
    lemma_floor_log2_bounds(m);
    lemma2_to64_rest();
    if e >= 53 {
        if e > 53 {
            lemma_pow2_strictly_increases(53, e);
        }
        assert(false);
    }
    let q = pow2((52 - e) as nat) as int;
    let p = pow2(e) as int;
    lemma_pow2_adds(e, (52 - e) as nat);
    vstd::arithmetic::power2::lemma_pow2_pos((52 - e) as nat);
    assert(p * q == 0x10_0000_0000_0000);
    assert(m * q >= p * q && m * q < 2 * (p * q)) by (nonlinear_arith)
        requires
            p <= m < 2 * p,
            q > 0,
    ;
    let fraction = m * q - 0x10_0000_0000_0000;
    let sign: int = if x < 0 {
        0x8000_0000_0000_0000
    } else {
        0
    };
    let bits = sign + (e + 1023) * 0x10_0000_0000_0000 + fraction;
    assert(bits == spec_double_bits(x));
    assert(bits % 0x10_0000_0000_0000 == fraction);
    assert(bits / 0x10_0000_0000_0000 == e + 1023 + (if x < 0 {
        0x800int
    } else {
        0
    }));
    assert((0x10_0000_0000_0000 + fraction) * p == m * 0x10_0000_0000_0000) by (nonlinear_arith)
        requires
            0x10_0000_0000_0000 + fraction == m * q,
            p * q == 0x10_0000_0000_0000,
    ;
}

/// The single precision pattern of an integer of at most 24 significant
/// bits denotes that integer.
///
/// For such an `x` other than zero, the pattern fits in 32 bits, its sign
/// bit is set exactly if `x` is negative, and its exponent field `127 + e`
/// and fraction field `f` give the value `(1 + f / 2^23) * 2^e`, which is
/// the distance of `x` from zero.
pub proof fn lemma_single_bits_are_exact(x: int)
    requires
        x != 0,
        -0x100_0000 < x < 0x100_0000,
    ensures
        ({
            let bits = spec_single_bits(x);
            let sign = bits / 0x8000_0000;
            let exponent = (bits / 0x80_0000) % 0x100;
            let fraction = bits % 0x80_0000;
            &&& 0 <= bits < 0x1_0000_0000
            &&& (sign == 1) == (x < 0)
            &&& 127 <= exponent <= 150
            &&& (0x80_0000 + fraction) * pow2((exponent - 127) as nat) == spec_magnitude(x)
                * 0x80_0000
        }),
{
    let m = spec_magnitude(x);
    let e = spec_floor_log2(m);
    lemma_floor_log2_bounds(m);
    lemma2_to64();
    if e >= 24 {
        if e > 24 {
            lemma_pow2_strictly_increases(24, e);
        }
        assert(false);
    }
    let q = pow2((23 - e) as nat) as int;
    let p = pow2(e) as int;
    lemma_pow2_adds(e, (23 - e) as nat);
    vstd::arithmetic::power2::lemma_pow2_pos((23 - e) as nat);
    assert(p * q == 0x80_0000);
    assert(m * q >= p * q && m * q < 2 * (p * q)) by (nonlinear_arith)
        requires
            p <= m < 2 * p,
            q > 0,
    ;
    let fraction = m * q - 0x80_0000;
    let sign: int = if x < 0 {
        0x8000_0000
    } else {
        0
    };
    let bits = sign + (e + 127) * 0x80_0000 + fraction;
    assert(bits == spec_single_bits(x));
    assert(bits % 0x80_0000 == fraction);
    assert(bits / 0x80_0000 == e + 127 + (if x < 0 {
        0x100int
    } else {
        0
    }));
    assert((0x80_0000 + fraction) * p == m * 0x80_0000) by (nonlinear_arith)
        requires
            0x80_0000 + fraction == m * q,
            p * q == 0x80_0000,
    ;
}

} // verus!
