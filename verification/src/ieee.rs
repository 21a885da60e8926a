//! IEEE 754 values read as bit patterns.
//!
//! Band values travel through the engine as binary32 bit patterns and
//! aggregates as binary64 bit patterns. Everything the engine has to decide
//! about such a value (is it finite, is it positive, which of two is the
//! smaller, which cell does it fall into) is decided here on the bits, with
//! the meaning of each decision stated over the integer fields of the
//! encoding.

use vstd::prelude::*;
use vstd::arithmetic::power2::{pow2, lemma2_to64, lemma_pow2_pos, lemma_pow2_strictly_increases};
use vstd::arithmetic::div_mod::lemma_basic_div;
use vstd::bits::{lemma_u64_shl_is_mul, lemma_u64_shr_is_div};

verus! {

/// Sign bit of a binary32 pattern.
pub const SIGN32: u32 = 0x8000_0000;

/// Positive infinity as a binary32 pattern; every larger magnitude is a NaN.
pub const INFINITY32: u32 = 0x7f80_0000;

/// Sign bit of a binary64 pattern.
pub const SIGN64: u64 = 0x8000_0000_0000_0000;

/// Positive infinity as a binary64 pattern; every larger magnitude is a NaN.
pub const INFINITY64: u64 = 0x7ff0_0000_0000_0000;

/// The quiet NaN that marks a missing output value.
pub const NAN64: u64 = 0x7ff8_0000_0000_0000;

/// Weight of the implicit leading bit of a binary64 significand, 2^52.
pub const HIDDEN64: u64 = 0x10_0000_0000_0000;

/// Biased exponent of 1.0 plus the width of the fraction: a binary64 value
/// with biased exponent `e >= 1` is `significand * 2^(e - 1075)`.
pub const POINT64: u64 = 1075;

/// The pattern without its sign bit.
pub open spec fn magnitude32(bits: u32) -> nat {
    (bits % SIGN32) as nat
}

/// The sign bit is set.
pub open spec fn negative32(bits: u32) -> bool {
    bits >= SIGN32
}

/// Neither an infinity nor a NaN.
pub open spec fn is_finite32(bits: u32) -> bool {
    magnitude32(bits) < INFINITY32
}

/// A NaN of either sign and any payload.
pub open spec fn is_nan32(bits: u32) -> bool {
    magnitude32(bits) > INFINITY32
}

/// Position of a non-NaN binary32 value on the number line, up to a
/// monotone relabelling: negative values mirror their magnitude, and both
/// zeros land on 0.
pub open spec fn rank32(bits: u32) -> int {
    if negative32(bits) {
        -(magnitude32(bits) as int)
    } else {
        magnitude32(bits) as int
    }
}

/// The IEEE 754 comparison `a <= b`: false as soon as one side is a NaN.
pub open spec fn le32(a: u32, b: u32) -> bool {
    !is_nan32(a) && !is_nan32(b) && rank32(a) <= rank32(b)
}

/// The pattern without its sign bit.
pub open spec fn magnitude64(bits: u64) -> nat {
    (bits % SIGN64) as nat
}

/// The sign bit is set.
pub open spec fn negative64(bits: u64) -> bool {
    bits >= SIGN64
}

/// Neither an infinity nor a NaN.
pub open spec fn is_finite64(bits: u64) -> bool {
    magnitude64(bits) < INFINITY64
}

/// A NaN of either sign and any payload.
pub open spec fn is_nan64(bits: u64) -> bool {
    magnitude64(bits) > INFINITY64
}

/// Finite and strictly greater than zero.
pub open spec fn is_positive_finite64(bits: u64) -> bool {
    !negative64(bits) && 0 < magnitude64(bits) && is_finite64(bits)
}

/// Position of a non-NaN binary64 value on the number line, up to a
/// monotone relabelling: negative values mirror their magnitude, and both
/// zeros land on 0.
pub open spec fn rank64(bits: u64) -> int {
    if negative64(bits) {
        -(magnitude64(bits) as int)
    } else {
        magnitude64(bits) as int
    }
}

/// The IEEE 754 comparison `a < b`: false as soon as one side is a NaN.
pub open spec fn lt64(a: u64, b: u64) -> bool {
    !is_nan64(a) && !is_nan64(b) && rank64(a) < rank64(b)
}

/// Biased exponent field, 0 through 2047.
pub open spec fn exponent64(bits: u64) -> nat {
    magnitude64(bits) / (HIDDEN64 as nat)
}

/// Fraction field, the low 52 bits.
pub open spec fn fraction64(bits: u64) -> nat {
    (bits % HIDDEN64) as nat
}

/// Integer significand of a finite value: the fraction, with the implicit
/// leading bit for normal numbers.
pub open spec fn significand64(bits: u64) -> nat {
    if exponent64(bits) == 0 {
        fraction64(bits)
    } else {
        HIDDEN64 as nat + fraction64(bits)
    }
}

/// Power of two that scales the significand: the absolute value of a finite
/// pattern is `significand64(bits) * 2^scale64(bits)`.
pub open spec fn scale64(bits: u64) -> int {
    if exponent64(bits) == 0 {
        1 - POINT64
    } else {
        exponent64(bits) - POINT64
    }
}

/// Largest integer not above the absolute value of a finite pattern.
pub open spec fn floor_magnitude64(bits: u64) -> nat {
    if scale64(bits) >= 0 {
        significand64(bits) * pow2(scale64(bits) as nat)
    } else {
        significand64(bits) / pow2((-scale64(bits)) as nat)
    }
}

/// The value lies in the half-open interval `[0, limit)`. Negative zero
/// counts as zero; infinities and NaNs lie nowhere.
pub open spec fn in_half_open64(bits: u64, limit: nat) -> bool {
    &&& is_finite64(bits)
    &&& !negative64(bits) || magnitude64(bits) == 0
    &&& floor_magnitude64(bits) < limit
}

/// Whether a binary32 pattern is finite.
pub fn finite32(bits: u32) -> (r: bool)
    ensures
        r == is_finite32(bits),
{
    assert(bits & 0x7fff_ffff == bits % 0x8000_0000) by (bit_vector);
    (bits & 0x7fff_ffff) < INFINITY32
}

/// `a <= b` on two binary32 patterns, as the hardware compares them.
pub fn less_equal32(a: u32, b: u32) -> (r: bool)
    ensures
        r == le32(a, b),
{
    assert(a & 0x7fff_ffff == a % 0x8000_0000) by (bit_vector);
    assert(b & 0x7fff_ffff == b % 0x8000_0000) by (bit_vector);
    let ma: u32 = a & 0x7fff_ffff;
    let mb: u32 = b & 0x7fff_ffff;
    if ma > INFINITY32 || mb > INFINITY32 {
        false
    } else if a >= SIGN32 {
        if b >= SIGN32 {
            mb <= ma
        } else {
            true
        }
    } else if b >= SIGN32 {
        ma == 0 && mb == 0
    } else {
        ma <= mb
    }
}

/// Whether a binary64 pattern is finite and greater than zero.
pub fn positive_finite64(bits: u64) -> (r: bool)
    ensures
        r == is_positive_finite64(bits),
{
    0 < bits && bits < INFINITY64
}

/// `a < b` on two binary64 patterns, as the hardware compares them.
pub fn less64(a: u64, b: u64) -> (r: bool)
    ensures
        r == lt64(a, b),
{
    assert(a & 0x7fff_ffff_ffff_ffff == a % 0x8000_0000_0000_0000) by (bit_vector);
    assert(b & 0x7fff_ffff_ffff_ffff == b % 0x8000_0000_0000_0000) by (bit_vector);
    let ma: u64 = a & 0x7fff_ffff_ffff_ffff;
    let mb: u64 = b & 0x7fff_ffff_ffff_ffff;
    if ma > INFINITY64 || mb > INFINITY64 {
        false
    } else if a >= SIGN64 {
        if b >= SIGN64 {
            mb < ma
        } else {
            ma != 0 || mb != 0
        }
    } else if b >= SIGN64 {
        false
    } else {
        ma < mb
    }
}

/// Floor of a binary64 value as an index below `limit`.
///
/// Gives the index exactly when the value lies in `[0, limit)`, and nothing
/// for a negative value, a value at or past the limit, an infinity or a NaN.
pub fn floor_index(bits: u64, limit: usize) -> (r: Option<usize>)
    ensures
        r == if in_half_open64(bits, limit as nat) {
            Some(floor_magnitude64(bits) as usize)
        } else {
            None::<usize>
        },
{
    assert(bits & 0x7fff_ffff_ffff_ffff == bits % 0x8000_0000_0000_0000) by (bit_vector);
    assert((bits & 0x7fff_ffff_ffff_ffff) >> 52 == (bits % 0x8000_0000_0000_0000)
        / 0x10_0000_0000_0000) by (bit_vector);
    assert(bits & 0xf_ffff_ffff_ffff == bits % 0x10_0000_0000_0000) by (bit_vector);
    let magnitude: u64 = bits & 0x7fff_ffff_ffff_ffff;
    let exponent: u64 = magnitude >> 52;
    let fraction: u64 = bits & 0xf_ffff_ffff_ffff;
    assert(exponent == exponent64(bits));
    assert(fraction == fraction64(bits));
    assert(exponent < 0x800 && fraction < HIDDEN64);
    if magnitude >= INFINITY64 {
        return None;
    }
    if bits >= SIGN64 && magnitude != 0 {
        return None;
    }
    if exponent < 1023 {
        // below one: the significand is smaller than the divisor
        proof {
            let shift = (-scale64(bits)) as nat;
            lemma2_to64();
            vstd::arithmetic::power2::lemma2_to64_rest();
            assert(shift >= 53);
            if shift > 53 {
                lemma_pow2_strictly_increases(53, shift);
            }
            assert(significand64(bits) < pow2(shift));
            lemma_basic_div(significand64(bits) as int, pow2(shift) as int);
            assert(floor_magnitude64(bits) == 0);
        }
        return if 0 < limit {
            Some(0)
        } else {
            None
        };
    }
    let significand: u64 = HIDDEN64 + fraction;
    assert(significand == significand64(bits));
    if exponent <= POINT64 {
        let shift: u64 = POINT64 - exponent;
        let whole: u64 = significand >> shift;
        proof {
            lemma_u64_shr_is_div(significand, shift);
            if shift == 0 {
                lemma2_to64();
                let one = pow2(0);
                let m = significand64(bits);
                assert(m * one == m && m / one == m) by (nonlinear_arith)
                    requires
                        one == 1,
                ;
            }
            assert(whole == floor_magnitude64(bits));
        }
        if whole < limit as u64 {
            Some(whole as usize)
        } else {
            None
        }
    } else if exponent - POINT64 <= 11 {
        let shift: u64 = exponent - POINT64;
        proof {
            lemma2_to64();
            if shift < 11 {
                lemma_pow2_strictly_increases(shift as nat, 11);
            }
            assert(pow2(shift as nat) <= 0x800);
            assert(significand * pow2(shift as nat) <= 0x1f_ffff_ffff_ffff * 0x800)
                by (nonlinear_arith)
                requires
                    significand <= 0x1f_ffff_ffff_ffff,
                    pow2(shift as nat) <= 0x800,
            ;
            lemma_u64_shl_is_mul(significand, shift);
        }
        let whole: u64 = significand << shift;
        assert(whole == floor_magnitude64(bits));
        if whole < limit as u64 {
            Some(whole as usize)
        } else {
            None
        }
    } else {
        // at least 2^64: past every limit
        proof {
            let shift = scale64(bits) as nat;
            lemma2_to64();
            if shift > 12 {
                lemma_pow2_strictly_increases(12, shift);
            }
            assert(significand * pow2(shift) >= 0x10_0000_0000_0000 * 0x1000)
                by (nonlinear_arith)
                requires
                    significand >= 0x10_0000_0000_0000,
                    pow2(shift) >= 0x1000,
            ;
            assert(floor_magnitude64(bits) >= 0x1_0000_0000_0000_0000);
        }
        None
    }
}

/// `floor_magnitude64` is the floor of the value: scaled back by the power
/// of two it was divided by, it is at most the significand, and one more
/// would exceed it. Where nothing was divided the value is itself whole.
pub proof fn floor_magnitude_brackets(bits: u64)
    requires
        is_finite64(bits),
    ensures
        scale64(bits) < 0 ==> {
            let unit = pow2((-scale64(bits)) as nat);
            &&& floor_magnitude64(bits) * unit <= significand64(bits)
            &&& significand64(bits) < (floor_magnitude64(bits) + 1) * unit
        },
        scale64(bits) >= 0 ==> floor_magnitude64(bits) == significand64(bits) * pow2(
            scale64(bits) as nat,
        ),
{
    if scale64(bits) < 0 {
        let unit = pow2((-scale64(bits)) as nat);
        let m = significand64(bits);
        lemma_pow2_pos((-scale64(bits)) as nat);
        assert(m == unit * (m / unit) + m % unit) by {
            vstd::arithmetic::div_mod::lemma_fundamental_div_mod(m as int, unit as int);
        }
        assert(0 <= m % unit < unit);
        assert((m / unit) * unit == unit * (m / unit)) by (nonlinear_arith);
        assert((m / unit + 1) * unit == unit * (m / unit) + unit) by (nonlinear_arith);
    }
}

/// Half a pixel past a whole number floors to that number: a pattern whose
/// value is `k + 1/2` has floor `k`. That the value, `significand64(bits)`
/// divided by a power of two, equals `k + 1/2` is stated without fractions,
/// both sides doubled and multiplied by that power.
pub proof fn floor_of_pixel_centre(bits: u64, k: nat)
    requires
        is_finite64(bits),
        scale64(bits) < 0,
        2 * significand64(bits) == (2 * k + 1) * pow2((-scale64(bits)) as nat),
    ensures
        floor_magnitude64(bits) == k,
{
    let unit = pow2((-scale64(bits)) as nat);
    let m = significand64(bits);
    let f = floor_magnitude64(bits);
    floor_magnitude_brackets(bits);
    lemma_pow2_pos((-scale64(bits)) as nat);
    assert(f == k) by (nonlinear_arith)
        requires
            unit > 0,
            f * unit <= m,
            m < (f + 1) * unit,
            2 * m == (2 * k + 1) * unit,
    ;
}

} // verus!
