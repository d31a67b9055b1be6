//! Bit-exact conversion between fixed-point integer samples and the bit
//! patterns of normalized float samples.
//!
//! A 32-bit signed integer sample spans the full two's-complement range:
//! `i32::MIN` stands for -1.0 and `i32::MAX` for 1.0. The float side is a
//! 32-bit IEEE-754 single-precision pattern (1 sign bit, 8 exponent bits,
//! 23 mantissa bits). Both directions are total functions of the bits alone,
//! so the whole codec is integer arithmetic, stated exactly by the spec
//! functions below and proved on the executable code.

use vstd::prelude::*;
use vstd::arithmetic::power2::{
    lemma2_to64, lemma_pow2_adds, lemma_pow2_pos, lemma_pow2_strictly_increases,
    lemma_pow2_unfold, pow2,
};
use vstd::arithmetic::div_mod::{
    lemma_div_by_multiple, lemma_div_denominator, lemma_fundamental_div_mod,
    lemma_fundamental_div_mod_converse, lemma_mod_division_less_than_divisor,
    lemma_multiply_divide_lt, lemma_small_mod,
};
use vstd::arithmetic::mul::{
    lemma_mul_inequality, lemma_mul_is_associative, lemma_mul_is_distributive_sub_other_way,
    lemma_mul_nonnegative,
};

verus! {

/// Floor of the base-2 logarithm of a positive number (0 for 0 and 1).
pub open spec fn log2(n: nat) -> nat
    decreases n,
{
    if n < 2 {
        0
    } else {
        (1 + log2(n / 2)) as nat
    }
}

/// `log2` really is the floor of the base-2 logarithm: `n` lies between
/// consecutive powers of two.
pub proof fn lemma_log2_bounds(n: nat)
    requires
        n >= 1,
    ensures
        pow2(log2(n)) <= n < pow2(log2(n) + 1),
    decreases n,
{
    lemma2_to64();
    if n >= 2 {
        lemma_log2_bounds(n / 2);
        lemma_fundamental_div_mod(n as int, 2);
        lemma_pow2_unfold(log2(n));
        lemma_pow2_unfold(log2(n) + 1);
    }
}

/// Only one exponent places `n` between consecutive powers of two.
pub proof fn lemma_log2_unique(n: nat, e: nat)
    requires
        pow2(e) <= n < pow2(e + 1),
    ensures
        log2(n) == e,
{
    lemma_pow2_pos(e);
    lemma_log2_bounds(n);
    if log2(n) < e {
        lemma_pow2_strictly_increases(log2(n) + 1, e + 1);
        if log2(n) + 1 < e {
            lemma_pow2_strictly_increases(log2(n) + 1, e);
        }
        assert(pow2(log2(n) + 1) <= pow2(e));
    }
    if log2(n) > e {
        if e + 1 < log2(n) {
            lemma_pow2_strictly_increases(e + 1, log2(n));
        }
        assert(pow2(e + 1) <= pow2(log2(n)));
    }
}

/// 2 to the `e`, as a `u32`.
fn pow2_u32(e: u32) -> (r: u32)
    requires
        e <= 31,
    ensures
        r == pow2(e as nat),
{
    let mut r: u32 = 1;
    let mut i: u32 = 0;
    proof {
        lemma2_to64();
    }
    while i < e
        invariant
            i <= e,
            e <= 31,
            r == pow2(i as nat),
        decreases e - i,
    {
        proof {
            lemma2_to64();
            if (i as nat) < 30 {
                lemma_pow2_strictly_increases(i as nat, 30);
            }
            lemma_pow2_unfold(i as nat + 1);
        }
        r = r * 2;
        i = i + 1;
    }
    r
}

/// Floor of the base-2 logarithm, executably: divide down to 1.
fn ilog2_u32(n: u32) -> (e: u32)
    requires
        n >= 1,
    ensures
        e <= 31,
        e == log2(n as nat),
        pow2(e as nat) <= n < pow2(e as nat + 1),
{
    let mut e: u32 = 0;
    let mut x: u32 = n;
    proof {
        lemma2_to64();
    }
    while x >= 2
        invariant
            1 <= x,
            e <= 31,
            x as nat == n as nat / pow2(e as nat),
        decreases x,
    {
        proof {
            lemma_pow2_pos(e as nat);
            // Invariant maintenance: (n / 2^e) / 2 == n / 2^(e + 1).
            lemma_div_denominator(n as int, pow2(e as nat) as int, 2);
            lemma_pow2_unfold(e as nat + 1);
            // x >= 2 here, so 2^(e + 1) <= n < 2^32, which bounds e + 1 by 31.
            lemma_fundamental_div_mod(n as int, pow2(e as nat) as int);
            lemma_mod_division_less_than_divisor(n as int, pow2(e as nat) as int);
            assert(2 * pow2(e as nat) <= (x as int) * pow2(e as nat)) by {
                lemma_mul_inequality(2, x as int, pow2(e as nat) as int);
            }
            lemma2_to64();
            if e as nat + 1 > 32 {
                lemma_pow2_strictly_increases(32, e as nat + 1);
            }
        }
        x = x / 2;
        e = e + 1;
    }
    proof {
        lemma_pow2_pos(e as nat);
        lemma_fundamental_div_mod(n as int, pow2(e as nat) as int);
        lemma_mod_division_less_than_divisor(n as int, pow2(e as nat) as int);
        lemma_pow2_unfold(e as nat + 1);
        lemma_log2_unique(n as nat, e as nat);
    }
    e
}

/// 1 for a negative integer sample, 0 otherwise: the sign bit of the pattern.
pub open spec fn sample_sign(v: int) -> nat {
    if v < 0 {
        1
    } else {
        0
    }
}

/// The magnitude an integer sample encodes. A negative sample `v` stands for
/// the magnitude `-1 - v`, so that `i32::MIN` has the same full-scale
/// magnitude as `i32::MAX` and no two's-complement overflow can occur.
pub open spec fn sample_magnitude(v: int) -> nat {
    if v < 0 {
        (-1 - v) as nat
    } else {
        v as nat
    }
}

/// The biased exponent of the pattern for a magnitude `m`: the odd value
/// `2m + 1` has its leading bit at position `log2(2m + 1)`, and the encoding
/// places full scale (`m` near `2^31`) at an exponent of 127, the exponent
/// of 1.0.
pub open spec fn exponent_field(m: nat) -> nat {
    96 + log2(2 * m + 1)
}

/// The 23-bit mantissa of the pattern for a magnitude `m`: the bits of
/// `2m + 1` below its leading bit, scaled to 24 bits, rounded half up to 23
/// bits, reduced mod `2^23`. The `+ 1` in `2m + 1` seeds the rounding; when
/// rounding carries out of the 23 bits, the mantissa wraps to zero while the
/// exponent stays, which is what pins `i32::MAX` exactly to 1.0.
pub open spec fn mantissa_field(m: nat) -> nat {
    let n = 2 * m + 1;
    let e = log2(n);
    let scaled = ((n - pow2(e)) * pow2(24)) / (pow2(e) as int);
    (((scaled + scaled % 2) / 2) % (pow2(23) as int)) as nat
}

/// The pattern `int_to_float_bits` produces: sign, biased exponent and
/// mantissa assembled bit for bit.
pub open spec fn int_to_float_bits_spec(v: int) -> nat {
    sample_sign(v) * pow2(31) + exponent_field(sample_magnitude(v)) * pow2(23)
        + mantissa_field(sample_magnitude(v))
}

/// The integer sample `float_bits_to_int` recovers from a pattern. Only the
/// sign and the biased exponent matter: reconstructing the magnitude
/// saturates the 32-bit range before the final shift, which floods the bits
/// below the leading one. An exponent below 96 (a magnitude under `2^-31`)
/// underflows to silence; an exponent of 127 or more (a magnitude of 1.0 or
/// more) pins full scale.
pub open spec fn float_bits_to_int_spec(bits: u32) -> int {
    let e = (bits as int / pow2(23) as int) % 256;
    let negative = bits as int >= pow2(31);
    if e <= 95 {
        0
    } else {
        let k = if e >= 127 {
            31nat
        } else {
            (e - 96) as nat
        };
        if negative {
            -(pow2(k) as int)
        } else {
            pow2(k) - 1
        }
    }
}

/// Converts a fixed-point integer sample to the pattern of a normalized
/// float sample.
///
/// Splits sign and magnitude two's-complement-aware, normalizes the odd
/// value `2m + 1` into an exponent and a 24-bit fraction, rounds half up to
/// 23 mantissa bits and reassembles the pattern bit for bit. Maps `i32::MAX`
/// to the pattern of 1.0 and `i32::MIN` to the pattern of -1.0 exactly.
pub fn int_to_float_bits(sample: i32) -> (bits: u32)
    ensures
        bits == int_to_float_bits_spec(sample as int),
{
    let (magnitude, sign): (u32, u32) = if sample < 0 {
        ((-1 - sample) as u32, 0x8000_0000u32)
    } else {
        (sample as u32, 0u32)
    };
    let n: u32 = 2 * magnitude + 1;
    let e: u32 = ilog2_u32(n);
    let pe: u32 = pow2_u32(e);
    let r: u32 = n - pe;
    let ghost en = e as nat;
    proof {
        lemma2_to64();
        lemma_pow2_unfold(en + 1);
        lemma_pow2_pos(en);
        assert(r < pow2(en));
    }
    let scaled: u32 = if e <= 24 {
        let w: u32 = pow2_u32(24 - e);
        proof {
            lemma_pow2_adds((24 - en) as nat, en);
            lemma_pow2_pos((24 - en) as nat);
            // r < 2^e keeps the product under 2^24.
            assert((r as int) * pow2((24 - en) as nat) <= (pow2(en) - 1) * pow2(
                (24 - en) as nat,
            )) by {
                lemma_mul_inequality(r as int, pow2(en) - 1, pow2((24 - en) as nat) as int);
            }
            lemma_mul_is_distributive_sub_other_way(
                pow2((24 - en) as nat) as int,
                pow2(en) as int,
                1,
            );
            assert((r as int) * (w as int) < 0x1000000);
            // The product, times 2^e again, is r * 2^24 exactly.
            lemma_mul_is_associative(r as int, pow2((24 - en) as nat) as int, pow2(en) as int);
            lemma_div_by_multiple((r as int) * pow2((24 - en) as nat), pow2(en) as int);
        }
        r * w
    } else {
        let w: u32 = pow2_u32(e - 24);
        proof {
            lemma_pow2_adds(24, (en - 24) as nat);
            lemma_pow2_pos((en - 24) as nat);
            lemma_mul_nonnegative(r as int, pow2(24) as int);
            lemma_div_denominator(
                (r as int) * pow2(24),
                pow2(24) as int,
                pow2((en - 24) as nat) as int,
            );
            lemma_div_by_multiple(r as int, pow2(24) as int);
            // r < 2^e = 2^24 * 2^(e - 24) bounds the quotient by 2^24.
            lemma_multiply_divide_lt(r as int, pow2((en - 24) as nat) as int, pow2(24) as int);
            assert((r as int) / (w as int) < 0x1000000);
        }
        r / w
    };
    assert(scaled < 0x1000000);
    let rounded: u32 = (scaled + scaled % 2) / 2;
    let f: u32 = rounded % 0x0080_0000;
    let exp: u32 = (96 + e) * 0x0080_0000;
    proof {
        lemma2_to64();
    }
    sign + exp + f
}

/// Converts the pattern of a normalized float sample back to a fixed-point
/// integer sample.
///
/// The reconstruction saturates the shifted magnitude at the 32-bit range,
/// so only the sign and the biased exponent of the pattern decide the
/// result: patterns below `2^-31` in magnitude underflow to 0, patterns at
/// or above 1.0 in magnitude pin `i32::MAX` or `i32::MIN`, and in between
/// each exponent step halves the result. Maps the patterns of 1.0, -1.0 and
/// 0.0 to `i32::MAX`, `i32::MIN` and 0 exactly.
pub fn float_bits_to_int(bits: u32) -> (sample: i32)
    ensures
        sample as int == float_bits_to_int_spec(bits),
{
    proof {
        lemma2_to64();
    }
    let e: u32 = (bits / 0x0080_0000) % 256;
    if e <= 95 {
        0
    } else {
        let k: u32 = if e >= 127 {
            31
        } else {
            e - 96
        };
        let p: u32 = pow2_u32(k);
        proof {
            lemma_pow2_pos(k as nat);
            if k < 31 {
                lemma_pow2_strictly_increases(k as nat, 31);
            }
        }
        if bits >= 0x8000_0000 {
            if k == 31 {
                i32::MIN
            } else {
                -(p as i32)
            }
        } else {
            if k == 31 {
                i32::MAX
            } else {
                (p as i32) - 1
            }
        }
    }
}

/// The fields of a produced pattern, read back arithmetically: the biased
/// exponent is `96 + log2(2m + 1)`, the sign bit matches the sample's sign,
/// and the whole pattern fits 32 bits.
proof fn lemma_pattern_fields(v: int)
    requires
        -0x80000000 <= v < 0x80000000,
    ensures
        ((int_to_float_bits_spec(v) as int) / (pow2(23) as int)) % 256 == 96 + log2(
            2 * sample_magnitude(v) + 1,
        ),
        int_to_float_bits_spec(v) >= pow2(31) <==> v < 0,
        int_to_float_bits_spec(v) < pow2(32),
        log2(2 * sample_magnitude(v) + 1) <= 31,
{
    let m = sample_magnitude(v);
    let n = 2 * m + 1;
    let e = log2(n);
    let f = mantissa_field(m);
    let bits = int_to_float_bits_spec(v);
    lemma2_to64();
    lemma_log2_bounds(n);
    assert(e <= 31) by {
        if e >= 32 {
            if e > 32 {
                lemma_pow2_strictly_increases(32, e);
            }
            assert(pow2(32) <= pow2(e));
        }
    }
    assert(f < 0x800000) by {
        lemma_pow2_pos(e);
        let scaled = ((n - pow2(e)) * pow2(24)) / (pow2(e) as int);
        lemma_mod_division_less_than_divisor((scaled + scaled % 2) / 2, pow2(23) as int);
    }
    if v >= 0 {
        lemma_fundamental_div_mod_converse(bits as int, 0x800000, 96 + e as int, f as int);
        lemma_small_mod((96 + e) as nat, 256);
    } else {
        lemma_fundamental_div_mod_converse(bits as int, 0x800000, 352 + e as int, f as int);
        lemma_fundamental_div_mod_converse(352 + e as int, 256, 1, 96 + e as int);
    }
}

/// Law: a round trip through the codec keeps the sign and the leading bit of
/// a sample and floods the bits below it. A non-negative sample `v` comes
/// back as the all-ones value `2^log2(2v + 1) - 1`; a negative sample comes
/// back as `-2^log2(-2v - 1)`. The trip is therefore the identity exactly on
/// the values `2^k - 1` and `-2^k`, and in particular at full scale.
pub proof fn lemma_codec_round_trip(v: int)
    requires
        -0x80000000 <= v < 0x80000000,
    ensures
        v >= 0 ==> float_bits_to_int_spec(int_to_float_bits_spec(v) as u32) == pow2(
            log2((2 * v + 1) as nat),
        ) - 1,
        v < 0 ==> float_bits_to_int_spec(int_to_float_bits_spec(v) as u32) == -(pow2(
            log2((-2 * v - 1) as nat),
        ) as int),
{
    lemma2_to64();
    lemma_pattern_fields(v);
}

/// Law: the round trip is the identity at the scale extremes, where the
/// magnitude has every bit below the leading one already set.
pub proof fn lemma_codec_round_trip_extremes()
    ensures
        float_bits_to_int_spec(int_to_float_bits_spec(0x7FFFFFFF) as u32) == 0x7FFFFFFF,
        float_bits_to_int_spec(int_to_float_bits_spec(-0x80000000) as u32) == -0x80000000,
{
    lemma2_to64();
    lemma_log2_unique(0xFFFFFFFF, 31);
    lemma_codec_round_trip(0x7FFFFFFF);
    lemma_codec_round_trip(-0x80000000);
}

/// Law: the round trip is lossy at small magnitudes: the sample 4 comes back
/// as 7, since the reconstruction floods the bits below the leading one.
pub proof fn lemma_codec_round_trip_lossy()
    ensures
        float_bits_to_int_spec(int_to_float_bits_spec(4) as u32) == 7,
{
    lemma2_to64();
    lemma_log2_unique(9, 3);
    lemma_codec_round_trip(4);
}

/// A pattern is normalized when its biased exponent is at most 126: the
/// magnitude it encodes is strictly under 1.0.
pub open spec fn is_normalized(bits: u32) -> bool {
    ((bits as int) / (pow2(23) as int)) % 256 <= 126
}

/// Law: the codec keeps magnitudes under `2^30` normalized: every pattern
/// it produces for such a sample encodes a value strictly inside [-1, 1].
/// This is the band oscillator phases live in.
pub proof fn lemma_codec_normalized(v: int)
    requires
        -0x40000000 <= v < 0x40000000,
    ensures
        is_normalized(int_to_float_bits_spec(v) as u32),
{
    let m = sample_magnitude(v);
    let n = 2 * m + 1;
    lemma2_to64();
    lemma_pattern_fields(v);
    lemma_log2_bounds(n);
    assert(log2(n) <= 30) by {
        if log2(n) >= 31 {
            if log2(n) > 31 {
                lemma_pow2_strictly_increases(31, log2(n));
            }
            assert(pow2(31) <= pow2(log2(n)));
        }
    }
}

/// Law: the codec's anchor values, bit for bit. Full scale maps to the
/// patterns of 1.0 and -1.0, half and quarter scale to the patterns of 0.5
/// and 0.25 with their mirrored negatives, and the pattern of 0.0 maps back
/// to 0.
pub proof fn lemma_codec_fixed_points()
    ensures
        int_to_float_bits_spec(0x7FFFFFFF) == 0x3F800000,
        int_to_float_bits_spec(-0x80000000) == 0xBF800000,
        int_to_float_bits_spec(0x3FFFFFFF) == 0x3F000000,
        int_to_float_bits_spec(0x1FFFFFFF) == 0x3E800000,
        int_to_float_bits_spec(-0x40000000) == 0xBF000000,
        int_to_float_bits_spec(-0x20000000) == 0xBE800000,
        float_bits_to_int_spec(0x00000000) == 0,
{
    lemma2_to64();
    // Full scale: the odd value is 2^32 - 1, all ones.
    lemma_log2_unique(0xFFFFFFFF, 31);
    lemma_fundamental_div_mod_converse(0x7FFFFFFF000000, 0x80000000, 0xFFFFFF, 0x7F000000);
    lemma_fundamental_div_mod_converse(0xFFFFFF, 2, 0x7FFFFF, 1);
    lemma_fundamental_div_mod_converse(0x800000, 0x800000, 1, 0);
    // Half scale: the odd value is 2^31 - 1.
    lemma_log2_unique(0x7FFFFFFF, 30);
    lemma_fundamental_div_mod_converse(0x3FFFFFFF000000, 0x40000000, 0xFFFFFF, 0x3F000000);
    // Quarter scale: the odd value is 2^30 - 1.
    lemma_log2_unique(0x3FFFFFFF, 29);
    lemma_fundamental_div_mod_converse(0x1FFFFFFF000000, 0x20000000, 0xFFFFFF, 0x1F000000);
}

} // verus!
