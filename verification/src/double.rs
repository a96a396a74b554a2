//! The number model. Numbers travel through the codec as the 64-bit
//! pattern of an IEEE-754 double. Everything the codec decides about a
//! number — sign, finiteness, wholeness, its integer value — is defined
//! here over the bit pattern alone, and the few conversions that need
//! the host's floating-point unit (parsing and printing decimals,
//! scaling by a power of two) sit behind trusted wrappers.
use vstd::arithmetic::power2::pow2;
use vstd::prelude::*;

verus! {

/// Low 52 bits: the fraction field of a double.
pub const FRAC_MASK: u64 = 0xF_FFFF_FFFF_FFFF;

/// The implicit leading mantissa bit of a normal double.
pub const IMPLICIT_BIT: u64 = 0x10_0000_0000_0000;

/// Bit pattern of positive infinity.
pub const POS_INF_BITS: u64 = 0x7FF0_0000_0000_0000;

/// Bit pattern of negative infinity.
pub const NEG_INF_BITS: u64 = 0xFFF0_0000_0000_0000;

/// Bit pattern of negative zero.
pub const NEG_ZERO_BITS: u64 = 0x8000_0000_0000_0000;

/// Largest magnitude the binary format stores as an integer: 2^56 - 1.
pub const MAX_INT_MAG: u64 = 0xFF_FFFF_FFFF_FFFF;

/// The sign bit: true when the double is negative.
pub open spec fn f_neg(b: u64) -> bool {
    b >> 63 == 1
}

/// The 11-bit biased exponent field.
pub open spec fn f_exp(b: u64) -> u64 {
    (b >> 52) & 0x7ff
}

/// The 52-bit fraction field.
pub open spec fn f_frac(b: u64) -> u64 {
    b & FRAC_MASK
}

pub open spec fn f_is_nan(b: u64) -> bool {
    f_exp(b) == 0x7ff && f_frac(b) != 0
}

pub open spec fn f_is_inf(b: u64) -> bool {
    f_exp(b) == 0x7ff && f_frac(b) == 0
}

pub open spec fn f_is_finite(b: u64) -> bool {
    f_exp(b) != 0x7ff
}

/// The mantissa with the implicit leading bit of normal doubles made
/// explicit. The magnitude of a finite double is
/// `f_mantissa(b) * 2^f_pow2_exp(b)`.
pub open spec fn f_mantissa(b: u64) -> nat {
    if f_exp(b) == 0 {
        f_frac(b) as nat
    } else {
        (f_frac(b) + IMPLICIT_BIT) as nat
    }
}

/// The unbiased power of two that scales `f_mantissa`.
pub open spec fn f_pow2_exp(b: u64) -> int {
    (if f_exp(b) == 0 {
        1int
    } else {
        f_exp(b) as int
    }) - 1075
}

/// A finite double whose value is an integer (fractional part zero).
pub open spec fn f_is_whole(b: u64) -> bool {
    f_is_finite(b) && (f_pow2_exp(b) >= 0 || f_mantissa(b) % pow2((-f_pow2_exp(b)) as nat)
        == 0)
}

/// The magnitude of a whole double, as a natural number.
pub open spec fn f_whole_mag(b: u64) -> nat {
    if f_pow2_exp(b) >= 0 {
        f_mantissa(b) * pow2(f_pow2_exp(b) as nat)
    } else {
        f_mantissa(b) / pow2((-f_pow2_exp(b)) as nat)
    }
}

/// The integer value of a whole double.
pub open spec fn f_int_val(b: u64) -> int {
    if f_neg(b) {
        -(f_whole_mag(b) as int)
    } else {
        f_whole_mag(b) as int
    }
}

/// Whole and small enough for the binary format's integer encodings.
pub open spec fn f_fits_int(b: u64) -> bool {
    f_is_whole(b) && -(MAX_INT_MAG as int) <= f_int_val(b) <= MAX_INT_MAG as int
}

/// Reads the integer value of a double when it is whole and small
/// enough for the binary format's integer encodings, and `None`
/// otherwise: for NaN and the infinities (whose fractional part is not
/// zero), for values with a fractional part, and for magnitudes above
/// 2^56 - 1.
pub fn as_small_int(b: u64) -> (r: Option<i64>)
    ensures
        r is Some <==> f_fits_int(b),
        r matches Some(n) ==> n == f_int_val(b) && -(MAX_INT_MAG as int) <= n <= MAX_INT_MAG as int,
{
    let e: u64 = (b >> 52) & 0x7ff;
    let f: u64 = b & FRAC_MASK;
    let neg: bool = (b >> 63) == 1;
    proof {
        assert(b & 0xF_FFFF_FFFF_FFFFu64 < 0x10_0000_0000_0000u64 && (b >> 52) & 0x7ffu64 < 0x800
            && ((b >> 63 == 1) || (b >> 63 == 0))) by (bit_vector);
        vstd::arithmetic::power2::lemma2_to64();
        vstd::arithmetic::power2::lemma2_to64_rest();
    }
    if e == 0x7ff {
        return None;
    }
    if e == 0 {
        if f == 0 {
            proof {
                vstd::arithmetic::power2::lemma_pow2_pos(1074);
                assert(f_mantissa(b) == 0 && f_pow2_exp(b) == -1074);
                assert(0nat % pow2(1074) == 0nat);
                assert(0nat / pow2(1074) == 0nat);
            }
            return Some(0);
        }
        proof {
            vstd::arithmetic::power2::lemma_pow2_pos(1074);
            assert(pow2(52) < pow2(1074)) by {
                vstd::arithmetic::power2::lemma_pow2_strictly_increases(52, 1074);
            }
            assert(f < pow2(52));
            vstd::arithmetic::div_mod::lemma_small_mod(f as nat, pow2(1074));
        }
        return None;
    }
    let m: u64 = f + IMPLICIT_BIT;
    proof {
        assert(f_mantissa(b) == m);
        assert(pow2(52) <= m < pow2(53));
    }
    if e >= 1075 {
        // Non-negative power: the value is m shifted left.
        let shift: u64 = e - 1075;
        if shift > 3 {
            proof {
                let p = f_pow2_exp(b) as nat;
                assert(p >= 4);
                assert(pow2(4) <= pow2(p)) by {
                    if p > 4 {
                        vstd::arithmetic::power2::lemma_pow2_strictly_increases(4, p);
                    }
                }
                assert(f_mantissa(b) * pow2(4) <= f_mantissa(b) * pow2(p)) by (nonlinear_arith)
                    requires
                        pow2(4) <= pow2(p),
                        f_mantissa(b) >= 0,
                ;
                assert(pow2(52) * pow2(4) <= f_mantissa(b) * pow2(4)) by (nonlinear_arith)
                    requires
                        pow2(52) <= f_mantissa(b),
                        pow2(4) > 0,
                ;
                vstd::arithmetic::power2::lemma_pow2_adds(52, 4);
            }
            return None;
        }
        let mag: u64 = m << shift;
        proof {
            assert(m << 0u64 == m * 1 && m << 1u64 == m * 2 && m << 2u64 == m * 4 && m << 3u64 == m
                * 8) by (bit_vector)
                requires
                    m < 0x20_0000_0000_0000u64,
            ;
            assert(pow2(0) == 1 && pow2(1) == 2 && pow2(2) == 4 && pow2(3) == 8);
            assert(mag == f_mantissa(b) * pow2(shift as nat));
            assert(mag < pow2(53) * 8) by (nonlinear_arith)
                requires
                    mag == m * pow2(shift as nat),
                    m < pow2(53),
                    shift <= 3,
                    pow2(shift as nat) <= 8,
                    pow2(shift as nat) > 0,
            ;
            vstd::arithmetic::power2::lemma_pow2_adds(53, 3);
        }
        if neg {
            return Some(-(mag as i64));
        }
        return Some(mag as i64);
    }
    // Negative power: whole only when the low bits vanish.
    let k: u64 = 1075 - e;
    if k >= 53 {
        proof {
            assert(pow2(53) <= pow2(k as nat)) by {
                if k > 53 {
                    vstd::arithmetic::power2::lemma_pow2_strictly_increases(53, k as nat);
                }
            }
            vstd::arithmetic::div_mod::lemma_small_mod(m as nat, pow2(k as nat));
            vstd::arithmetic::power2::lemma_pow2_pos(k as nat);
        }
        return None;
    }
    let mag: u64 = m >> k;
    proof {
        vstd::arithmetic::power2::lemma_pow2_pos(k as nat);
        vstd::bits::lemma_u64_pow2_no_overflow(k as nat);
        vstd::bits::lemma_u64_shr_is_div(m, k);
        vstd::arithmetic::div_mod::lemma_fundamental_div_mod(m as int, pow2(k as nat) as int);
        vstd::arithmetic::div_mod::lemma_mod_bound(m as int, pow2(k as nat) as int);
        assert(mag * pow2(k as nat) <= m);
        vstd::bits::lemma_u64_shl_is_mul(mag, k);
    }
    let back: u64 = mag << k;
    if back == m {
        proof {
            assert(m as nat % pow2(k as nat) == 0) by {
                assert(m == (m as nat / pow2(k as nat)) * pow2(k as nat));
                vstd::arithmetic::div_mod::lemma_fundamental_div_mod_converse(
                    m as int,
                    pow2(k as nat) as int,
                    (m as nat / pow2(k as nat)) as int,
                    0,
                );
            }
            assert(f_is_whole(b));
            assert(mag == f_whole_mag(b));
            assert(mag < pow2(53));
        }
        if neg {
            return Some(-(mag as i64));
        }
        return Some(mag as i64);
    }
    proof {
        assert(m as nat % pow2(k as nat) != 0) by {
            if m as nat % pow2(k as nat) == 0 {
                vstd::arithmetic::div_mod::lemma_fundamental_div_mod(m as int, pow2(k as nat) as int);
            }
        }
    }
    None
}

/// Whether the bit pattern is a NaN.
pub fn is_nan_bits(b: u64) -> (r: bool)
    ensures
        r == f_is_nan(b),
{
    proof {
        assert((b >> 52) & 0x7ffu64 <= 0x7ff && b & 0xF_FFFF_FFFF_FFFFu64 <= 0xF_FFFF_FFFF_FFFFu64)
            by (bit_vector);
    }
    ((b >> 52) & 0x7ff) == 0x7ff && (b & FRAC_MASK) != 0
}

/// Whether the bit pattern is a finite double.
pub fn is_finite_bits(b: u64) -> (r: bool)
    ensures
        r == f_is_finite(b),
{
    proof {
        assert((b >> 52) & 0x7ffu64 <= 0x7ff) by (bit_vector);
    }
    ((b >> 52) & 0x7ff) != 0x7ff
}

/// Flips the sign of a double, on bit patterns. Whole values negate
/// their integer value; nothing else about the number changes.
pub fn negate_double_bits(b: u64) -> (r: u64)
    ensures
        r == (b ^ NEG_ZERO_BITS),
        f_exp(r) == f_exp(b),
        f_frac(r) == f_frac(b),
        f_neg(r) == !f_neg(b),
        f_is_finite(r) == f_is_finite(b),
        f_is_nan(r) == f_is_nan(b),
        f_is_whole(b) ==> f_is_whole(r) && f_int_val(r) == -f_int_val(b),
{
    proof {
        assert(((b ^ 0x8000_0000_0000_0000u64) >> 52) & 0x7ff == (b >> 52) & 0x7ff && (b
            ^ 0x8000_0000_0000_0000u64) & 0xF_FFFF_FFFF_FFFFu64 == b & 0xF_FFFF_FFFF_FFFFu64 && ((b
            ^ 0x8000_0000_0000_0000u64) >> 63 == 1) == !(b >> 63 == 1)) by (bit_vector);
    }
    b ^ NEG_ZERO_BITS
}

/// What std's `str::parse` makes of a decimal text when read at double
/// precision: the bit pattern of the parsed value, or `None` when the
/// text is not a number.
pub uninterp spec fn parse_double(s: Seq<u8>) -> Option<u64>;

/// Parses text as a double and returns its bit pattern.
///
/// Relies on std's `str::parse` for doubles (the call to
/// `serde_json::Number::from_f64` only pins the parse to double
/// precision; its result is not used).
#[verifier::external_body]
pub(crate) fn parse_double_bits(s: &[u8]) -> (r: Option<u64>)
    ensures
        r == parse_double(s@),
{
    match core::str::from_utf8(s) {
        Err(_) => None,
        Ok(t) => match t.parse() {
            Ok(v) => {
                let _pinned = serde_json::Number::from_f64(v);
                Some(v.to_bits())
            },
            Err(_) => None,
        },
    }
}

/// What `ryu` prints for a finite double: the shortest decimal string
/// that parses back to the same value.
pub uninterp spec fn shortest_double_str(b: u64) -> Seq<u8>;

/// Formats a finite double (given as its bit pattern) with `ryu`.
///
/// Relies on `ryu::Buffer::format_finite`; the round trip through
/// `serde_json::Number::from_f64` / `as_f64` recovers the double from
/// its bit pattern and is value-preserving for finite doubles.
#[verifier::external_body]
pub(crate) fn format_double_short(bits: u64) -> (r: Vec<u8>)
    requires
        f_is_finite(bits),
    ensures
        r@ == shortest_double_str(bits),
{
    let v = serde_json::Number::from_f64(bytemuck::cast(bits))
        .and_then(|n| n.as_f64())
        .unwrap_or_default();
    let mut buffer = ryu::Buffer::new();
    let formatted = buffer.format_finite(v);
    formatted.as_bytes().to_vec()
}

/// What std's `Display` prints for a finite double: the shortest
/// decimal that parses back to the same value, without a trailing
/// `.0` on whole numbers.
pub uninterp spec fn display_double_str(b: u64) -> Seq<u8>;

/// Formats a finite double (given as its bit pattern) with std's
/// `Display`, as object keys are coerced.
///
/// Relies on std's `Display` for doubles; the round trip through
/// `serde_json::Number::from_f64` / `as_f64` recovers the double from
/// its bit pattern and is value-preserving for finite doubles.
#[verifier::external_body]
pub(crate) fn format_double_display(bits: u64) -> (r: Vec<u8>)
    requires
        f_is_finite(bits),
    ensures
        r@ == display_double_str(bits),
{
    let v = serde_json::Number::from_f64(bytemuck::cast(bits))
        .and_then(|n| n.as_f64())
        .unwrap_or_default();
    v.to_string().into_bytes()
}

/// Raises two to a finite double, on bit patterns. Nothing is assumed
/// of the result: std documents `powf` with non-deterministic
/// precision, so callers must test what comes back — the mantissa/
/// exponent decoder only checks it for finiteness before multiplying.
///
/// Relies on std's `powf` (the host's math library); the round trip
/// through `serde_json::Number` recovers the double from its bits.
#[verifier::external_body]
pub(crate) fn pow2_double_bits(e_bits: u64) -> (r: u64)
    requires
        f_is_finite(e_bits),
{
    let e = serde_json::Number::from_f64(bytemuck::cast(e_bits))
        .and_then(|n| n.as_f64())
        .unwrap_or_default();
    let two = serde_json::Number::from(2u32).as_f64().unwrap_or_default();
    two.powf(e).to_bits()
}

/// The IEEE-754 product of two doubles, on bit patterns.
pub uninterp spec fn mul_double(a: u64, b: u64) -> u64;

/// Multiplies two finite doubles, on bit patterns.
///
/// Relies on the host's IEEE-754 multiplication; the round trips
/// through `serde_json::Number` recover the doubles from their bits.
#[verifier::external_body]
pub(crate) fn mul_double_bits(a_bits: u64, b_bits: u64) -> (r: u64)
    requires
        f_is_finite(a_bits),
        f_is_finite(b_bits),
    ensures
        r == mul_double(a_bits, b_bits),
{
    let a = serde_json::Number::from_f64(bytemuck::cast(a_bits))
        .and_then(|n| n.as_f64())
        .unwrap_or_default();
    let b = serde_json::Number::from_f64(bytemuck::cast(b_bits))
        .and_then(|n| n.as_f64())
        .unwrap_or_default();
    (a * b).to_bits()
}

/// What the cast of an unsigned integer to a double makes of `m`, as a
/// bit pattern.
pub uninterp spec fn u64_as_double(m: u64) -> u64;

/// Converts an unsigned integer to the nearest double, returning its
/// bit pattern.
///
/// Relies on `serde_json::Number::as_f64`, which converts an integer
/// with the cast's documented round-to-nearest semantics; integers up
/// to 2^53 convert exactly, and up to 2^56 the result is off by at
/// most four.
#[verifier::external_body]
pub(crate) fn u64_to_double_bits(m: u64) -> (r: u64)
    requires
        m <= MAX_INT_MAG,
    ensures
        r == u64_as_double(m),
        f_is_finite(r),
        !f_neg(r),
        f_is_whole(r),
        m as int - 4 <= f_int_val(r) <= m as int + 4,
        m <= 0x20_0000_0000_0000 ==> f_int_val(r) == m as int,
{
    serde_json::Number::from(m).as_f64().map(|v| v.to_bits()).unwrap_or(0)
}

} // verus!
