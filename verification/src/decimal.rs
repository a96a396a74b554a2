//! Decimal text for integers: the formatting both serializers use
//! for table indices and mantissa/exponent payloads, and the integer
//! parsing the text serializer uses to classify keys.
use vstd::prelude::*;

verus! {

/// The decimal digits of `n`, most significant first.
pub open spec fn dec_str(n: nat) -> Seq<u8>
    decreases n,
{
    if n < 10 {
        seq![(48 + n) as u8]
    } else {
        dec_str(n / 10) + seq![(48 + n % 10) as u8]
    }
}

/// The decimal text of a signed integer: a minus sign for negative
/// values, then the digits of the magnitude.
pub open spec fn dec_str_signed(n: int) -> Seq<u8> {
    if n < 0 {
        seq![45u8] + dec_str((-n) as nat)
    } else {
        dec_str(n as nat)
    }
}

/// Appends the decimal digits of `n`.
pub fn push_decimal(out: &mut Vec<u8>, n: u64)
    ensures
        final(out)@ == old(out)@ + dec_str(n as nat),
    decreases n,
{
    if n < 10 {
        out.push(48 + n as u8);
        proof {
            assert(final(out)@ =~= old(out)@ + dec_str(n as nat));
        }
    } else {
        push_decimal(out, n / 10);
        out.push(48 + (n % 10) as u8);
        proof {
            assert(final(out)@ =~= old(out)@ + dec_str(n as nat));
        }
    }
}

/// Appends the decimal text of a signed integer.
pub fn push_decimal_signed(out: &mut Vec<u8>, n: i64)
    requires
        n != i64::MIN,
    ensures
        final(out)@ == old(out)@ + dec_str_signed(n as int),
{
    if n < 0 {
        out.push(45);
        push_decimal(out, (-n) as u64);
        proof {
            assert(final(out)@ =~= old(out)@ + dec_str_signed(n as int));
        }
    } else {
        push_decimal(out, n as u64);
    }
}

/// Whether a byte is a decimal digit.
pub open spec fn is_digit(c: u8) -> bool {
    48 <= c <= 57
}

/// Whether every byte is a decimal digit.
pub open spec fn all_digits(s: Seq<u8>) -> bool {
    forall|i: int| 0 <= i < s.len() ==> is_digit(#[trigger] s[i])
}

/// What std's parse into a 32-bit signed integer accepts: an optional
/// sign, then at least one digit, with the value in range.
pub open spec fn parse_i32_spec(s: Seq<u8>) -> Option<int> {
    if s.len() == 0 {
        None
    } else {
        let digits = if s[0] == 43 || s[0] == 45 {
            s.drop_first()
        } else {
            s
        };
        if digits.len() == 0 || !all_digits(digits) {
            None
        } else {
            let mag = dec_val(digits);
            let v: int = if s[0] == 45 {
                -(mag as int)
            } else {
                mag as int
            };
            if i32::MIN <= v <= i32::MAX {
                Some(v)
            } else {
                None
            }
        }
    }
}

/// The value of a digit sequence.
pub open spec fn dec_val(s: Seq<u8>) -> nat
    decreases s.len(),
{
    if s.len() == 0 {
        0
    } else {
        dec_val(s.drop_last()) * 10 + (if is_digit(s.last()) {
            (s.last() - 48) as nat
        } else {
            0
        })
    }
}

/// Whether the text parses as a 32-bit signed integer, as the text
/// serializer classifies object keys.
pub fn parses_as_i32(s: &[u8]) -> (r: bool)
    ensures
        r == (parse_i32_spec(s@) is Some),
{
    if s.len() == 0 {
        return false;
    }
    let has_sign = s[0] == 43 || s[0] == 45;
    let neg = s[0] == 45;
    let start: usize = if has_sign {
        1
    } else {
        0
    };
    if s.len() == start {
        proof {
            assert(s@.drop_first().len() == 0);
        }
        return false;
    }
    let mut i: usize = start;
    let mut mag: u64 = 0;
    let ghost digits = if has_sign {
        s@.drop_first()
    } else {
        s@
    };
    let mut overflow = false;
    while i < s.len()
        invariant
            start <= i <= s@.len(),
            start == 0 || start == 1,
            has_sign == (start == 1),
            s@.len() >= 1,
            digits.len() >= 1,
            has_sign == (s@[0] == 43 || s@[0] == 45),
            neg == (s@[0] == 45),
            digits == (if has_sign {
                s@.drop_first()
            } else {
                s@
            }),
            digits.len() == s@.len() - start,
            forall|j: int| 0 <= j < i - start ==> is_digit(#[trigger] digits[j]),
            !overflow ==> mag == dec_val(digits.take(i - start)) && mag <= 0xFFFF_FFFF,
            overflow ==> dec_val(digits.take(i - start)) > 0xFFFF_FFFF,
        decreases s@.len() - i,
    {
        let c = s[i];
        if c < 48 || c > 57 {
            proof {
                assert(digits[i - start] == s@[i as int]);
                assert(!all_digits(digits));
                assert(parse_i32_spec(s@) is None);
            }
            return false;
        }
        proof {
            assert(digits[i - start] == s@[i as int]);
            assert(digits.take(i + 1 - start).drop_last() =~= digits.take(i - start));
            assert(digits.take(i + 1 - start).last() == digits[i - start]);
        }
        if !overflow {
            mag = mag * 10 + (c - 48) as u64;
            if mag > 0xFFFF_FFFF {
                overflow = true;
            }
        } else {
            proof {
                assert(dec_val(digits.take(i + 1 - start)) >= dec_val(digits.take(i - start))
                    * 10) by (nonlinear_arith)
                    requires
                        dec_val(digits.take(i + 1 - start)) == dec_val(digits.take(i - start)) * 10
                            + (if is_digit(digits.take(i + 1 - start).last()) {
                            (digits.take(i + 1 - start).last() - 48) as nat
                        } else {
                            0
                        }),
                ;
                assert(dec_val(digits.take(i - start)) * 10 > 0xFFFF_FFFF) by (nonlinear_arith)
                    requires
                        dec_val(digits.take(i - start)) > 0xFFFF_FFFF,
                ;
            }
        }
        i += 1;
    }
    proof {
        assert(digits.take(digits.len() as int) =~= digits);
    }
    if overflow {
        return false;
    }
    if neg {
        mag <= 0x8000_0000
    } else {
        mag <= 0x7FFF_FFFF
    }
}

} // verus!
