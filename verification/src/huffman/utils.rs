//! Reading escaped codes from the bitfield and undoing the escape.
//! The encoder inserts a zero after every set bit of a code so that
//! two adjacent set bits can only be the terminator.
use crate::huffman::bitfield::{bf_inv, Bitfield};
use crate::value::Error;
use vstd::prelude::*;

verus! {

/// Position of the lowest pair of adjacent set bits of `data`, looking
/// at positions `from..=len-2` only.
pub open spec fn terminator_at(data: u64, len: u8, from: int) -> Option<int>
    decreases len - from,
{
    if 0 <= from <= len - 2 {
        if data & (1u64 << (from as u64)) != 0 && data & (1u64 << ((from + 1) as u64)) != 0 {
            Some(from)
        } else {
            terminator_at(data, len, from + 1)
        }
    } else {
        None
    }
}

/// Looks for the terminator (two adjacent set bits) among the buffered
/// bits. When it sits at position `i`, the low `i` bits are the
/// escaped code: they are extracted, the two terminator bits are
/// dropped, and `(code, i)` is returned. A terminator beyond bit 32
/// is refused; with none buffered yet, `None` is returned.
pub fn get_code(bitfield: &mut Bitfield) -> (r: Result<Option<(u32, u8)>, Error>)
    requires
        bf_inv(*old(bitfield)),
    ensures
        bf_inv(*final(bitfield)),
        r matches Ok(Some(v)) ==> v.1 <= 32,
        terminator_at(old(bitfield).data, old(bitfield).len, 0) is None ==> r == Ok::<
            Option<(u32, u8)>,
            Error,
        >(None) && *final(bitfield) == *old(bitfield),
        terminator_at(old(bitfield).data, old(bitfield).len, 0) matches Some(i) ==> if i <= 32 {
            r == Ok::<Option<(u32, u8)>, Error>(
                Some(
                    (
                        (old(bitfield).data & (((1u64 << (i as u64)) - 1) as u64)) as u32,
                        i as u8,
                    ),
                ),
            ) && final(bitfield).data == old(bitfield).data >> ((i + 2) as u64) && final(bitfield).len
                == if old(bitfield).len >= i + 2 {
                (old(bitfield).len - i - 2) as u8
            } else {
                0u8
            }
        } else {
            r == Err::<Option<(u32, u8)>, Error>(Error::UnsupportedCodeLength) && *final(bitfield)
                == *old(bitfield)
        },
{
    let len = bitfield.get_len();
    if len >= 2 {
        let mut i: u8 = 0;
        while i <= len - 2
            invariant
                bf_inv(*bitfield),
                *bitfield == *old(bitfield),
                len == bitfield.len,
                len >= 2,
                0 <= i <= len - 1,
                terminator_at(bitfield.data, len, 0) == terminator_at(bitfield.data, len, i as int),
            decreases len - i,
        {
            let b1 = bitfield.get_data() & (1u64 << (i as u64));
            let b2 = bitfield.get_data() & (1u64 << ((i + 1) as u64));
            if b1 != 0 && b2 != 0 {
                proof {
                    assert(terminator_at(bitfield.data, len, i as int) == Some(i as int));
                }
                if i <= 32 {
                    let code = bitfield.extract_bits(i);
                    bitfield.discard_bits(2);
                    proof {
                        let d0 = old(bitfield).data;
                        assert(i <= 32 ==> d0 & (((1u64 << (i as u64)) - 1) as u64) <= 0xFFFF_FFFFu64)
                            by (bit_vector);
                        assert(i <= 32 ==> (d0 >> (i as u64)) >> 2 == d0 >> ((i + 2) as u64))
                            by (bit_vector);
                    }
                    return Ok(Some((#[verifier::truncate] (code as u32), i)));
                } else {
                    return Err(Error::UnsupportedCodeLength);
                }
            }
            i = i + 1;
        }
        proof {
            assert(terminator_at(bitfield.data, len, i as int) is None);
        }
    }
    Ok(None)
}

/// Undoes the escape on a code: walking the escaped bits from the
/// bottom, a set bit emits a set bit and skips the inserted zero
/// after it; a clear bit emits a clear bit. The emitted bit count is
/// the true code length.
pub open spec fn unescape_spec(code: u32, code_len: u8, i: u8, acc: u32, l: u8) -> (u32, u8)
    decreases code_len + 1 - i,
{
    if i < code_len && code_len <= 32 {
        if code & (1u32 << (i as u32)) != 0 {
            unescape_spec(code, code_len, (i + 2) as u8, acc | (1u32 << (l as u32)), (l + 1) as u8)
        } else {
            unescape_spec(code, code_len, (i + 1) as u8, acc, (l + 1) as u8)
        }
    } else {
        (acc, l)
    }
}

/// Undoes the escape on a code read by `get_code`.
pub fn unescape_code(code: u32, code_len: u8) -> (r: (u32, u8))
    requires
        code_len <= 32,
    ensures
        r == unescape_spec(code, code_len, 0, 0, 0),
        r.1 <= code_len,
{
    let mut unescaped_code: u32 = 0;
    let mut i: u8 = 0;
    let mut l: u8 = 0;
    while i < code_len
        invariant
            code_len <= 32,
            l <= i,
            i <= code_len + 1,
            i == code_len + 1 ==> l <= code_len,
            unescape_spec(code, code_len, 0, 0, 0) == unescape_spec(
                code,
                code_len,
                i,
                unescaped_code,
                l,
            ),
        decreases code_len + 1 - i,
    {
        if code & (1u32 << (i as u32)) != 0 {
            unescaped_code = unescaped_code | (1u32 << (l as u32));
            i = i + 1;
        }
        i = i + 1;
        l = l + 1;
    }
    (unescaped_code, l)
}

} // verus!
