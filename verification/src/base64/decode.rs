//! Base64 decoding: four symbols become three bytes; a trailing
//! three- or two-symbol remainder becomes two bytes or one. A length
//! of one modulo four and any byte outside the alphabet are invalid.
use crate::base64::{b64_symbol_ok, b64_symbol_val, value_of};
use crate::value::Error;
use vstd::prelude::*;

verus! {

/// The three bytes a full four-symbol group decodes to, from the
/// symbols' six-bit values.
pub open spec fn dec_quad(d0: u8, d1: u8, d2: u8, d3: u8) -> Seq<u8> {
    seq![
        (d0 | ((d1 & 0x03) << 6)) as u8,
        ((d1 >> 2) | ((d2 & 0x0F) << 4)) as u8,
        ((d2 >> 4) | (d3 << 2)) as u8,
    ]
}

/// The two bytes a trailing three-symbol remainder decodes to.
pub open spec fn dec_tail3(d0: u8, d1: u8, d2: u8) -> Seq<u8> {
    seq![(d0 | ((d1 & 0x03) << 6)) as u8, ((d1 >> 2) | ((d2 & 0x0F) << 4)) as u8]
}

/// The byte a trailing two-symbol remainder decodes to.
pub open spec fn dec_tail2(d0: u8, d1: u8) -> Seq<u8> {
    seq![(d0 | ((d1 & 0x03) << 6)) as u8]
}

/// Whether a sequence is decodable: length not one modulo four and
/// every byte a symbol of the alphabet.
pub open spec fn b64_valid(s: Seq<u8>) -> bool {
    s.len() % 4 != 1 && forall|i: int| 0 <= i < s.len() ==> b64_symbol_ok(#[trigger] s[i])
}

/// The decoding of a whole symbol sequence (meaningful on valid input).
pub open spec fn b64_decode(s: Seq<u8>) -> Seq<u8>
    decreases s.len(),
{
    if s.len() >= 4 {
        dec_quad(
            b64_symbol_val(s[0]),
            b64_symbol_val(s[1]),
            b64_symbol_val(s[2]),
            b64_symbol_val(s[3]),
        ) + b64_decode(s.skip(4))
    } else if s.len() == 3 {
        dec_tail3(b64_symbol_val(s[0]), b64_symbol_val(s[1]), b64_symbol_val(s[2]))
    } else if s.len() == 2 {
        dec_tail2(b64_symbol_val(s[0]), b64_symbol_val(s[1]))
    } else {
        Seq::<u8>::empty()
    }
}

/// Unpacking a full group recovers the three packed bytes.
proof fn lemma_quad_round_trip(b0: u8, b1: u8, b2: u8)
    by (bit_vector)
    ensures
        ((b0 & 0x3F) | ((((b0 >> 6) | ((b1 & 0x0F) << 2)) & 0x03) << 6)) == b0,
        ((((b0 >> 6) | ((b1 & 0x0F) << 2)) >> 2) | ((((b1 >> 4) | ((b2 & 0x03) << 4)) & 0x0F) << 4))
            == b1,
        ((((b1 >> 4) | ((b2 & 0x03) << 4)) >> 4) | ((b2 >> 2) << 2)) == b2,
{
}

/// Unpacking a two-byte remainder recovers the two packed bytes.
proof fn lemma_tail2_round_trip(b0: u8, b1: u8)
    by (bit_vector)
    ensures
        ((b0 & 0x3F) | ((((b0 >> 6) | ((b1 & 0x0F) << 2)) & 0x03) << 6)) == b0,
        ((((b0 >> 6) | ((b1 & 0x0F) << 2)) >> 2) | (((b1 >> 4) & 0x0F) << 4)) == b1,
{
}

/// Unpacking a one-byte remainder recovers the packed byte.
proof fn lemma_tail1_round_trip(b0: u8)
    by (bit_vector)
    ensures
        ((b0 & 0x3F) | (((b0 >> 6) & 0x03) << 6)) == b0,
{
}

/// The six-bit groups drawn while encoding stay below 64.
proof fn lemma_group_bounds(b0: u8, b1: u8, b2: u8)
    by (bit_vector)
    ensures
        (b0 & 0x3F) < 64,
        ((b0 >> 6) | ((b1 & 0x0F) << 2)) < 64,
        ((b1 >> 4) | ((b2 & 0x03) << 4)) < 64,
        (b2 >> 2) < 64,
        (b1 >> 4) < 64,
        (b0 >> 6) < 64,
{
}

/// Decoding inverts encoding: every byte sequence is recovered intact
/// from its base64 form, and that form is always valid input for the
/// decoder.
pub proof fn lemma_b64_round_trip(s: Seq<u8>)
    ensures
        b64_valid(crate::base64::encode::b64_encode(s)),
        b64_decode(crate::base64::encode::b64_encode(s)) == s,
    decreases s.len(),
{
    let enc = crate::base64::encode::b64_encode(s);
    if s.len() >= 3 {
        let b0 = s[0];
        let b1 = s[1];
        let b2 = s[2];
        lemma_b64_round_trip(s.skip(3));
        lemma_group_bounds(b0, b1, b2);
        lemma_quad_round_trip(b0, b1, b2);
        let rest = crate::base64::encode::b64_encode(s.skip(3));
        assert(enc == crate::base64::encode::enc_quad(b0, b1, b2) + rest);
        crate::base64::lemma_symbol_round_trip(b0 & 0x3F);
        crate::base64::lemma_symbol_round_trip((b0 >> 6) | ((b1 & 0x0F) << 2));
        crate::base64::lemma_symbol_round_trip((b1 >> 4) | ((b2 & 0x03) << 4));
        crate::base64::lemma_symbol_round_trip(b2 >> 2);
        assert(enc.len() == 4 + rest.len());
        assert forall|i: int| 0 <= i < enc.len() implies b64_symbol_ok(#[trigger] enc[i]) by {
            if i >= 4 {
                assert(enc[i] == rest[i - 4]);
            }
        }
        assert(b64_valid(enc));
        assert(enc.skip(4) =~= rest);
        assert(b64_decode(enc) == dec_quad(
            b64_symbol_val(enc[0]),
            b64_symbol_val(enc[1]),
            b64_symbol_val(enc[2]),
            b64_symbol_val(enc[3]),
        ) + b64_decode(enc.skip(4)));
        assert(b64_decode(enc) =~= s);
    } else if s.len() == 2 {
        let b0 = s[0];
        let b1 = s[1];
        lemma_group_bounds(b0, b1, 0);
        lemma_tail2_round_trip(b0, b1);
        crate::base64::lemma_symbol_round_trip(b0 & 0x3F);
        crate::base64::lemma_symbol_round_trip((b0 >> 6) | ((b1 & 0x0F) << 2));
        crate::base64::lemma_symbol_round_trip(b1 >> 4);
        assert(b64_decode(enc) =~= s);
    } else if s.len() == 1 {
        let b0 = s[0];
        lemma_group_bounds(b0, 0, 0);
        lemma_tail1_round_trip(b0);
        crate::base64::lemma_symbol_round_trip(b0 & 0x3F);
        crate::base64::lemma_symbol_round_trip(b0 >> 6);
        assert(b64_decode(enc) =~= s);
    } else {
        assert(b64_decode(enc) =~= s);
    }
}

/// How many bytes decoding will produce, or the error the input's
/// length forces: `InvalidBase64` for a length of one modulo four,
/// `CapacityOverflow` when the length arithmetic cannot be done.
pub fn calculate_capacity(s: &[u8]) -> (r: Result<usize, Error>)
    ensures
        r matches Ok(n) ==> n == s@.len() * 3 / 4,
        r is Ok <==> s@.len() % 4 != 1 && s@.len() * 3 <= usize::MAX,
        s@.len() % 4 == 1 ==> r == Err::<usize, Error>(Error::InvalidBase64),
        r == Err::<usize, Error>(Error::CapacityOverflow) <==> s@.len() % 4 != 1 && s@.len() * 3
            > usize::MAX,
        r is Err ==> r == Err::<usize, Error>(Error::InvalidBase64) || r == Err::<usize, Error>(
            Error::CapacityOverflow,
        ),
{
    let len = s.len();
    if len % 4 == 1 {
        return Err(Error::InvalidBase64);
    }
    if len > usize::MAX / 3 {
        return Err(Error::CapacityOverflow);
    }
    Ok(len * 3 / 4)
}

/// Decodes a share-string base64 sequence to raw bytes.
pub fn decode(s: &[u8]) -> (r: Result<Vec<u8>, Error>)
    ensures
        r matches Ok(out) ==> out@ == b64_decode(s@),
        r is Ok <==> b64_valid(s@) && s@.len() * 3 <= usize::MAX,
        r == Err::<Vec<u8>, Error>(Error::CapacityOverflow) <==> s@.len() % 4 != 1 && s@.len() * 3
            > usize::MAX,
        r is Err ==> r == Err::<Vec<u8>, Error>(Error::InvalidBase64) || r == Err::<Vec<u8>, Error>(
            Error::CapacityOverflow,
        ),
{
    let capacity = match calculate_capacity(s) {
        Ok(c) => c,
        Err(e) => {
            return Err(e);
        },
    };
    let mut out: Vec<u8> = Vec::with_capacity(capacity);
    proof {
        assert(s@.skip(0) =~= s@);
    }
    let mut i: usize = 0;
    while s.len() - i >= 4
        invariant
            i <= s@.len(),
            i % 4 == 0,
            s@.len() % 4 != 1,
            s@.len() * 3 <= usize::MAX,
            out@ + b64_decode(s@.skip(i as int)) == b64_decode(s@),
            forall|j: int| 0 <= j < i ==> b64_symbol_ok(#[trigger] s@[j]),
        decreases s@.len() - i,
    {
        let ghost before = out@;
        let d0 = match value_of(s[i]) {
            Some(d) => d,
            None => {
                return Err(Error::InvalidBase64);
            },
        };
        let d1 = match value_of(s[i + 1]) {
            Some(d) => d,
            None => {
                return Err(Error::InvalidBase64);
            },
        };
        let d2 = match value_of(s[i + 2]) {
            Some(d) => d,
            None => {
                return Err(Error::InvalidBase64);
            },
        };
        let d3 = match value_of(s[i + 3]) {
            Some(d) => d,
            None => {
                return Err(Error::InvalidBase64);
            },
        };
        out.push(d0 | ((d1 & 0x03) << 6));
        out.push((d1 >> 2) | ((d2 & 0x0F) << 4));
        out.push((d2 >> 4) | (d3 << 2));
        proof {
            assert(s@.skip(i as int).skip(4) =~= s@.skip(i + 4));
            assert(b64_decode(s@.skip(i as int)) == dec_quad(
                b64_symbol_val(s@[i as int]),
                b64_symbol_val(s@[i + 1]),
                b64_symbol_val(s@[i + 2]),
                b64_symbol_val(s@[i + 3]),
            ) + b64_decode(s@.skip(i + 4)));
            assert(out@ + b64_decode(s@.skip(i + 4)) =~= before + b64_decode(s@.skip(i as int)));
        }
        i += 4;
    }
    let ghost before = out@;
    let remaining = s.len() - i;
    if remaining == 3 {
        let d0 = match value_of(s[i]) {
            Some(d) => d,
            None => {
                return Err(Error::InvalidBase64);
            },
        };
        let d1 = match value_of(s[i + 1]) {
            Some(d) => d,
            None => {
                return Err(Error::InvalidBase64);
            },
        };
        let d2 = match value_of(s[i + 2]) {
            Some(d) => d,
            None => {
                return Err(Error::InvalidBase64);
            },
        };
        out.push(d0 | ((d1 & 0x03) << 6));
        out.push((d1 >> 2) | ((d2 & 0x0F) << 4));
        proof {
            assert(b64_decode(s@.skip(i as int)) == dec_tail3(
                b64_symbol_val(s@[i as int]),
                b64_symbol_val(s@[i + 1]),
                b64_symbol_val(s@[i + 2]),
            ));
            assert(out@ =~= before + b64_decode(s@.skip(i as int)));
            assert forall|j: int| 0 <= j < s@.len() implies b64_symbol_ok(#[trigger] s@[j]) by {
                if j >= i {
                    assert(j == i || j == i + 1 || j == i + 2);
                }
            }
        }
    } else if remaining == 2 {
        let d0 = match value_of(s[i]) {
            Some(d) => d,
            None => {
                return Err(Error::InvalidBase64);
            },
        };
        let d1 = match value_of(s[i + 1]) {
            Some(d) => d,
            None => {
                return Err(Error::InvalidBase64);
            },
        };
        out.push(d0 | ((d1 & 0x03) << 6));
        proof {
            assert(b64_decode(s@.skip(i as int)) == dec_tail2(
                b64_symbol_val(s@[i as int]),
                b64_symbol_val(s@[i + 1]),
            ));
            assert(out@ =~= before + b64_decode(s@.skip(i as int)));
            assert forall|j: int| 0 <= j < s@.len() implies b64_symbol_ok(#[trigger] s@[j]) by {
                if j >= i {
                    assert(j == i || j == i + 1);
                }
            }
        }
    } else {
        proof {
            assert(remaining == 0);
            assert(b64_decode(s@.skip(i as int)) == Seq::<u8>::empty());
            assert(out@ =~= before + b64_decode(s@.skip(i as int)));
        }
    }
    Ok(out)
}

} // verus!
