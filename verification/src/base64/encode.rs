//! Base64 encoding: three input bytes become four symbols; a trailing
//! one- or two-byte remainder becomes two or three symbols.
use crate::base64::{b64_symbol, symbol_of};
use crate::value::Error;
use vstd::prelude::*;

verus! {

/// The four symbols that encode a full three-byte group.
pub open spec fn enc_quad(b0: u8, b1: u8, b2: u8) -> Seq<u8> {
    seq![
        b64_symbol(b0 & 0x3F),
        b64_symbol((b0 >> 6) | ((b1 & 0x0F) << 2)),
        b64_symbol((b1 >> 4) | ((b2 & 0x03) << 4)),
        b64_symbol(b2 >> 2),
    ]
}

/// The three symbols that encode a trailing two-byte remainder.
pub open spec fn enc_tail2(b0: u8, b1: u8) -> Seq<u8> {
    seq![
        b64_symbol(b0 & 0x3F),
        b64_symbol((b0 >> 6) | ((b1 & 0x0F) << 2)),
        b64_symbol(b1 >> 4),
    ]
}

/// The two symbols that encode a trailing one-byte remainder.
pub open spec fn enc_tail1(b0: u8) -> Seq<u8> {
    seq![b64_symbol(b0 & 0x3F), b64_symbol(b0 >> 6)]
}

/// The encoding of a whole byte sequence.
pub open spec fn b64_encode(s: Seq<u8>) -> Seq<u8>
    decreases s.len(),
{
    if s.len() >= 3 {
        enc_quad(s[0], s[1], s[2]) + b64_encode(s.skip(3))
    } else if s.len() == 2 {
        enc_tail2(s[0], s[1])
    } else if s.len() == 1 {
        enc_tail1(s[0])
    } else {
        Seq::<u8>::empty()
    }
}

/// Number of symbols the encoding of `len` input bytes takes.
pub open spec fn enc_capacity(len: nat) -> nat {
    len / 3 * 4 + if len % 3 == 0 {
        0nat
    } else {
        len % 3 + 1
    }
}

/// All six-bit groups drawn while encoding stay below 64.
proof fn lemma_enc_group_bounds()
    by (bit_vector)
    ensures
        forall|b0: u8, b1: u8| #[trigger] ((b0 >> 6) | ((b1 & 0x0F) << 2)) < 64,
        forall|b1: u8, b2: u8| #[trigger] ((b1 >> 4) | ((b2 & 0x03) << 4)) < 64,
        forall|b0: u8| #[trigger] (b0 & 0x3F) < 64,
        forall|b2: u8| #[trigger] (b2 >> 2) < 64,
        forall|b1: u8| #[trigger] (b1 >> 4) < 64,
        forall|b0: u8| #[trigger] (b0 >> 6) < 64,
{
}

/// How many symbols encoding will produce, or `CapacityOverflow` when
/// that count does not fit a machine word.
pub fn calculate_capacity(data: &[u8]) -> (r: Result<usize, Error>)
    ensures
        r matches Ok(n) ==> n == enc_capacity(data@.len() as nat),
        r is Err <==> enc_capacity(data@.len() as nat) > usize::MAX,
        r is Err ==> r == Err::<usize, Error>(Error::CapacityOverflow),
{
    let len = data.len();
    let groups = len / 3;
    let leftover = len % 3;
    if groups > usize::MAX / 4 {
        return Err(Error::CapacityOverflow);
    }
    let base = groups * 4;
    if leftover > 0 {
        if base > usize::MAX - leftover - 1 {
            return Err(Error::CapacityOverflow);
        }
        Ok(base + leftover + 1)
    } else {
        Ok(base)
    }
}

/// Encodes raw bytes into the share-string alphabet.
pub fn encode_raw(data: &[u8]) -> (r: Result<Vec<u8>, Error>)
    ensures
        r matches Ok(out) ==> out@ == b64_encode(data@),
        r is Err <==> enc_capacity(data@.len() as nat) > usize::MAX,
        r is Err ==> r == Err::<Vec<u8>, Error>(Error::CapacityOverflow),
{
    let capacity = match calculate_capacity(data) {
        Ok(c) => c,
        Err(e) => {
            return Err(e);
        },
    };
    let mut out: Vec<u8> = Vec::with_capacity(capacity);
    encode_into(data, &mut out);
    Ok(out)
}

/// Same as `encode_raw` but with the `"!"` deflate prefix in front.
pub fn encode_weakaura(data: &[u8]) -> (r: Result<Vec<u8>, Error>)
    ensures
        r matches Ok(out) ==> out@ == seq![33u8] + b64_encode(data@),
        r is Err <==> enc_capacity(data@.len() as nat) > usize::MAX,
        r is Err ==> r == Err::<Vec<u8>, Error>(Error::CapacityOverflow),
{
    let capacity = match calculate_capacity(data) {
        Ok(c) => c,
        Err(e) => {
            return Err(e);
        },
    };
    let mut out: Vec<u8> = Vec::new();
    out.push(33);  // '!'
    encode_into(data, &mut out);
    proof {
        assert(out@ =~= seq![33u8] + b64_encode(data@));
    }
    Ok(out)
}

/// Appends the encoding of `data` to `out`.
pub(crate) fn encode_into(data: &[u8], out: &mut Vec<u8>)
    ensures
        final(out)@ == old(out)@ + b64_encode(data@),
{
    proof {
        lemma_enc_group_bounds();
        assert(data@.skip(0) =~= data@);
    }
    let ghost prefix = out@;
    let mut i: usize = 0;
    while data.len() - i >= 3
        invariant
            i <= data@.len(),
            i % 3 == 0,
            out@ + b64_encode(data@.skip(i as int)) == prefix + b64_encode(data@),
            forall|b0: u8, b1: u8| #[trigger] ((b0 >> 6) | ((b1 & 0x0F) << 2)) < 64,
            forall|b1: u8, b2: u8| #[trigger] ((b1 >> 4) | ((b2 & 0x03) << 4)) < 64,
            forall|b0: u8| #[trigger] (b0 & 0x3F) < 64,
            forall|b2: u8| #[trigger] (b2 >> 2) < 64,
            forall|b1: u8| #[trigger] (b1 >> 4) < 64,
            forall|b0: u8| #[trigger] (b0 >> 6) < 64,
        decreases data@.len() - i,
    {
        let ghost before = out@;
        let b0 = data[i];
        let b1 = data[i + 1];
        let b2 = data[i + 2];
        out.push(symbol_of(b0 & 0x3F));
        out.push(symbol_of((b0 >> 6) | ((b1 & 0x0F) << 2)));
        out.push(symbol_of((b1 >> 4) | ((b2 & 0x03) << 4)));
        out.push(symbol_of(b2 >> 2));
        proof {
            assert(data@.skip(i as int).skip(3) =~= data@.skip(i + 3));
            assert(b64_encode(data@.skip(i as int)) == enc_quad(b0, b1, b2) + b64_encode(
                data@.skip(i + 3),
            ));
            assert(out@ + b64_encode(data@.skip(i + 3)) =~= before + b64_encode(
                data@.skip(i as int),
            ));
        }
        i += 3;
    }
    let ghost before = out@;
    let remaining = data.len() - i;
    if remaining == 2 {
        let b0 = data[i];
        let b1 = data[i + 1];
        out.push(symbol_of(b0 & 0x3F));
        out.push(symbol_of((b0 >> 6) | ((b1 & 0x0F) << 2)));
        out.push(symbol_of(b1 >> 4));
        proof {
            assert(b64_encode(data@.skip(i as int)) == enc_tail2(b0, b1));
            assert(out@ =~= before + b64_encode(data@.skip(i as int)));
        }
    } else if remaining == 1 {
        let b0 = data[i];
        out.push(symbol_of(b0 & 0x3F));
        out.push(symbol_of(b0 >> 6));
        proof {
            assert(b64_encode(data@.skip(i as int)) == enc_tail1(b0));
            assert(out@ =~= before + b64_encode(data@.skip(i as int)));
        }
    } else {
        proof {
            assert(b64_encode(data@.skip(i as int)) == Seq::<u8>::empty());
            assert(out@ =~= before + b64_encode(data@.skip(i as int)));
        }
    }
}

} // verus!
