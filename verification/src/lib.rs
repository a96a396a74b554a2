//! Codec for WeakAuras share strings: a custom base64 alphabet over a
//! deflate- or Huffman-compressed object serialization (a legacy ASCII
//! format and a compact binary format with back-references).
use vstd::prelude::*;

pub mod ace_serialize;
pub mod base64;
pub mod decimal;
pub mod deflate;
pub mod double;
pub mod huffman;
pub mod lib_serialize;
pub mod value;

use crate::base64::decode::{b64_decode, b64_valid};
use crate::deflate::{deflate_compress, inflate_limited, inflate_of};
use crate::huffman::huff_size;
use crate::value::{Error, Value};

verus! {

/// Which serialization an encoded share string carries.
#[derive(Clone, Copy, Debug, PartialEq, Eq, Structural)]
pub enum OutputStringVersion {
    /// The legacy text serialization under deflate, prefixed `!`.
    Deflate,
    /// The binary serialization under deflate, prefixed `!WA:2!`.
    BinarySerialization,
}

/// Whether a byte is ASCII whitespace, as trailing input is trimmed.
pub open spec fn is_ascii_ws(b: u8) -> bool {
    b == 0x20 || b == 0x09 || b == 0x0A || b == 0x0C || b == 0x0D
}

/// The input without its trailing ASCII whitespace.
pub open spec fn trim_spec(s: Seq<u8>) -> Seq<u8>
    decreases s.len(),
{
    if s.len() > 0 && is_ascii_ws(s.last()) {
        trim_spec(s.drop_last())
    } else {
        s
    }
}

/// The `!WA:2!` prefix of a binary share string.
pub open spec fn has_binary_prefix(s: Seq<u8>) -> bool {
    s.len() >= 6 && s[0] == 33 && s[1] == 87 && s[2] == 65 && s[3] == 58 && s[4] == 50 && s[5]
        == 33
}

/// The `!` prefix of a deflate share string.
pub open spec fn has_deflate_prefix(s: Seq<u8>) -> bool {
    s.len() >= 1 && s[0] == 33
}

/// The base64 payload after the version prefix.
pub open spec fn payload_spec(s: Seq<u8>) -> Seq<u8> {
    if has_binary_prefix(s) {
        s.skip(6)
    } else if has_deflate_prefix(s) {
        s.skip(1)
    } else {
        s
    }
}

/// The byte ceiling a `max_size` argument stands for.
pub open spec fn limit_spec(max_size: Option<usize>) -> int {
    match max_size {
        Some(n) => n as int,
        None => usize::MAX as int,
    }
}

/// Whether the byte just before `end` is ASCII whitespace.
fn trailing_ws(src: &[u8], end: usize) -> (r: bool)
    requires
        1 <= end <= src@.len(),
    ensures
        r == is_ascii_ws(src@[end - 1]),
{
    let b = src[end - 1];
    b == 0x20 || b == 0x09 || b == 0x0A || b == 0x0C || b == 0x0D
}

/// Decodes a share string: trailing whitespace is trimmed, the
/// version prefix detected, the base64 undone, the payload
/// decompressed under the `max_size` ceiling (`None` lifts it), and
/// the inner serialization decoded to its first value.
pub fn decode(src: &[u8], max_size: Option<usize>) -> (r: Result<Value, Error>)
    ensures
        ({
            let t = trim_spec(src@);
            let payload = payload_spec(t);
            &&& (!b64_valid(payload) && payload.len() * 3 <= usize::MAX ==> r == Err::<
                Value,
                Error,
            >(Error::InvalidBase64))
            &&& (r == Err::<Value, Error>(Error::InvalidBase64) ==> !b64_valid(payload))
            &&& ((has_binary_prefix(t) || has_deflate_prefix(t)) && b64_valid(payload)
                && payload.len() * 3 <= usize::MAX && (inflate_of(b64_decode(payload)) matches Some(
                full,
            ) && full.len() > limit_spec(max_size)) ==> r == Err::<Value, Error>(Error::TooLarge))
            &&& (has_binary_prefix(t) && b64_valid(payload) && payload.len() * 3 <= usize::MAX
                ==> (inflate_of(b64_decode(payload)) matches Some(full) ==> (full.len()
                <= limit_spec(max_size) && full.len() >= 1 && full[0]
                == crate::lib_serialize::MINOR ==> (
            crate::lib_serialize::deserialization::bin_scalar_value(full, 1) matches Some(v) ==> r
                == Ok::<Value, Error>(v)))))
            &&& (!has_binary_prefix(t) && has_deflate_prefix(t) && b64_valid(payload)
                && payload.len() * 3 <= usize::MAX ==> (inflate_of(b64_decode(payload)) matches Some(
                full,
            ) ==> (full.len() <= limit_spec(max_size)
                ==> crate::ace_serialize::deserialization::ace_first_post(
                crate::value::utf8_lossy(full),
                r,
            ))))
            &&& (!has_binary_prefix(t) && !has_deflate_prefix(t) && b64_valid(payload)
                && payload.len() * 3 <= usize::MAX && b64_decode(payload).len() >= 1 && b64_decode(
                payload,
            )[0] == 1 ==> crate::ace_serialize::deserialization::ace_first_post(
                crate::value::utf8_lossy(b64_decode(payload).skip(1)),
                r,
            ))
            &&& (!has_binary_prefix(t) && !has_deflate_prefix(t) && b64_valid(payload)
                && payload.len() * 3 <= usize::MAX && b64_decode(payload).len() >= 5 && b64_decode(
                payload,
            )[0] == 3 && huff_size(b64_decode(payload)) > limit_spec(max_size) ==> r == Err::<
                Value,
                Error,
            >(Error::TooLarge))
        }),
{
    let limit: usize = match max_size {
        Some(n) => n,
        None => usize::MAX,
    };
    // Trim trailing ASCII whitespace.
    proof {
        assert(src@.take(src@.len() as int) =~= src@);
    }
    let mut end: usize = src.len();
    while end > 0 && trailing_ws(src, end)
        invariant
            end <= src@.len(),
            trim_spec(src@) == trim_spec(src@.take(end as int)),
        decreases end,
    {
        proof {
            assert(src@.take(end as int).drop_last() =~= src@.take(end - 1));
        }
        end -= 1;
    }
    let trimmed = vstd::slice::slice_subrange(src, 0, end);
    proof {
        assert(src@.take(end as int) =~= src@.subrange(0, end as int));
        assert(trim_spec(src@.take(end as int)) == src@.take(end as int));
    }

    // Detect the version prefix.
    let is_binary = trimmed.len() >= 6 && trimmed[0] == 33 && trimmed[1] == 87 && trimmed[2] == 65
        && trimmed[3] == 58 && trimmed[4] == 50 && trimmed[5] == 33;
    let is_deflate = !is_binary && trimmed.len() >= 1 && trimmed[0] == 33;
    let payload: &[u8] = if is_binary {
        vstd::slice::slice_subrange(trimmed, 6, trimmed.len())
    } else if is_deflate {
        vstd::slice::slice_subrange(trimmed, 1, trimmed.len())
    } else {
        trimmed
    };
    proof {
        assert(payload@ =~= payload_spec(trim_spec(src@)));
    }

    let decoded = match crate::base64::decode::decode(payload) {
        Err(e) => {
            return Err(e);
        },
        Ok(d) => d,
    };

    if is_binary || is_deflate {
        let inflated = match inflate_limited(decoded.as_slice(), limit) {
            Err(e) => {
                return Err(e);
            },
            Ok(p) => p,
        };
        if inflated.more {
            return Err(Error::TooLarge);
        }
        let bytes = inflated.bytes;
        if is_binary {
            let de = crate::lib_serialize::deserialization::Deserializer::from_slice(
                bytes.as_slice(),
            );
            de.deserialize_first()
        } else {
            let text = crate::value::utf8_lossy_bytes(bytes.as_slice());
            let de = crate::ace_serialize::deserialization::Deserializer::from_str(
                text.as_slice(),
            );
            de.deserialize_first()
        }
    } else {
        let bytes = match crate::huffman::decompress(decoded.as_slice(), limit) {
            Err(e) => {
                return Err(e);
            },
            Ok(b) => b,
        };
        let text = crate::value::utf8_lossy_bytes(bytes.as_slice());
        let de = crate::ace_serialize::deserialization::Deserializer::from_str(text.as_slice());
        de.deserialize_first()
    }
}

/// Encodes a value as a share string: the chosen serialization,
/// deflate at the best level, and the base64 form behind the
/// version's prefix.
pub fn encode(value: &Value, string_version: OutputStringVersion) -> (r: Result<Vec<u8>, Error>)
    ensures
        r matches Ok(out) ==> out@.len() >= 1 && out@[0] == 33,
        string_version == OutputStringVersion::BinarySerialization ==> (r matches Ok(out)
            ==> has_binary_prefix(out@)),
        ({
            &&& (value matches Value::Number(b) && crate::double::f_is_nan(*b) ==> r == Err::<
                Vec<u8>,
                Error,
            >(Error::UnsupportedNaN))
            &&& (string_version == OutputStringVersion::Deflate ==> (r matches Ok(out) ==> exists|
                c: Seq<u8>,
            |
                out@ == seq![33u8] + #[trigger] crate::base64::encode::b64_encode(c) && inflate_of(
                    c,
                ) == Some(
                    seq![94u8, 49u8] + crate::ace_serialize::serialization::ace_value_str(*value)
                        + seq![94u8, 94u8],
                )))
            &&& (string_version == OutputStringVersion::BinarySerialization ==> (r matches Ok(out)
                ==> exists|c: Seq<u8>|
                out@ == seq![33u8, 87u8, 65u8, 58u8, 50u8, 33u8]
                    + #[trigger] crate::base64::encode::b64_encode(c) && (inflate_of(c) matches Some(
                    inner,
                ) && inner.len() >= 1 && inner[0] == crate::lib_serialize::MINOR)))
            &&& (string_version == OutputStringVersion::BinarySerialization ==> (
            crate::lib_serialize::serialization::bin_value_enc(
                *value,
                Seq::<Seq<u8>>::empty(),
            ) matches Some(p) ==> (r matches Ok(out) ==> exists|c: Seq<u8>|
                out@ == seq![33u8, 87u8, 65u8, 58u8, 50u8, 33u8]
                    + #[trigger] crate::base64::encode::b64_encode(c) && inflate_of(c) == Some(
                    seq![crate::lib_serialize::MINOR] + p.0,
                ))))
            &&& (string_version == OutputStringVersion::Deflate
                && crate::ace_serialize::serialization::ace_ok(*value, 129) ==> r is Ok || r
                == Err::<Vec<u8>, Error>(Error::CapacityOverflow))
            &&& (string_version == OutputStringVersion::Deflate && crate::value::too_deep(
                *value,
                129,
            ) && crate::value::nan_free(*value) ==> r == Err::<Vec<u8>, Error>(
                Error::RecursionLimit,
            ))
            &&& (string_version == OutputStringVersion::BinarySerialization
                && crate::value::too_deep(*value, 129) && crate::value::nan_free(*value) ==> (r
                == Err::<Vec<u8>, Error>(Error::RecursionLimit) || r == Err::<Vec<u8>, Error>(
                Error::CapacityOverflow,
            )))
            &&& (string_version == OutputStringVersion::BinarySerialization
                && crate::lib_serialize::serialization::fits(*value, 129)
                && crate::lib_serialize::serialization::ref_weight(*value, 129) <= 0xFF_FFFE ==> r
                is Ok || r == Err::<Vec<u8>, Error>(Error::CapacityOverflow))
        }),
        r is Err ==> r == Err::<Vec<u8>, Error>(Error::UnsupportedNaN) || r == Err::<
            Vec<u8>,
            Error,
        >(Error::RecursionLimit) || r == Err::<Vec<u8>, Error>(Error::CapacityOverflow),
{
    let serialized = match string_version {
        OutputStringVersion::BinarySerialization => {
            match crate::lib_serialize::serialization::Serializer::serialize(value, None) {
                Err(e) => {
                    return Err(e);
                },
                Ok(s) => s,
            }
        },
        OutputStringVersion::Deflate => {
            match crate::ace_serialize::serialization::Serializer::serialize(value, None) {
                Err(e) => {
                    return Err(e);
                },
                Ok(s) => s,
            }
        },
    };
    let compressed = deflate_compress(serialized.as_slice());
    match string_version {
        OutputStringVersion::BinarySerialization => {
            let mut out: Vec<u8> = Vec::new();
            out.push(33);
            out.push(87);
            out.push(65);
            out.push(58);
            out.push(50);
            out.push(33);
            match crate::base64::encode::calculate_capacity(compressed.as_slice()) {
                Err(e) => {
                    return Err(e);
                },
                Ok(_) => {},
            }
            crate::base64::encode::encode_into(compressed.as_slice(), &mut out);
            proof {
                assert(out@ =~= seq![33u8, 87u8, 65u8, 58u8, 50u8, 33u8]
                    + crate::base64::encode::b64_encode(compressed@));
            }
            Ok(out)
        },
        OutputStringVersion::Deflate => {
            let res = crate::base64::encode::encode_weakaura(compressed.as_slice());
            match &res {
                Ok(out) => {
                    proof {
                        assert(out@ == seq![33u8] + crate::base64::encode::b64_encode(
                            compressed@,
                        ));
                        assert(inflate_of(compressed@) == Some(
                            seq![94u8, 49u8] + crate::ace_serialize::serialization::ace_value_str(
                                *value,
                            ) + seq![94u8, 94u8],
                        ));
                    }
                },
                Err(_) => {},
            }
            res
        },
    }
}

} // verus!
