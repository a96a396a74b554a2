//! The modern compression step: raw deflate, compressed at the best
//! level on encode and inflated under a byte ceiling on decode.
use crate::value::Error;
use vstd::prelude::*;

verus! {

/// What a raw deflate stream inflates to: the full decompressed
/// bytes, or `None` when the stream is not well formed.
pub uninterp spec fn inflate_of(data: Seq<u8>) -> Option<Seq<u8>>;

/// Compresses with raw deflate at the best level.
///
/// Relies on `flate2::write::DeflateEncoder`: the library's central
/// promise that its decompressor recovers the compressed input.
/// Writing into a fresh vector cannot fail.
#[verifier::external_body]
pub(crate) fn deflate_compress(data: &[u8]) -> (r: Vec<u8>)
    ensures
        inflate_of(r@) == Some(data@),
{
    let mut encoder = flate2::write::DeflateEncoder::new(
        Vec::new(),
        flate2::Compression::best(),
    );
    let _ = std::io::Write::write_all(&mut encoder, data);
    encoder.finish().unwrap_or_default()
}

/// What a limited inflate hands back: the output read under the
/// ceiling, and whether more output remained beyond it.
pub struct Inflated {
    pub bytes: Vec<u8>,
    pub more: bool,
}

/// What a successful limited inflate hands back when the stream is
/// well formed: the full output up to `limit` bytes, and whether any
/// output remained beyond the limit.
pub open spec fn inflate_limited_post(data: Seq<u8>, limit: int, out: Seq<u8>, more: bool) -> bool {
    inflate_of(data) matches Some(full) ==> {
        &&& more == (full.len() > limit)
        &&& (full.len() <= limit ==> out == full)
        &&& (full.len() > limit ==> out == full.take(limit))
    }
}

/// Inflates a raw deflate stream, reading at most `limit` bytes of
/// output, and reports whether more output remained.
///
/// Relies on `flate2::read::DeflateDecoder` under std's `Read::take`:
/// for a well-formed stream the read produces the leading `limit`
/// bytes of the full output, and the extra probe read tells whether
/// the stream held more.
#[verifier::external_body]
pub(crate) fn inflate_limited(data: &[u8], limit: usize) -> (r: Result<Inflated, Error>)
    ensures
        r matches Err(e) ==> e == Error::DecompressionError,
        r matches Ok(p) ==> inflate_limited_post(data@, limit as int, p.bytes@, p.more),
        inflate_of(data@) is Some ==> r is Ok,
{
    let decoder = flate2::read::DeflateDecoder::new(data);
    let mut limited = std::io::Read::take(decoder, limit as u64);
    let mut out = Vec::new();
    if std::io::Read::read_to_end(&mut limited, &mut out).is_err() {
        return Err(Error::DecompressionError);
    }
    let mut rest = limited.into_inner();
    let mut probe = [0u8; 1];
    let more = match std::io::Read::read(&mut rest, &mut probe) {
        Ok(n) => n > 0,
        Err(_) => false,
    };
    Ok(Inflated { bytes: out, more })
}

} // verus!
