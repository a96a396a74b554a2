//! The legacy Huffman decompressor: a self-describing code table read
//! through an escape scheme, lowered into a byte-indexed lookup table,
//! then a bit-packed body decoded to the declared output size.
use vstd::prelude::*;

pub mod bitfield;
pub mod lookup_table;
pub mod utils;

use crate::huffman::bitfield::{bf_inv, Bitfield};
use crate::huffman::lookup_table::{
    build_lookup_table, entry_wf, lemma_entry_wf_widen, table_wf, TableData, TableEntry,
};
use crate::huffman::utils::{get_code, unescape_code};
use crate::value::Error;

verus! {

/// The declared output size of a Huffman stream: three bytes,
/// little-endian, after the codec byte and the symbol count.
pub open spec fn huff_size(s: Seq<u8>) -> int {
    s[2] + s[3] * 256 + s[4] * 65536
}

/// Undoes the legacy compression. The first byte selects the
/// sub-codec: 1 is a verbatim payload, 3 is Huffman, anything else is
/// unknown. A Huffman stream declares its output size, which must be
/// positive and no larger than `max_size`.
pub fn decompress(bytes: &[u8], max_size: usize) -> (r: Result<Vec<u8>, Error>)
    ensures
        bytes@.len() == 0 ==> r == Err::<Vec<u8>, Error>(Error::UnknownCodec),
        bytes@.len() >= 1 && bytes@[0] != 1 && bytes@[0] != 3 ==> r == Err::<Vec<u8>, Error>(
            Error::UnknownCodec,
        ),
        bytes@.len() >= 1 && bytes@[0] == 1 ==> (r matches Ok(out) && out@ == bytes@.skip(1)),
        bytes@.len() >= 1 && bytes@[0] == 3 && bytes@.len() < 5 ==> r == Err::<Vec<u8>, Error>(
            Error::InsufficientData,
        ),
        bytes@.len() >= 5 && bytes@[0] == 3 && huff_size(bytes@) == 0 ==> r == Err::<
            Vec<u8>,
            Error,
        >(Error::InsufficientData),
        bytes@.len() >= 5 && bytes@[0] == 3 && huff_size(bytes@) > max_size ==> r == Err::<
            Vec<u8>,
            Error,
        >(Error::TooLarge),
        bytes@.len() >= 5 && bytes@[0] == 3 ==> (r matches Ok(out) ==> out@.len() == huff_size(
            bytes@,
        ) && 0 < huff_size(bytes@) <= max_size),
        r matches Err(e) ==> (e == Error::UnknownCodec || e == Error::InsufficientData || e
            == Error::TooLarge || e == Error::UnexpectedEOF || e == Error::CodecError || e
            == Error::UnsupportedCodeLength),
        r == Err::<Vec<u8>, Error>(Error::UnknownCodec) <==> bytes@.len() == 0 || (bytes@[0] != 1
            && bytes@[0] != 3),
        r == Err::<Vec<u8>, Error>(Error::InsufficientData) <==> bytes@.len() >= 1 && bytes@[0]
            == 3 && (bytes@.len() < 5 || huff_size(bytes@) == 0),
        r == Err::<Vec<u8>, Error>(Error::TooLarge) <==> bytes@.len() >= 5 && bytes@[0] == 3
            && huff_size(bytes@) > 0 && huff_size(bytes@) > max_size,
{
    if bytes.len() == 0 {
        return Err(Error::UnknownCodec);
    }
    let codec = bytes[0];
    if codec == 1 {
        let mut out: Vec<u8> = Vec::new();
        let mut i: usize = 1;
        while i < bytes.len()
            invariant
                1 <= i <= bytes@.len(),
                out@ == bytes@.subrange(1, i as int),
            decreases bytes@.len() - i,
        {
            out.push(bytes[i]);
            i += 1;
        }
        proof {
            assert(bytes@.subrange(1, bytes@.len() as int) =~= bytes@.skip(1));
        }
        return Ok(out);
    }
    if codec != 3 {
        return Err(Error::UnknownCodec);
    }
    if bytes.len() < 5 {
        return Err(Error::InsufficientData);
    }
    let num_symbols: usize = bytes[1] as usize + 1;
    let original_size: usize = bytes[2] as usize + bytes[3] as usize * 256 + bytes[4] as usize
        * 65536;
    if original_size == 0 {
        return Err(Error::InsufficientData);
    }
    if original_size > max_size {
        return Err(Error::TooLarge);
    }
    let mut pos: usize = 5;
    let mut bitfield = Bitfield::new();
    let mut codes: Vec<(u32, u8, u8)> = Vec::new();
    let mut min_code_len: u8 = 255;

    let mut n: usize = 0;
    while n < num_symbols
        invariant
            bytes@.len() >= 5,
            bytes@[0] == 3,
            original_size == huff_size(bytes@),
            0 < original_size <= max_size,
            bf_inv(bitfield),
            pos <= bytes@.len(),
            codes@.len() == n,
            forall|k: int| 0 <= k < codes@.len() ==> (#[trigger] codes@[k]).1 <= 32,
        decreases num_symbols - n,
    {
        if pos >= bytes.len() {
            return Err(Error::UnexpectedEOF);
        }
        let symbol = bitfield.insert_and_extract_byte(bytes[pos]);
        pos += 1;

        let mut found = false;
        let mut code: u32 = 0;
        let mut code_len: u8 = 0;
        while !found
            invariant
                bytes@.len() >= 5,
                bytes@[0] == 3,
                original_size == huff_size(bytes@),
                0 < original_size <= max_size,
                bf_inv(bitfield),
                pos <= bytes@.len(),
                found ==> code_len <= 32,
            decreases bytes@.len() - pos + if found {
                0int
            } else {
                1int
            },
        {
            if pos >= bytes.len() {
                return Err(Error::UnexpectedEOF);
            }
            match bitfield.insert(bytes[pos]) {
                Ok(()) => {},
                Err(()) => {
                    return Err(Error::CodecError);
                },
            }
            pos += 1;
            match get_code(&mut bitfield) {
                Ok(Some(v)) => {
                    let unescaped = unescape_code(v.0, v.1);
                    code = unescaped.0;
                    code_len = unescaped.1;
                    if code_len < min_code_len {
                        min_code_len = code_len;
                    }
                    found = true;
                },
                Ok(None) => {},
                Err(e) => {
                    return Err(e);
                },
            }
        }
        codes.push((code, code_len, symbol));
        n += 1;
    }

    // Insert shorter codes first, as a sort by (length, code) would:
    // within one length the insertion order cannot matter, since
    // distinct codes of one length touch distinct table slots.
    let mut sorted: Vec<(u32, u8, u8)> = Vec::new();
    let mut len_class: u8 = 0;
    while len_class <= 32
        invariant
            forall|k: int| 0 <= k < sorted@.len() ==> (#[trigger] sorted@[k]).1 <= 32,
            forall|k: int| 0 <= k < codes@.len() ==> (#[trigger] codes@[k]).1 <= 32,
        decreases 33 - len_class,
    {
        let mut k: usize = 0;
        while k < codes.len()
            invariant
                forall|j: int| 0 <= j < sorted@.len() ==> (#[trigger] sorted@[j]).1 <= 32,
                forall|j: int| 0 <= j < codes@.len() ==> (#[trigger] codes@[j]).1 <= 32,
            decreases codes@.len() - k,
        {
            if codes[k].1 == len_class {
                sorted.push(codes[k]);
            }
            k += 1;
        }
        len_class += 1;
    }

    let lut = match build_lookup_table(sorted.as_slice()) {
        Ok(t) => t,
        Err(e) => {
            return Err(e);
        },
    };

    let mut result: Vec<u8> = Vec::new();
    loop
        invariant
            bf_inv(bitfield),
            pos <= bytes@.len(),
            table_wf(lut@, 4),
            result@.len() < original_size,
            bytes@.len() >= 5,
            bytes@[0] == 3,
            original_size == huff_size(bytes@),
            0 < original_size <= max_size,

        decreases bytes@.len() - pos, bitfield.len,
    {
        let ghost pos0 = pos as int;
        bitfield.fill_from_iterator(bytes, &mut pos);
        let original_len = bitfield.get_len();

        if bitfield.get_len() >= min_code_len {
            let first_idx = bitfield.peek_byte();
            let mut cursor: &TableEntry = &lut[first_idx as usize];
            proof {
                assert(entry_wf(lut@[first_idx as int], 4));
            }
            if bitfield.get_len() < cursor.code_length {
                break ;
            }
            let mut new_bitfield = bitfield;
            let mut emitted = false;
            while !emitted && new_bitfield.get_len() >= cursor.code_length
                invariant
                    bf_inv(new_bitfield),
                    bf_inv(bitfield),
                    entry_wf(*cursor, 4),
                    table_wf(lut@, 4),
                    result@.len() < original_size,
                    pos <= bytes@.len(),
                    bytes@.len() >= 5,
                    bytes@[0] == 3,
                    original_size == huff_size(bytes@),
                    0 < original_size <= max_size,

                    emitted ==> bitfield.len < original_len,
                    !emitted ==> bitfield.len == original_len,
                    !emitted ==> new_bitfield.len <= original_len,
                decreases new_bitfield.len + if emitted {
                    0int
                } else {
                    1int
                },
            {
                if cursor.code_length == 0 {
                    return Err(Error::CodecError);
                }
                match &cursor.data {
                    TableData::Reference(v) => {
                        new_bitfield.discard_bits(cursor.code_length);
                        let idx = new_bitfield.peek_byte();
                        proof {
                            assert(entry_wf(v@[idx as int], 3));
                            lemma_entry_wf_widen(v@[idx as int], 3, 4);
                        }
                        cursor = &v[idx as usize];
                    },
                    TableData::Symbol(s) => {
                        result.push(*s);
                        if result.len() == original_size {
                            return Ok(result);
                        }
                        bitfield = new_bitfield;
                        bitfield.discard_bits(cursor.code_length);
                        emitted = true;
                    },
                }
            }
        } else {
            break ;
        }

        if bitfield.get_len() == original_len {
            return Err(Error::CodecError);
        }
        proof {
            assert(pos0 <= pos as int);
        }
    }

    Err(Error::CodecError)
}

} // verus!
