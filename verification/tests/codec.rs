//! End-to-end tests of the share-string codec: the base64 layer, the
//! two object serializations, the legacy Huffman decompressor, and
//! the full pipeline.
use wa_codec::ace_serialize;
use wa_codec::base64;
use wa_codec::huffman;
use wa_codec::lib_serialize;
use wa_codec::value::{Error, Value};
use wa_codec::{decode, encode, OutputStringVersion};

fn num(v: f64) -> Value {
    Value::Number(v.to_bits())
}

fn text(s: &str) -> Value {
    Value::Text(s.as_bytes().to_vec())
}

fn raw_deflate(data: &[u8]) -> Vec<u8> {
    let mut encoder =
        flate2::write::DeflateEncoder::new(Vec::new(), flate2::Compression::best());
    std::io::Write::write_all(&mut encoder, data).unwrap();
    encoder.finish().unwrap()
}

fn inner_bytes(encoded: &[u8], prefix_len: usize) -> Vec<u8> {
    let payload = &encoded[prefix_len..];
    let compressed = base64::decode::decode(payload).unwrap();
    let mut out = Vec::new();
    let mut decoder = flate2::read::DeflateDecoder::new(compressed.as_slice());
    std::io::Read::read_to_end(&mut decoder, &mut out).unwrap();
    out
}

#[test]
fn decode_is_inverse_of_encode() {
    let data: Vec<u8> = (0..=255u16).map(|v| v as u8).cycle().take(1000).collect();

    for chunk in data.chunks_exact(100) {
        let encoded = base64::encode::encode_raw(chunk).unwrap();

        assert_eq!(base64::decode::decode(&encoded).unwrap(), chunk);
    }
}

#[test]
fn base64_rejects_bytes_outside_the_alphabet() {
    assert_eq!(base64::decode::decode(b"ab=d"), Err(Error::InvalidBase64));
    assert_eq!(base64::decode::decode(b"abcde"), Err(Error::InvalidBase64));
}

#[test]
fn base64_alphabet_order_is_lower_upper_digit_parens() {
    // 0 -> 'a', 25 -> 'z', 26 -> 'A', 52 -> '0', 62 -> '(', 63 -> ')'
    let encoded = base64::encode::encode_raw(&[0]).unwrap();
    assert_eq!(encoded, b"aa".to_vec());
    let encoded = base64::encode::encode_raw(&[0xFF, 0xFF, 0xFF]).unwrap();
    assert_eq!(encoded, b"))))".to_vec());
}

#[test]
fn seven_bit_integer_decodes_from_binary_stream() {
    // MINOR = 1, then the 7-bit integer 1 (0000 0011).
    let compressed = raw_deflate(&[0x01, 0x03]);
    let mut share = b"!WA:2!".to_vec();
    share.extend_from_slice(&base64::encode::encode_raw(&compressed).unwrap());
    assert_eq!(decode(&share, None), Ok(num(1.0)));
}

#[test]
fn list_of_three_small_integers_has_the_expected_wire_bytes() {
    let value = Value::List(vec![num(1.0), num(2.0), num(3.0)]);
    let encoded = encode(&value, OutputStringVersion::BinarySerialization).unwrap();
    assert!(encoded.starts_with(b"!WA:2!"));
    // Embedded array tag: (2 << 2) | (3 << 4) | 2 = 0x3A, then the
    // 7-bit integers 1, 2, 3.
    assert_eq!(inner_bytes(&encoded, 6), vec![0x01, 0x3A, 0x03, 0x05, 0x07]);
}

#[test]
fn repeated_string_uses_a_back_reference() {
    let value = Value::List(vec![text("abc"), text("abc")]);
    let encoded = encode(&value, OutputStringVersion::BinarySerialization).unwrap();
    let inner = inner_bytes(&encoded, 6);
    // MINOR, embedded array of 2, embedded str of 3 + "abc", StrRef8 to 1.
    assert_eq!(
        inner,
        vec![0x01, 0x2A, 0x32, b'a', b'b', b'c', 26 << 3, 0x01]
    );
    assert_eq!(decode(&encoded, None), Ok(value));
}

#[test]
fn text_blob_with_integer_keys_lowers_to_a_list() {
    let de = ace_serialize::deserialization::Deserializer::from_str(b"^1^T^N1^SAlpha^N2^SBeta^t^^");
    assert_eq!(
        de.deserialize_first(),
        Ok(Value::List(vec![text("Alpha"), text("Beta")]))
    );
}

#[test]
fn text_blob_with_named_keys_lowers_to_an_object() {
    let de = ace_serialize::deserialization::Deserializer::from_str(b"^1^T^SName^SAce^SCount^N7^t^^");
    assert_eq!(
        de.deserialize_first(),
        Ok(Value::Object(vec![
            (b"Name".to_vec(), text("Ace")),
            (b"Count".to_vec(), num(7.0)),
        ]))
    );
}

#[test]
fn nan_is_rejected_and_infinity_keeps_its_legacy_spelling() {
    assert_eq!(
        encode(&num(f64::NAN), OutputStringVersion::Deflate),
        Err(Error::UnsupportedNaN)
    );
    assert_eq!(
        encode(&num(f64::NAN), OutputStringVersion::BinarySerialization),
        Err(Error::UnsupportedNaN)
    );
    let serialized =
        ace_serialize::serialization::Serializer::serialize(&num(f64::INFINITY), None).unwrap();
    assert_eq!(serialized, b"^1^N1.#INF^^".to_vec());
    assert!(encode(&num(f64::INFINITY), OutputStringVersion::Deflate).is_ok());
}

#[test]
fn decode_enforces_the_size_ceiling_exactly() {
    let value = text(&"a".repeat(100));
    let encoded = encode(&value, OutputStringVersion::BinarySerialization).unwrap();
    let inner_len = inner_bytes(&encoded, 6).len();
    assert_eq!(decode(&encoded, Some(inner_len)), Ok(value));
    assert_eq!(decode(&encoded, Some(inner_len - 1)), Err(Error::TooLarge));
}

#[test]
fn huffman_rejects_an_output_size_above_the_ceiling() {
    // Codec 3, one symbol, declared output size 5.
    let bytes = [3u8, 0, 5, 0, 0, 65, 6, 0];
    assert_eq!(huffman::decompress(&bytes, 4), Err(Error::TooLarge));
}

#[test]
fn huffman_codec_one_returns_the_payload_verbatim() {
    assert_eq!(huffman::decompress(&[1, 9, 8, 7], 100), Ok(vec![9, 8, 7]));
}

#[test]
fn huffman_rejects_unknown_codecs_and_short_headers() {
    assert_eq!(huffman::decompress(&[7, 1, 2, 3, 4, 5], 100), Err(Error::UnknownCodec));
    assert_eq!(huffman::decompress(&[], 100), Err(Error::UnknownCodec));
    assert_eq!(huffman::decompress(&[3, 0], 100), Err(Error::InsufficientData));
    assert_eq!(huffman::decompress(&[3, 0, 0, 0, 0], 100), Err(Error::InsufficientData));
}

/// Writes bits least-significant-first into a byte stream, as the
/// legacy compressor did.
struct BitWriter {
    bytes: Vec<u8>,
    bit: u32,
}

impl BitWriter {
    fn new() -> Self {
        BitWriter { bytes: Vec::new(), bit: 0 }
    }

    fn push_bit(&mut self, b: bool) {
        if self.bit % 8 == 0 {
            self.bytes.push(0);
        }
        if b {
            let last = self.bytes.len() - 1;
            self.bytes[last] |= 1 << (self.bit % 8);
        }
        self.bit += 1;
    }

    fn push_byte(&mut self, v: u8) {
        for i in 0..8 {
            self.push_bit((v >> i) & 1 == 1);
        }
    }

    /// A code's escaped form: a zero after every set bit, then the
    /// two-set-bit terminator.
    fn push_escaped_code(&mut self, code: u32, len: u32) {
        for i in 0..len {
            if (code >> i) & 1 == 1 {
                self.push_bit(true);
                self.push_bit(false);
            } else {
                self.push_bit(false);
            }
        }
        self.push_bit(true);
        self.push_bit(true);
    }
}

#[test]
fn huffman_with_all_256_symbols_decodes_correctly() {
    // Every symbol gets the fixed 8-bit code equal to itself.
    let data: Vec<u8> = (0..=255u16).map(|v| v as u8).collect();
    let mut w = BitWriter::new();
    for s in 0..=255u16 {
        w.push_byte(s as u8);
        w.push_escaped_code(s as u32, 8);
    }
    for &d in &data {
        w.push_byte(d);
    }
    let mut bytes = vec![3u8, 255, 0, 1, 0];  // 256 = 0x000100, little-endian
    bytes.extend_from_slice(&w.bytes);
    assert_eq!(huffman::decompress(&bytes, 1 << 20), Ok(data));
}

#[test]
fn huffman_rejects_codes_longer_than_32_bits() {
    // One symbol whose escaped code runs 33 zero bits before the
    // terminator.
    let mut w = BitWriter::new();
    w.push_byte(65);
    for _ in 0..33 {
        w.push_bit(false);
    }
    w.push_bit(true);
    w.push_bit(true);
    let mut bytes = vec![3u8, 0, 1, 0, 0];
    bytes.extend_from_slice(&w.bytes);
    assert_eq!(huffman::decompress(&bytes, 100), Err(Error::UnsupportedCodeLength));
}

#[test]
fn huffman_reports_an_inconsistent_stream() {
    // One symbol with the 1-bit code 0; a body bit of 1 hits an
    // unused table slot.
    let bytes = [3u8, 0, 2, 0, 0, 65, 14];
    assert_eq!(huffman::decompress(&bytes, 100), Err(Error::CodecError));
}

#[test]
fn round_trip_through_the_binary_pipeline() {
    let value = Value::Object(vec![
        (b"Name".to_vec(), text("Ace")),
        (b"Count".to_vec(), num(7.0)),
        (b"Exact".to_vec(), num(1.5)),
        (b"Negative".to_vec(), num(-7.0)),
        (b"Flag".to_vec(), Value::Bool(true)),
        (b"Nothing".to_vec(), Value::Null),
        (b"Items".to_vec(), Value::List(vec![num(1.0), text("two"), Value::Bool(false)])),
    ]);
    let encoded = encode(&value, OutputStringVersion::BinarySerialization).unwrap();
    assert_eq!(decode(&encoded, None), Ok(value));
}

#[test]
fn round_trip_through_the_text_pipeline() {
    let value = Value::Object(vec![
        (b"Name".to_vec(), text("Ace")),
        (b"Count".to_vec(), num(7.0)),
        (b"Exact".to_vec(), num(1.5)),
        (b"Escaped".to_vec(), text("a^b~c d\x1E")),
        (b"Items".to_vec(), Value::List(vec![num(1.0), text("two"), Value::Null])),
    ]);
    let encoded = encode(&value, OutputStringVersion::Deflate).unwrap();
    assert!(encoded.starts_with(b"!") && !encoded.starts_with(b"!WA:2!"));
    assert_eq!(decode(&encoded, None), Ok(value));
}

#[test]
fn trailing_whitespace_is_tolerated() {
    let value = Value::List(vec![num(4.0)]);
    let mut encoded = encode(&value, OutputStringVersion::BinarySerialization).unwrap();
    encoded.extend_from_slice(b" \t\r\n");
    assert_eq!(decode(&encoded, None), Ok(value));
}

fn nested_list(depth: usize) -> Value {
    let mut v = num(1.0);
    for _ in 0..depth {
        v = Value::List(vec![v]);
    }
    v
}

#[test]
fn recursion_limit_sits_between_128_and_129_containers() {
    let ok = nested_list(128);
    let encoded = encode(&ok, OutputStringVersion::BinarySerialization).unwrap();
    assert_eq!(decode(&encoded, None), Ok(ok));
    assert!(encode(&nested_list(129), OutputStringVersion::BinarySerialization)
        == Err(Error::RecursionLimit));
    assert!(encode(&nested_list(129), OutputStringVersion::Deflate)
        == Err(Error::RecursionLimit));

    // The decoder enforces the same bound on crafted input: 128
    // nested arrays decode, 129 do not.
    let mut inner = vec![0x01u8];
    inner.extend(std::iter::repeat(0x1Au8).take(128));
    inner.push(0x03);
    let de = lib_serialize::deserialization::Deserializer::from_slice(&inner);
    assert_eq!(de.deserialize_first(), Ok(nested_list(128)));

    let mut inner = vec![0x01u8];
    inner.extend(std::iter::repeat(0x1Au8).take(129));
    inner.push(0x03);
    let de = lib_serialize::deserialization::Deserializer::from_slice(&inner);
    assert_eq!(de.deserialize_first(), Err(Error::RecursionLimit));
}

#[test]
fn integer_encodings_take_their_minimal_forms() {
    let cases: [(f64, Vec<u8>); 9] = [
        (0.0, vec![0x01]),
        (127.0, vec![0xFF]),
        (128.0, vec![0x04, 0x08]),
        (4095.0, vec![0xF4, 0xFF]),
        (-1.0, vec![0x1C, 0x00]),
        (4096.0, vec![1 << 3, 0x10, 0x00]),
        (65536.0, vec![3 << 3, 0x01, 0x00, 0x00]),
        (16777216.0, vec![5 << 3, 0x01, 0x00, 0x00, 0x00]),
        (4294967296.0, vec![7 << 3, 0x00, 0x00, 0x01, 0x00, 0x00, 0x00, 0x00]),
    ];
    for (v, expected) in cases {
        let bytes =
            lib_serialize::serialization::Serializer::serialize(&num(v), None).unwrap();
        assert_eq!(&bytes[1..], expected.as_slice(), "encoding of {v}");
    }
}

#[test]
fn binary_stream_errors_are_reported() {
    // A missing minor version byte.
    let de = lib_serialize::deserialization::Deserializer::from_slice(&[0x99, 0x03]);
    assert_eq!(de.deserialize_first(), Err(Error::InvalidHeader));
    // A string back-reference with an empty reference table.
    let de = lib_serialize::deserialization::Deserializer::from_slice(&[0x01, 26 << 3, 1]);
    assert_eq!(de.deserialize_first(), Err(Error::InvalidReference));
    // A truncated integer payload.
    let de = lib_serialize::deserialization::Deserializer::from_slice(&[0x01, 1 << 3, 0x10]);
    assert_eq!(de.deserialize_first(), Err(Error::UnexpectedEOF));
    // A float-string payload that is not a number.
    let de = lib_serialize::deserialization::Deserializer::from_slice(&[0x01, 10 << 3, 1, b'A']);
    assert_eq!(de.deserialize_first(), Err(Error::InvalidTag));
}

#[test]
fn text_stream_errors_are_reported() {
    let run = |s: &[u8]| ace_serialize::deserialization::Deserializer::from_str(s).deserialize_first();
    assert_eq!(run(b"^2^Z^^"), Err(Error::InvalidHeader));
    assert_eq!(run(b"^1^Q^^"), Err(Error::InvalidTag));
    assert_eq!(run(b"^1^S~q^^"), Err(Error::InvalidEscape));
    assert_eq!(run(b"^1^Sabc"), Err(Error::UnexpectedEOF));
    assert_eq!(run(b"^1^F5^N3^^"), Err(Error::MissingExponent));
    assert_eq!(run(b"^1^T^Z^N1^t^^"), Err(Error::UnsupportedKey));
}

#[test]
fn corrupt_deflate_payload_is_reported() {
    let mut share = b"!".to_vec();
    share.extend_from_slice(&base64::encode::encode_raw(&[0xFF, 0xFF, 0xFF, 0xFF]).unwrap());
    assert_eq!(decode(&share, None), Err(Error::DecompressionError));
}

#[test]
fn number_forms_of_the_text_format_round_trip() {
    let run = |s: &[u8]| ace_serialize::deserialization::Deserializer::from_str(s).deserialize_first();
    assert_eq!(run(b"^1^N0.5^^"), Ok(num(0.5)));
    assert_eq!(run(b"^1^N-3^^"), Ok(num(-3.0)));
    assert_eq!(run(b"^1^N1.#INF^^"), Ok(Value::Null));
    assert_eq!(run(b"^1^Nnot-a-number^^"), Err(Error::InvalidTag));
    // ^F: mantissa 3, exponent 2 is 12.
    assert_eq!(run(b"^1^F3^f2^^"), Ok(num(12.0)));
    // A number only the mantissa/exponent form can carry exactly.
    let tricky = f64::from_bits(0x3FF0_0000_0000_0001);
    let encoded =
        ace_serialize::serialization::Serializer::serialize(&Value::Number(tricky.to_bits()), None)
            .unwrap();
    let de = ace_serialize::deserialization::Deserializer::from_str(&encoded);
    assert_eq!(de.deserialize_first(), Ok(Value::Number(tricky.to_bits())));
}

#[test]
fn mixed_tables_round_trip_as_objects_with_integer_prefix_keys() {
    let value = Value::Object(vec![
        (b"1".to_vec(), text("first")),
        (b"2".to_vec(), text("second")),
        (b"extra".to_vec(), num(9.0)),
    ]);
    let encoded = encode(&value, OutputStringVersion::BinarySerialization).unwrap();
    let inner = inner_bytes(&encoded, 6);
    // Embedded mixed opcode: two array slots, one map entry.
    assert_eq!(inner[1], (3 << 2) | (((0 << 2) | 1) << 4) | 2);
    assert_eq!(decode(&encoded, None), Ok(value));
}

#[test]
fn huffman_path_feeds_the_text_deserializer() {
    // No version prefix: base64 over the legacy codec, sub-codec 1
    // (verbatim), carrying a text stream.
    let mut payload = vec![1u8];
    payload.extend_from_slice(b"^1^N5^^");
    let share = wa_codec::base64::encode::encode_raw(&payload).unwrap();
    assert_eq!(decode(&share, None), Ok(num(5.0)));
}

#[test]
fn table_back_reference_resolves_to_a_clone() {
    // A two-element array: an inner [1], then a reference to it.
    let inner = [0x01u8, 0x2A, 0x1A, 0x03, 29 << 3, 0x01];
    let de = lib_serialize::deserialization::Deserializer::from_slice(&inner);
    assert_eq!(
        de.deserialize_first(),
        Ok(Value::List(vec![
            Value::List(vec![num(1.0)]),
            Value::List(vec![num(1.0)]),
        ]))
    );
}

#[test]
fn object_with_full_integer_prefix_round_trips_as_a_list() {
    // An object keyed exactly 1..=2 is emitted as an array and comes
    // back as a list.
    let value = Value::Object(vec![
        (b"1".to_vec(), text("first")),
        (b"2".to_vec(), text("second")),
    ]);
    let encoded = encode(&value, OutputStringVersion::BinarySerialization).unwrap();
    assert_eq!(
        decode(&encoded, None),
        Ok(Value::List(vec![text("first"), text("second")]))
    );
}

#[test]
fn invalid_utf8_in_a_binary_string_becomes_the_replacement_character() {
    // An embedded one-byte string holding 0xFF.
    let inner = [0x01u8, 0x12, 0xFF];
    let de = lib_serialize::deserialization::Deserializer::from_slice(&inner);
    assert_eq!(
        de.deserialize_first(),
        Ok(Value::Text(vec![0xEF, 0xBF, 0xBD]))
    );
}

#[test]
fn numeric_map_keys_coerce_to_their_shortest_decimal() {
    // An embedded map of one pair: key 7, value true.
    let inner = [0x01u8, 0x16, 0x0F, 12 << 3];
    let de = lib_serialize::deserialization::Deserializer::from_slice(&inner);
    assert_eq!(
        de.deserialize_first(),
        Ok(Value::Object(vec![(b"7".to_vec(), Value::Bool(true))]))
    );
}

#[test]
fn text_numbers_use_the_shortest_decimal_form() {
    let serialized =
        ace_serialize::serialization::Serializer::serialize(&num(0.5), None).unwrap();
    assert_eq!(serialized, b"^1^N0.5^^".to_vec());
    let serialized =
        ace_serialize::serialization::Serializer::serialize(&num(7.0), None).unwrap();
    assert_eq!(serialized, b"^1^N7.0^^".to_vec());
}

#[test]
fn text_strings_escape_the_reserved_bytes() {
    let serialized = ace_serialize::serialization::Serializer::serialize(
        &Value::Text(vec![b'a', 0x5E, 0x7E, 0x1E, 0x00, 0x20, b'z']),
        None,
    )
    .unwrap();
    assert_eq!(serialized, b"^1^Sa~}~|~z~@~`z^^".to_vec());
}

#[test]
fn bitfield_insert_and_extract_round_trip() {
    let mut field = huffman::bitfield::Bitfield::new();
    assert_eq!(field.insert(0xAB), Ok(()));
    assert_eq!(field.insert(0xCD), Ok(()));
    assert_eq!(field.get_len(), 16);
    assert_eq!(field.peek_byte(), 0xAB);
    assert_eq!(field.extract_byte(), Ok(0xAB));
    assert_eq!(field.extract_byte(), Ok(0xCD));
    assert_eq!(field.extract_byte(), Err(()));
}

#[test]
fn bitfield_peek_and_discard_work_on_partial_bits() {
    let mut field = huffman::bitfield::Bitfield::new();
    assert_eq!(field.insert(0b1011_0101), Ok(()));
    assert_eq!(field.peek_bits(4), 0b0101);
    field.discard_bits(4);
    assert_eq!(field.peek_bits(4), 0b1011);
    assert_eq!(field.get_len(), 4);
    field.discard_bits(60);
    assert_eq!(field.get_len(), 0);
}

#[test]
fn escaped_codes_unescape_to_their_original_bits() {
    // A set bit consumes two escaped bits and emits a one; a clear
    // bit consumes one and emits a zero.
    let (code, len) = huffman::utils::unescape_code(0b1_0000_1001, 9);
    assert_eq!((code, len), (0b100_0101, 7));
    let (code, len) = huffman::utils::unescape_code(0, 3);
    assert_eq!((code, len), (0, 3));
}

#[test]
fn capacity_calculations_match_the_length_formulas() {
    assert_eq!(base64::encode::calculate_capacity(&[0; 6]), Ok(8));
    assert_eq!(base64::encode::calculate_capacity(&[0; 7]), Ok(10));
    assert_eq!(base64::encode::calculate_capacity(&[0; 8]), Ok(11));
    assert_eq!(base64::decode::calculate_capacity(&[b'a'; 8]), Ok(6));
    assert_eq!(base64::decode::calculate_capacity(&[b'a'; 7]), Ok(5));
    assert_eq!(
        base64::decode::calculate_capacity(&[b'a'; 9]),
        Err(Error::InvalidBase64)
    );
}

#[test]
fn duplicate_keys_keep_their_first_position_with_the_last_value() {
    // The same key twice in a text table: the value is overwritten in
    // place.
    let de = ace_serialize::deserialization::Deserializer::from_str(b"^1^T^Sk^N1^Sk^N2^t^^");
    assert_eq!(
        de.deserialize_first(),
        Ok(Value::Object(vec![(b"k".to_vec(), num(2.0))]))
    );
}

#[test]
fn deserialize_collects_every_stream_value() {
    let de = ace_serialize::deserialization::Deserializer::from_str(b"^1^N1^N2^^");
    assert_eq!(de.deserialize(), Ok(Value::List(vec![num(1.0), num(2.0)])));
    let de = lib_serialize::deserialization::Deserializer::from_slice(&[0x01, 0x03, 0x05]);
    assert_eq!(de.deserialize(), Ok(Value::List(vec![num(1.0), num(2.0)])));
}

#[test]
fn negative_and_wide_integers_decode_from_full_tags() {
    // Int16Neg with magnitude 4096.
    let de = lib_serialize::deserialization::Deserializer::from_slice(&[0x01, 2 << 3, 0x10, 0x00]);
    assert_eq!(de.deserialize_first(), Ok(num(-4096.0)));
    // Float: eight big-endian bytes.
    let mut inner = vec![0x01u8, 9 << 3];
    inner.extend_from_slice(&2.5f64.to_bits().to_be_bytes());
    let de = lib_serialize::deserialization::Deserializer::from_slice(&inner);
    assert_eq!(de.deserialize_first(), Ok(num(2.5)));
}
