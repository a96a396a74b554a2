//! The binary deserializer: one leading byte selects a 7-bit integer,
//! an embedded opcode with an inline count, a 12-bit signed integer,
//! or a full five-bit type tag. Containers and long strings feed the
//! per-decode reference tables that back-reference opcodes resolve
//! against, by cloning.
use crate::decimal::push_decimal;
use crate::double::{negate_double_bits, parse_double_bits, u64_to_double_bits, MAX_INT_MAG};
use crate::lib_serialize::reader::SliceReader;
use crate::lib_serialize::type_tag::{EmbeddedTypeTag, TypeTag};
use crate::lib_serialize::MINOR;
use crate::value::{coerce_key, deep_copy, object_insert, Error, Value};
use vstd::prelude::*;

verus! {

/// The second sequence extends the first: nothing already recorded
/// moves or disappears.
pub open spec fn seq_extends<T>(a: Seq<T>, b: Seq<T>) -> bool {
    b.len() >= a.len() && forall|j: int| 0 <= j < a.len() ==> a[j] == #[trigger] b[j]
}

/// The magnitude width of an integer type tag, zero for the others.
pub open spec fn int_tag_width(t: TypeTag) -> int {
    match t {
        TypeTag::Int16Pos => 2,
        TypeTag::Int16Neg => 2,
        TypeTag::Int24Pos => 3,
        TypeTag::Int24Neg => 3,
        TypeTag::Int32Pos => 4,
        TypeTag::Int32Neg => 4,
        TypeTag::Int64Pos => 7,
        TypeTag::Int64Neg => 7,
        _ => 0,
    }
}

/// Whether an integer type tag carries a negative sign.
pub open spec fn int_tag_neg(t: TypeTag) -> bool {
    t == TypeTag::Int16Neg || t == TypeTag::Int24Neg || t == TypeTag::Int32Neg || t
        == TypeTag::Int64Neg
}

/// The errors the binary deserializer can report; a missing minor
/// version byte is found only at the stream head.
pub open spec fn de_error(e: Error) -> bool {
    e == Error::InvalidHeader || de_value_error(e)
}

/// The errors decoding a single value can report.
pub open spec fn de_value_error(e: Error) -> bool {
    ||| e == Error::InvalidTag
    ||| e == Error::InvalidReference
    ||| e == Error::UnexpectedEOF
    ||| e == Error::RecursionLimit
    ||| e == Error::UnsupportedKey
}

/// The packed 12-bit magnitude: the high nibble of the opcode byte
/// `lo` and the following byte `hi`.
pub open spec fn twelve_bit_mag(hi: u8, lo: u8) -> u64 {
    (((((hi as u16) << 8) + (lo as u16)) as u16) >> 4) as u64
}

/// The value a self-contained scalar opcode at position `i` decodes
/// to: the 7-bit and 12-bit integers, null, the booleans, and the
/// eight-byte double. Anything longer-winded — strings, containers,
/// references — is out of this spec's reach and gives `None`.
pub open spec fn bin_scalar_value(s: Seq<u8>, i: int) -> Option<Value> {
    if i < 0 || i >= s.len() {
        None
    } else {
        let op = s[i];
        if op & 1 == 1 {
            Some(Value::Number(crate::double::u64_as_double((op >> 1) as u64)))
        } else if op & 3 == 2 {
            None
        } else if op & 7 == 4 {
            if i + 1 < s.len() {
                let mag = twelve_bit_mag(s[i + 1], op);
                if op & 15 == 12 {
                    Some(
                        Value::Number(
                            (crate::double::u64_as_double(mag)
                                ^ crate::double::NEG_ZERO_BITS) as u64,
                        ),
                    )
                } else {
                    Some(Value::Number(crate::double::u64_as_double(mag)))
                }
            } else {
                None
            }
        } else if op >> 3 == 0 {
            Some(Value::Null)
        } else if 1 <= op >> 3 && op >> 3 <= 8 {
            let t = (op >> 3) as int;
            let w = if t <= 2 {
                2int
            } else if t <= 4 {
                3int
            } else if t <= 6 {
                4int
            } else {
                7int
            };
            if i + 1 + w <= s.len() {
                let mag = (crate::lib_serialize::reader::be_val(
                    s.subrange(i + 1, i + 1 + w),
                ) as u64);
                if t % 2 == 0 {
                    Some(
                        Value::Number(
                            (crate::double::u64_as_double(mag)
                                ^ crate::double::NEG_ZERO_BITS) as u64,
                        ),
                    )
                } else {
                    Some(Value::Number(crate::double::u64_as_double(mag)))
                }
            } else {
                None
            }
        } else if op >> 3 == 12 {
            Some(Value::Bool(true))
        } else if op >> 3 == 13 {
            Some(Value::Bool(false))
        } else if op >> 3 == 9 {
            if i + 9 <= s.len() {
                Some(
                    Value::Number(
                        (crate::lib_serialize::reader::be_val(s.subrange(i + 1, i + 9)) as u64),
                    ),
                )
            } else {
                None
            }
        } else {
            None
        }
    }
}

/// What an embedded-string opcode at position `i` decodes to: the
/// inline count's bytes as lossy UTF-8. Stated relationally, since a
/// specification cannot build the vector the value holds.
pub open spec fn bin_str_post(b: Seq<u8>, i: int, r: Result<Option<Value>, Error>) -> bool {
    0 <= i < b.len() ==> {
        let op = b[i];
        op & 3 == 2 && (op & 0x0F) >> 2 == 0 ==> {
            let l = (op >> 4) as int;
            &&& (l >= 1 && i + 1 + l <= b.len() ==> (r matches Ok(ov) && ov matches Some(v) && v
                matches Value::Text(tx) && tx@ == crate::value::utf8_lossy(
                b.subrange(i + 1, i + 1 + l),
            )))
            &&& (l == 0 ==> (r matches Ok(ov) && ov matches Some(v) && v matches Value::Text(tx)
                && tx@ == crate::value::utf8_lossy(Seq::<u8>::empty())))
        }
    }
}

/// Decoding inverts encoding for the one-byte integer form: the
/// bytes the encoder emits for a number with integer value `n` in
/// 0..=127 decode to the number the integer converts to — the same
/// value, since the conversion is exact well beyond this range.
pub proof fn lemma_small_int_round_trip(n: int)
    requires
        0 <= n < 128,
    ensures
        ({
            let bytes = seq![crate::lib_serialize::MINOR]
                + crate::lib_serialize::serialization::int_encoding(n);
            bin_scalar_value(bytes, 1) == Some(
                Value::Number(crate::double::u64_as_double(n as u64)),
            )
        }),
{
    let bytes = seq![crate::lib_serialize::MINOR]
        + crate::lib_serialize::serialization::int_encoding(n);
    let nn = n as u8;
    let op = (n * 2 + 1) as u8;
    assert(crate::lib_serialize::serialization::int_encoding(n) =~= seq![op]);
    assert(bytes.len() == 2 && bytes[1] == op);
    assert(op == 2 * nn + 1 && nn < 128 ==> (op & 1) == 1 && (op >> 1) == nn) by (bit_vector);
    assert((op >> 1) as u64 == n as u64);
}

/// The same inversion for the two-byte 12-bit form, covering 128..=
/// 4095 and the negative magnitudes 1..=4095.
pub proof fn lemma_twelve_bit_round_trip(n: int)
    requires
        -4096 < n < 4096,
        !(0 <= n < 128),
    ensures
        ({
            let bytes = seq![crate::lib_serialize::MINOR]
                + crate::lib_serialize::serialization::int_encoding(n);
            bin_scalar_value(bytes, 1) == Some(
                Value::Number(
                    if n < 0 {
                        (crate::double::u64_as_double((-n) as u64)
                            ^ crate::double::NEG_ZERO_BITS) as u64
                    } else {
                        crate::double::u64_as_double(n as u64)
                    },
                ),
            )
        }),
{
    let mag = if n < 0 {
        -n
    } else {
        n
    };
    let packed = mag * 16 + (if n < 0 {
        8int
    } else {
        0int
    }) + 4;
    let lo = (packed % 256) as u8;
    let hi = (packed / 256) as u8;
    let bytes = seq![crate::lib_serialize::MINOR]
        + crate::lib_serialize::serialization::int_encoding(n);
    assert(crate::lib_serialize::serialization::int_encoding(n) =~= seq![lo, hi]);
    assert(bytes.len() == 3 && bytes[1] == lo && bytes[2] == hi);
    let m16 = mag as u16;
    let s16 = (if n < 0 {
        8u16
    } else {
        0u16
    });
    assert(packed == m16 * 16 + s16 + 4);
    assert(m16 < 4096 && (s16 == 0 || s16 == 8) ==> {
        let p = (m16 * 16 + s16 + 4) as u16;
        &&& ((p % 256) as u8) & 1 != 1
        &&& ((p % 256) as u8) & 3 != 2
        &&& ((p % 256) as u8) & 7 == 4
        &&& twelve_bit_mag((p / 256) as u8, (p % 256) as u8) == m16 as u64
        &&& (((p % 256) as u8) & 15 == 12) == (s16 == 8)
    }) by (bit_vector);
    assert(lo == ((packed as u16) % 256) as u8 && hi == ((packed as u16) / 256) as u8);
}

/// What a one-byte string back-reference at position `i` decodes to
/// against the reference table `refs`: the stored string for a
/// 1-based index within the table, `InvalidReference` otherwise.
pub open spec fn strref8_post(
    b: Seq<u8>,
    i: int,
    refs: Seq<Vec<u8>>,
    r: Result<Option<Value>, Error>,
) -> bool {
    0 <= i < b.len() && b[i] == 208 ==> {
        &&& (i + 1 >= b.len() ==> r == Err::<Option<Value>, Error>(Error::UnexpectedEOF))
        &&& (i + 1 < b.len() ==> {
            let idx = b[i + 1] as int;
            &&& (idx == 0 || idx > refs.len() ==> r == Err::<Option<Value>, Error>(
                Error::InvalidReference,
            ))
            &&& (1 <= idx <= refs.len() ==> (r matches Ok(ov) && ov matches Some(v) && v
                matches Value::Text(tx) && tx@ == refs[idx - 1]@))
        })
    }
}

/// The payload half of `strref8_post`, for the functions that run
/// after the opcode byte was consumed.
pub open spec fn strref8_result(
    b: Seq<u8>,
    i: int,
    refs: Seq<Vec<u8>>,
    r: Result<Value, Error>,
) -> bool {
    &&& (i >= b.len() ==> r == Err::<Value, Error>(Error::UnexpectedEOF))
    &&& (0 <= i < b.len() ==> {
        let idx = b[i] as int;
        &&& (idx == 0 || idx > refs.len() ==> r == Err::<Value, Error>(Error::InvalidReference))
        &&& (1 <= idx <= refs.len() ==> (r matches Ok(v) && v matches Value::Text(tx) && tx@
            == refs[idx - 1]@))
    })
}

/// The same inversion for the tagged wide forms: for every other
/// whole magnitude up to 2^56 - 1, the encoder's tag byte and
/// big-endian payload decode back to the number the magnitude
/// converts to, with the sign applied by flipping the sign bit.
pub proof fn lemma_wide_int_round_trip(n: int)
    requires
        -(crate::double::MAX_INT_MAG as int) <= n <= crate::double::MAX_INT_MAG as int,
        !(-4096 < n < 4096),
    ensures
        ({
            let bytes = seq![crate::lib_serialize::MINOR]
                + crate::lib_serialize::serialization::int_encoding(n);
            bin_scalar_value(bytes, 1) == Some(
                Value::Number(
                    if n < 0 {
                        (crate::double::u64_as_double((-n) as u64)
                            ^ crate::double::NEG_ZERO_BITS) as u64
                    } else {
                        crate::double::u64_as_double(n as u64)
                    },
                ),
            )
        }),
{
    vstd::arithmetic::power2::lemma2_to64();
    vstd::arithmetic::power2::lemma2_to64_rest();
    let mag = if n < 0 {
        -n
    } else {
        n
    };
    let neg: u8 = if n < 0 {
        1u8
    } else {
        0u8
    };
    let rb = crate::lib_serialize::serialization::required_bytes_spec(mag as u64);
    let tb: u8 = if rb == 2 {
        (1 + neg) as u8
    } else if rb == 3 {
        (3 + neg) as u8
    } else if rb == 4 {
        (5 + neg) as u8
    } else {
        (7 + neg) as u8
    };
    let w: int = if rb == 7 {
        7
    } else {
        rb as int
    };
    let op: u8 = (tb * 8) as u8;
    let bytes = seq![crate::lib_serialize::MINOR]
        + crate::lib_serialize::serialization::int_encoding(n);
    crate::lib_serialize::serialization::lemma_be_bytes_len(mag as nat, w as nat);
    assert(bytes =~= seq![crate::lib_serialize::MINOR, op]
        + crate::lib_serialize::serialization::be_bytes_of(mag as nat, w as nat));
    assert(bytes.len() == 2 + w && bytes[1] == op);
    assert(1 <= tb <= 8 ==> ((8 * tb) as u8) & 1 != 1 && ((8 * tb) as u8) & 3 != 2 && ((8
        * tb) as u8) & 7 != 4 && ((8 * tb) as u8) >> 3 == tb) by (bit_vector);
    assert(bytes.subrange(2, 2 + w) =~= crate::lib_serialize::serialization::be_bytes_of(
        mag as nat,
        w as nat,
    ));
    if rb == 2 {
        crate::lib_serialize::serialization::lemma_be_val_of_bytes(mag as nat, 2);
    } else if rb == 3 {
        crate::lib_serialize::serialization::lemma_be_val_of_bytes(mag as nat, 3);
    } else if rb == 4 {
        crate::lib_serialize::serialization::lemma_be_val_of_bytes(mag as nat, 4);
    } else {
        assert(vstd::arithmetic::power2::pow2(56) == 0x100_0000_0000_0000) by {
            vstd::arithmetic::power2::lemma_pow2_adds(28, 28);
            vstd::arithmetic::power2::lemma_pow2_adds(14, 14);
        }
        crate::lib_serialize::serialization::lemma_be_val_of_bytes(mag as nat, 7);
    }
}

/// Numbers the encoder cannot store as integers go out as their raw
/// bit pattern and come back unchanged.
pub proof fn lemma_float_round_trip(b: u64)
    requires
        !crate::double::f_fits_int(b),
    ensures
        ({
            let bytes = seq![crate::lib_serialize::MINOR]
                + crate::lib_serialize::serialization::number_encoding(b);
            bin_scalar_value(bytes, 1) == Some(Value::Number(b))
        }),
{
    vstd::arithmetic::power2::lemma2_to64();
    vstd::arithmetic::power2::lemma2_to64_rest();
    let bytes = seq![crate::lib_serialize::MINOR]
        + crate::lib_serialize::serialization::number_encoding(b);
    crate::lib_serialize::serialization::lemma_be_bytes_len(b as nat, 8);
    assert(bytes =~= seq![crate::lib_serialize::MINOR, 72u8]
        + crate::lib_serialize::serialization::be_bytes_of(b as nat, 8));
    assert(bytes.len() == 10 && bytes[1] == 72u8);
    assert(72u8 & 1 != 1 && 72u8 & 3 != 2 && 72u8 & 7 != 4 && 72u8 >> 3 == 9) by (bit_vector);
    assert(bytes.subrange(2, 10) =~= crate::lib_serialize::serialization::be_bytes_of(
        b as nat,
        8,
    ));
    assert(vstd::arithmetic::power2::pow2(64) == 0x1_0000_0000_0000_0000) by {
        vstd::arithmetic::power2::lemma_pow2_adds(32, 32);
    }
    crate::lib_serialize::serialization::lemma_be_val_of_bytes(b as nat, 8);
}

/// The embedded form a short first-occurrence string encodes to is
/// exactly what `bin_str_post` pins on decode: the opcode carries the
/// string tag and its length, and the payload is the string itself —
/// so the decoded text is its lossy UTF-8 reading.
pub proof fn lemma_short_string_bytes(s: Seq<u8>)
    requires
        1 <= s.len() < 16,
    ensures
        ({
            let bytes = seq![crate::lib_serialize::MINOR]
                + crate::lib_serialize::serialization::str_encoding(s);
            let op = bytes[1];
            &&& bytes.len() == 2 + s.len()
            &&& op & 3 == 2 && (op & 0x0F) >> 2 == 0
            &&& (op >> 4) as int == s.len()
            &&& bytes.subrange(2, 2 + s.len() as int) == s
        }),
{
    let bytes = seq![crate::lib_serialize::MINOR]
        + crate::lib_serialize::serialization::str_encoding(s);
    let l = s.len() as u8;
    let op = (2 + s.len() * 16) as u8;
    assert(crate::lib_serialize::serialization::str_encoding(s) =~= seq![op] + s);
    assert(bytes[1] == op);
    assert(op == 2 + 16 * l && l < 16 ==> op & 3 == 2 && (op & 0x0F) >> 2 == 0 && (op >> 4) == l)
        by (bit_vector);
    assert(bytes.subrange(2, 2 + s.len() as int) =~= s);
}

pub struct Deserializer<'s> {
    pub remaining_depth: usize,
    pub reader: SliceReader<'s>,
    pub table_refs: Vec<Value>,
    pub string_refs: Vec<Vec<u8>>,
}

impl<'s> Deserializer<'s> {
    /// A deserializer over a byte buffer, with empty reference tables
    /// and a depth budget that admits 128 nested containers.
    pub fn from_slice(v: &'s [u8]) -> (r: Self)
        ensures
            r.reader.buffer@ == v@,
            r.reader.index == 0,
            r.remaining_depth == 129,
            r.table_refs@.len() == 0,
            r.string_refs@.len() == 0,
    {
        Deserializer {
            remaining_depth: 129,
            reader: SliceReader::new(v),
            table_refs: Vec::new(),
            string_refs: Vec::new(),
        }
    }

    /// Decodes every value in the stream, as a list. The stream must
    /// start with the minor version byte.
    pub fn deserialize(self) -> (r: Result<Value, Error>)
        requires
            self.remaining_depth >= 1,
            self.reader.index <= self.reader.buffer@.len(),
        ensures
            self.reader.index == 0 ==> ((r == Err::<Value, Error>(Error::InvalidHeader)) <==> !(
            self.reader.buffer@.len() >= 1 && self.reader.buffer@[0] == MINOR)),
            r matches Ok(out) ==> out is List,
            self.reader.index == 0 && self.reader.buffer@.len() >= 1 && self.reader.buffer@[0]
                == MINOR ==> (bin_scalar_value(self.reader.buffer@, 1) matches Some(v) ==> (r
                matches Ok(out) ==> out matches Value::List(items) && items@.len() >= 1
                && items@[0] == v)),
            r matches Err(e) ==> de_error(e),
    {
        let mut de = self;
        match de.reader.read_u8() {
            Some(b) => if b != MINOR {
                return Err(Error::InvalidHeader);
            },
            None => {
                return Err(Error::InvalidHeader);
            },
        }
        let mut result: Vec<Value> = Vec::new();
        loop
            invariant
                de.remaining_depth >= 1,
                de.reader.buffer@ == self.reader.buffer@,
                de.reader.index <= de.reader.buffer@.len(),
                !(self.reader.index == 0 && (self.reader.buffer@.len() == 0
                    || self.reader.buffer@[0] != MINOR)),
                self.reader.index == 0 && result@.len() == 0 ==> de.reader.index == 1,
                self.reader.index == 0 ==> (bin_scalar_value(self.reader.buffer@, 1) matches Some(
                    v,
                ) ==> (result@.len() >= 1 ==> result@[0] == v)),
            decreases de.reader.buffer@.len() - de.reader.index,
        {
            match de.deserialize_helper() {
                Ok(Some(v)) => {
                    result.push(v);
                },
                Ok(None) => {
                    return Ok(Value::List(result));
                },
                Err(e) => {
                    return Err(e);
                },
            }
        }
    }

    /// Decodes the first value in the stream. The stream must start
    /// with the minor version byte; an empty stream after it decodes
    /// to null.
    pub fn deserialize_first(self) -> (r: Result<Value, Error>)
        requires
            self.remaining_depth >= 1,
            self.reader.index <= self.reader.buffer@.len(),
        ensures
            self.reader.index == 0 ==> ((r == Err::<Value, Error>(Error::InvalidHeader)) <==> !(
            self.reader.buffer@.len() >= 1 && self.reader.buffer@[0] == MINOR)),
            self.reader.index == 0 && self.reader.buffer@.len() == 1 && self.reader.buffer@[0]
                == MINOR ==> r == Ok::<Value, Error>(Value::Null),
            self.reader.index == 0 && self.reader.buffer@.len() >= 1 && self.reader.buffer@[0]
                == MINOR ==> (bin_scalar_value(self.reader.buffer@, 1) matches Some(v) ==> r
                == Ok::<Value, Error>(v)),
            r matches Err(e) ==> de_error(e),
    {
        let mut de = self;
        match de.reader.read_u8() {
            Some(b) => if b != MINOR {
                return Err(Error::InvalidHeader);
            },
            None => {
                return Err(Error::InvalidHeader);
            },
        }
        match de.deserialize_helper() {
            Ok(Some(v)) => Ok(v),
            Ok(None) => Ok(Value::Null),
            Err(e) => Err(e),
        }
    }

    /// Decodes one value, or `None` at the end of input.
    pub fn deserialize_helper(&mut self) -> (r: Result<Option<Value>, Error>)
        requires
            old(self).remaining_depth >= 1,
        ensures
            final(self).reader.buffer@ == old(self).reader.buffer@,
            final(self).reader.index >= old(self).reader.index,
            old(self).reader.index <= old(self).reader.buffer@.len() ==> final(self).reader.index
                <= old(self).reader.buffer@.len(),
            final(self).remaining_depth == old(self).remaining_depth,
            seq_extends(old(self).table_refs@, final(self).table_refs@),
            seq_extends(old(self).string_refs@, final(self).string_refs@),
            old(self).reader.index >= old(self).reader.buffer@.len() ==> r == Ok::<
                Option<Value>,
                Error,
            >(None::<Value>),
            r == Ok::<Option<Value>, Error>(None::<Value>) ==> old(self).reader.index >= old(
                self,
            ).reader.buffer@.len(),
            r matches Ok(Some(_)) ==> final(self).reader.index > old(self).reader.index,
            bin_scalar_value(old(self).reader.buffer@, old(self).reader.index as int) matches Some(
                v,
            ) ==> r == Ok::<Option<Value>, Error>(Some(v)),
            bin_str_post(old(self).reader.buffer@, old(self).reader.index as int, r),
            strref8_post(
                old(self).reader.buffer@,
                old(self).reader.index as int,
                old(self).string_refs@,
                r,
            ),
            r matches Err(e) ==> de_value_error(e),
        decreases old(self).remaining_depth, 3int,
    {
        let value = match self.reader.read_u8() {
            None => {
                return Ok(None);
            },
            Some(v) => v,
        };
        proof {
            assert((value & 1 == 1 ==> (value >> 1) < 128) && (value & 1 == 1 ==> value & 3 != 2))
                by (bit_vector);
            assert(208u8 & 1 != 1 && 208u8 & 3 != 2 && 208u8 & 7 != 4 && 208u8 >> 3 == 26)
                by (bit_vector);
            assert((value & 0x0F) >> 2 <= 3) by (bit_vector);
            assert(value >> 3 <= 31) by (bit_vector);
            assert(value >> 4 <= 15) by (bit_vector);
        }
        if value & 1 == 1 {
            // A 7-bit non-negative integer in the upper bits.
            let bits = u64_to_double_bits((value >> 1) as u64);
            Ok(Some(Value::Number(bits)))
        } else if value & 3 == 2 {
            // An embedded opcode: a 2-bit tag and a 4-bit count.
            let tag = match EmbeddedTypeTag::from_u8((value & 0x0F) >> 2) {
                Some(t) => t,
                None => {
                    return Err(Error::InvalidTag);
                },
            };
            let len = value >> 4;
            match self.deserialize_embedded(tag, len) {
                Ok(v) => Ok(Some(v)),
                Err(e) => Err(e),
            }
        } else if value & 7 == 4 {
            // A 12-bit integer: the high nibble here, a byte to follow,
            // with bit 3 as the sign.
            let next_byte = match self.reader.read_u8() {
                None => {
                    return Err(Error::UnexpectedEOF);
                },
                Some(b) => b as u16,
            };
            proof {
                assert(next_byte <= 0xFF ==> (next_byte << 8) <= 0xFF00u16) by (bit_vector);
            }
            let packed: u16 = (next_byte << 8) + value as u16;
            let mag: u64 = (packed >> 4) as u64;
            proof {
                assert((packed >> 4) <= 4095) by (bit_vector);
            }
            let bits = u64_to_double_bits(mag);
            if value & 15 == 12 {
                Ok(Some(Value::Number(negate_double_bits(bits))))
            } else {
                Ok(Some(Value::Number(bits)))
            }
        } else {
            // A full five-bit type tag.
            let tag = match TypeTag::from_u8(value >> 3) {
                Some(t) => t,
                None => {
                    return Err(Error::InvalidTag);
                },
            };
            match self.deserialize_one(tag) {
                Ok(v) => Ok(Some(v)),
                Err(e) => Err(e),
            }
        }
    }

    /// Decodes one value; the end of input here is an error.
    pub fn extract_value(&mut self) -> (r: Result<Value, Error>)
        requires
            old(self).remaining_depth >= 1,
        ensures
            final(self).reader.buffer@ == old(self).reader.buffer@,
            final(self).reader.index >= old(self).reader.index,
            old(self).reader.index <= old(self).reader.buffer@.len() ==> final(self).reader.index
                <= old(self).reader.buffer@.len(),
            final(self).remaining_depth == old(self).remaining_depth,
            seq_extends(old(self).table_refs@, final(self).table_refs@),
            seq_extends(old(self).string_refs@, final(self).string_refs@),
            r matches Err(e) ==> de_value_error(e),
        decreases old(self).remaining_depth, 4int,
    {
        match self.deserialize_helper() {
            Ok(Some(v)) => Ok(v),
            Ok(None) => Err(Error::UnexpectedEOF),
            Err(e) => Err(e),
        }
    }

    /// Decodes the payload of an embedded opcode. For the mixed tag
    /// the four count bits hold two 2-bit counts, each one less than
    /// the true count.
    pub fn deserialize_embedded(&mut self, tag: EmbeddedTypeTag, len: u8) -> (r: Result<
        Value,
        Error,
    >)
        requires
            old(self).remaining_depth >= 1,
        ensures
            final(self).reader.buffer@ == old(self).reader.buffer@,
            final(self).reader.index >= old(self).reader.index,
            old(self).reader.index <= old(self).reader.buffer@.len() ==> final(self).reader.index
                <= old(self).reader.buffer@.len(),
            final(self).remaining_depth == old(self).remaining_depth,
            seq_extends(old(self).table_refs@, final(self).table_refs@),
            seq_extends(old(self).string_refs@, final(self).string_refs@),
            tag == EmbeddedTypeTag::Str && len >= 1 && old(self).reader.index + len <= old(
                self,
            ).reader.buffer@.len() ==> (r matches Ok(v) && v matches Value::Text(tx) && tx@
                == crate::value::utf8_lossy(
                old(self).reader.buffer@.subrange(
                    old(self).reader.index as int,
                    old(self).reader.index + len,
                ),
            )),
            tag == EmbeddedTypeTag::Str && len == 0 && 1 <= old(self).reader.index <= old(
                self,
            ).reader.buffer@.len() ==> (r matches Ok(v) && v matches Value::Text(tx) && tx@
                == crate::value::utf8_lossy(Seq::<u8>::empty())),
            r matches Err(e) ==> de_value_error(e),
        decreases old(self).remaining_depth, 2int,
    {
        proof {
            assert((len & 3) <= 3 && (len >> 2) <= 63) by (bit_vector);
        }
        match tag {
            EmbeddedTypeTag::Str => self.deserialize_string(len as usize),
            EmbeddedTypeTag::Table => self.deserialize_map(len as usize),
            EmbeddedTypeTag::Array => self.deserialize_array(len as usize),
            EmbeddedTypeTag::Mixed => self.deserialize_mixed(
                ((len & 3) + 1) as usize,
                ((len >> 2) + 1) as usize,
            ),
        }
    }

    /// Decodes the payload of a full type tag.
    #[verifier::rlimit(100)]
    pub fn deserialize_one(&mut self, tag: TypeTag) -> (r: Result<Value, Error>)
        requires
            old(self).remaining_depth >= 1,
        ensures
            final(self).reader.buffer@ == old(self).reader.buffer@,
            final(self).reader.index >= old(self).reader.index,
            old(self).reader.index <= old(self).reader.buffer@.len() ==> final(self).reader.index
                <= old(self).reader.buffer@.len(),
            final(self).remaining_depth == old(self).remaining_depth,
            seq_extends(old(self).table_refs@, final(self).table_refs@),
            seq_extends(old(self).string_refs@, final(self).string_refs@),
            tag == TypeTag::Null ==> r == Ok::<Value, Error>(Value::Null),
            tag == TypeTag::True ==> r == Ok::<Value, Error>(Value::Bool(true)),
            tag == TypeTag::False ==> r == Ok::<Value, Error>(Value::Bool(false)),
            int_tag_width(tag) > 0 && old(self).reader.index + int_tag_width(tag) <= old(
                self,
            ).reader.buffer@.len() ==> r == Ok::<Value, Error>(
                Value::Number(
                    ({
                        let mag = (crate::lib_serialize::reader::be_val(
                            old(self).reader.buffer@.subrange(
                                old(self).reader.index as int,
                                old(self).reader.index + int_tag_width(tag),
                            ),
                        ) as u64);
                        if int_tag_neg(tag) {
                            (crate::double::u64_as_double(mag)
                                ^ crate::double::NEG_ZERO_BITS) as u64
                        } else {
                            crate::double::u64_as_double(mag)
                        }
                    }),
                ),
            ),
            tag == TypeTag::Float && old(self).reader.index + 8 <= old(self).reader.buffer@.len()
                ==> r == Ok::<Value, Error>(
                Value::Number(
                    (crate::lib_serialize::reader::be_val(
                        old(self).reader.buffer@.subrange(
                            old(self).reader.index as int,
                            old(self).reader.index + 8,
                        ),
                    ) as u64),
                ),
            ),
            tag == TypeTag::StrRef8 ==> strref8_result(
                old(self).reader.buffer@,
                old(self).reader.index as int,
                old(self).string_refs@,
                r,
            ),
            r matches Err(e) ==> de_value_error(e),
        decreases old(self).remaining_depth, 2int,
    {
        proof {
            vstd::arithmetic::power2::lemma2_to64();
            vstd::arithmetic::power2::lemma2_to64_rest();
        }
        match tag {
            TypeTag::Null => Ok(Value::Null),
            TypeTag::True => Ok(Value::Bool(true)),
            TypeTag::False => Ok(Value::Bool(false)),
            TypeTag::Int16Pos => self.deserialize_signed_int(2, false),
            TypeTag::Int16Neg => self.deserialize_signed_int(2, true),
            TypeTag::Int24Pos => self.deserialize_signed_int(3, false),
            TypeTag::Int24Neg => self.deserialize_signed_int(3, true),
            TypeTag::Int32Pos => self.deserialize_signed_int(4, false),
            TypeTag::Int32Neg => self.deserialize_signed_int(4, true),
            TypeTag::Int64Pos => self.deserialize_signed_int(7, false),
            TypeTag::Int64Neg => self.deserialize_signed_int(7, true),
            TypeTag::Float => match self.reader.read_f64() {
                None => Err(Error::UnexpectedEOF),
                Some(bits) => Ok(Value::Number(bits)),
            },
            TypeTag::FloatStrPos => self.deserialize_f64_from_str(false),
            TypeTag::FloatStrNeg => self.deserialize_f64_from_str(true),
            _ => self.deserialize_sized(tag),
        }
    }

    /// Decodes the payload of a length- or count-carrying type tag.
    #[verifier::rlimit(100)]
    pub fn deserialize_sized(&mut self, tag: TypeTag) -> (r: Result<Value, Error>)
        requires
            old(self).remaining_depth >= 1,
        ensures
            final(self).reader.buffer@ == old(self).reader.buffer@,
            final(self).reader.index >= old(self).reader.index,
            old(self).reader.index <= old(self).reader.buffer@.len() ==> final(self).reader.index
                <= old(self).reader.buffer@.len(),
            final(self).remaining_depth == old(self).remaining_depth,
            seq_extends(old(self).table_refs@, final(self).table_refs@),
            seq_extends(old(self).string_refs@, final(self).string_refs@),
            tag == TypeTag::StrRef8 ==> strref8_result(
                old(self).reader.buffer@,
                old(self).reader.index as int,
                old(self).string_refs@,
                r,
            ),
            r matches Err(e) ==> de_value_error(e),
        decreases old(self).remaining_depth, 1int,
    {
        proof {
            vstd::arithmetic::power2::lemma2_to64();
            vstd::arithmetic::power2::lemma2_to64_rest();
        }
        match tag {
            TypeTag::Str8 => {
                let len = match self.reader.read_u8() {
                    None => {
                        return Err(Error::UnexpectedEOF);
                    },
                    Some(b) => b as usize,
                };
                self.deserialize_string(len)
            },
            TypeTag::Str16 => {
                let len = match self.deserialize_int(2) {
                    Err(e) => {
                        return Err(e);
                    },
                    Ok(v) => v as usize,
                };
                self.deserialize_string(len)
            },
            TypeTag::Str24 => {
                let len = match self.deserialize_int(3) {
                    Err(e) => {
                        return Err(e);
                    },
                    Ok(v) => v as usize,
                };
                self.deserialize_string(len)
            },
            TypeTag::Map8 => {
                let len = match self.reader.read_u8() {
                    None => {
                        return Err(Error::UnexpectedEOF);
                    },
                    Some(b) => b as usize,
                };
                self.deserialize_map(len)
            },
            TypeTag::Map16 => {
                let len = match self.deserialize_int(2) {
                    Err(e) => {
                        return Err(e);
                    },
                    Ok(v) => v as usize,
                };
                self.deserialize_map(len)
            },
            TypeTag::Map24 => {
                let len = match self.deserialize_int(3) {
                    Err(e) => {
                        return Err(e);
                    },
                    Ok(v) => v as usize,
                };
                self.deserialize_map(len)
            },
            TypeTag::Array8 => {
                let len = match self.reader.read_u8() {
                    None => {
                        return Err(Error::UnexpectedEOF);
                    },
                    Some(b) => b as usize,
                };
                self.deserialize_array(len)
            },
            TypeTag::Array16 => {
                let len = match self.deserialize_int(2) {
                    Err(e) => {
                        return Err(e);
                    },
                    Ok(v) => v as usize,
                };
                self.deserialize_array(len)
            },
            TypeTag::Array24 => {
                let len = match self.deserialize_int(3) {
                    Err(e) => {
                        return Err(e);
                    },
                    Ok(v) => v as usize,
                };
                self.deserialize_array(len)
            },
            TypeTag::Mixed8 => {
                let array_len = match self.reader.read_u8() {
                    None => {
                        return Err(Error::UnexpectedEOF);
                    },
                    Some(b) => b as usize,
                };
                let map_len = match self.reader.read_u8() {
                    None => {
                        return Err(Error::UnexpectedEOF);
                    },
                    Some(b) => b as usize,
                };
                self.deserialize_mixed(array_len, map_len)
            },
            TypeTag::Mixed16 => {
                let array_len = match self.deserialize_int(2) {
                    Err(e) => {
                        return Err(e);
                    },
                    Ok(v) => v as usize,
                };
                let map_len = match self.deserialize_int(2) {
                    Err(e) => {
                        return Err(e);
                    },
                    Ok(v) => v as usize,
                };
                self.deserialize_mixed(array_len, map_len)
            },
            TypeTag::Mixed24 => {
                let array_len = match self.deserialize_int(3) {
                    Err(e) => {
                        return Err(e);
                    },
                    Ok(v) => v as usize,
                };
                let map_len = match self.deserialize_int(3) {
                    Err(e) => {
                        return Err(e);
                    },
                    Ok(v) => v as usize,
                };
                self.deserialize_mixed(array_len, map_len)
            },
            _ => self.deserialize_refs(tag),
        }
    }

    /// Decodes a back-reference opcode's payload.
    #[verifier::rlimit(100)]
    pub fn deserialize_refs(&mut self, tag: TypeTag) -> (r: Result<Value, Error>)
        ensures
            final(self).reader.buffer@ == old(self).reader.buffer@,
            final(self).reader.index >= old(self).reader.index,
            old(self).reader.index <= old(self).reader.buffer@.len() ==> final(self).reader.index
                <= old(self).reader.buffer@.len(),
            final(self).remaining_depth == old(self).remaining_depth,
            seq_extends(old(self).table_refs@, final(self).table_refs@),
            seq_extends(old(self).string_refs@, final(self).string_refs@),
            tag == TypeTag::StrRef8 ==> strref8_result(
                old(self).reader.buffer@,
                old(self).reader.index as int,
                old(self).string_refs@,
                r,
            ),
            r matches Err(e) ==> de_value_error(e),
    {
        proof {
            vstd::arithmetic::power2::lemma2_to64();
            vstd::arithmetic::power2::lemma2_to64_rest();
        }
        match tag {
            TypeTag::StrRef8 => {
                let index = match self.reader.read_u8() {
                    None => {
                        return Err(Error::UnexpectedEOF);
                    },
                    Some(b) => b as usize,
                };
                self.resolve_string_ref(index)
            },
            TypeTag::StrRef16 => {
                let index = match self.deserialize_int(2) {
                    Err(e) => {
                        return Err(e);
                    },
                    Ok(v) => v as usize,
                };
                self.resolve_string_ref(index)
            },
            TypeTag::StrRef24 => {
                let index = match self.deserialize_int(3) {
                    Err(e) => {
                        return Err(e);
                    },
                    Ok(v) => v as usize,
                };
                self.resolve_string_ref(index)
            },
            TypeTag::MapRef8 => {
                let index = match self.reader.read_u8() {
                    None => {
                        return Err(Error::UnexpectedEOF);
                    },
                    Some(b) => b as usize,
                };
                self.resolve_table_ref(index)
            },
            TypeTag::MapRef16 => {
                let index = match self.deserialize_int(2) {
                    Err(e) => {
                        return Err(e);
                    },
                    Ok(v) => v as usize,
                };
                self.resolve_table_ref(index)
            },
            TypeTag::MapRef24 => {
                let index = match self.deserialize_int(3) {
                    Err(e) => {
                        return Err(e);
                    },
                    Ok(v) => v as usize,
                };
                self.resolve_table_ref(index)
            },
            _ => Err(Error::InvalidTag),
        }
    }

    /// A 1-based reference into the remembered strings: out-of-range
    /// indices (zero included) are invalid, anything else yields the
    /// stored string.
    fn resolve_string_ref(&mut self, index: usize) -> (r: Result<Value, Error>)
        ensures
            *final(self) == *old(self),
            r is Err <==> index == 0 || index > old(self).string_refs@.len(),
            r is Err ==> r == Err::<Value, Error>(Error::InvalidReference),
            1 <= index <= old(self).string_refs@.len() ==> (r matches Ok(v) && v
                matches Value::Text(tx) && tx@ == old(self).string_refs@[index - 1]@),
    {
        if index == 0 || index - 1 >= self.string_refs.len() {
            return Err(Error::InvalidReference);
        }
        Ok(Value::Text(vstd::slice::slice_to_vec(self.string_refs[index - 1].as_slice())))
    }

    /// A 1-based reference into the remembered tables: out-of-range
    /// indices (zero included) are invalid, anything else yields a
    /// structurally equal clone of the stored container.
    fn resolve_table_ref(&mut self, index: usize) -> (r: Result<Value, Error>)
        ensures
            *final(self) == *old(self),
            r is Err <==> index == 0 || index > old(self).table_refs@.len(),
            r is Err ==> r == Err::<Value, Error>(Error::InvalidReference),
            1 <= index <= old(self).table_refs@.len() ==> (r matches Ok(v)
                && crate::value::value_eq(v, old(self).table_refs@[index - 1])),
    {
        if index == 0 || index - 1 >= self.table_refs.len() {
            return Err(Error::InvalidReference);
        }
        Ok(deep_copy(&self.table_refs[index - 1]))
    }

    /// A big-endian unsigned payload of `bytes` bytes.
    fn deserialize_int(&mut self, bytes: usize) -> (r: Result<u64, Error>)
        requires
            1 <= bytes <= 8,
        ensures
            final(self).reader.buffer@ == old(self).reader.buffer@,
            final(self).reader.index >= old(self).reader.index,
            old(self).reader.index <= old(self).reader.buffer@.len() ==> final(self).reader.index
                <= old(self).reader.buffer@.len(),
            final(self).remaining_depth == old(self).remaining_depth,
            seq_extends(old(self).table_refs@, final(self).table_refs@),
            seq_extends(old(self).string_refs@, final(self).string_refs@),
            final(self).table_refs == old(self).table_refs,
            final(self).string_refs == old(self).string_refs,
            r matches Err(e) ==> de_value_error(e),
            r matches Ok(v) ==> (bytes < 8 ==> v < vstd::arithmetic::power2::pow2(
                8 * bytes as nat,
            )),
            old(self).reader.index + bytes <= old(self).reader.buffer@.len() ==> r == Ok::<
                u64,
                Error,
            >(
                (crate::lib_serialize::reader::be_val(
                    old(self).reader.buffer@.subrange(
                        old(self).reader.index as int,
                        old(self).reader.index + bytes,
                    ),
                ) as u64),
            ) && final(self).reader.index == old(self).reader.index + bytes,
    {
        match self.reader.read_int(bytes) {
            None => Err(Error::UnexpectedEOF),
            Some(v) => Ok(v),
        }
    }

    /// An integer payload turned into the matching double.
    fn deserialize_signed_int(&mut self, bytes: usize, neg: bool) -> (r: Result<Value, Error>)
        requires
            2 <= bytes <= 7,
        ensures
            final(self).reader.buffer@ == old(self).reader.buffer@,
            final(self).reader.index >= old(self).reader.index,
            old(self).reader.index <= old(self).reader.buffer@.len() ==> final(self).reader.index
                <= old(self).reader.buffer@.len(),
            final(self).remaining_depth == old(self).remaining_depth,
            seq_extends(old(self).table_refs@, final(self).table_refs@),
            seq_extends(old(self).string_refs@, final(self).string_refs@),
            old(self).reader.index + bytes <= old(self).reader.buffer@.len() ==> r == Ok::<
                Value,
                Error,
            >(
                Value::Number(
                    ({
                        let mag = (crate::lib_serialize::reader::be_val(
                            old(self).reader.buffer@.subrange(
                                old(self).reader.index as int,
                                old(self).reader.index + bytes,
                            ),
                        ) as u64);
                        if neg {
                            (crate::double::u64_as_double(mag)
                                ^ crate::double::NEG_ZERO_BITS) as u64
                        } else {
                            crate::double::u64_as_double(mag)
                        }
                    }),
                ),
            ),
            r matches Err(e) ==> de_value_error(e),
    {
        proof {
            vstd::arithmetic::power2::lemma2_to64();
            vstd::arithmetic::power2::lemma2_to64_rest();
            vstd::arithmetic::power2::lemma_pow2_strictly_increases(8 * bytes as nat, 57);
            assert(vstd::arithmetic::power2::pow2(57) == 0x200_0000_0000_0000) by {
                vstd::arithmetic::power2::lemma_pow2_adds(56, 1);
            }
        }
        let mag = match self.deserialize_int(bytes) {
            Err(e) => {
                return Err(e);
            },
            Ok(v) => v,
        };
        let bits = u64_to_double_bits(mag);
        if neg {
            Ok(Value::Number(negate_double_bits(bits)))
        } else {
            Ok(Value::Number(bits))
        }
    }

    /// A length-prefixed ASCII double payload.
    fn deserialize_f64_from_str(&mut self, neg: bool) -> (r: Result<Value, Error>)
        ensures
            final(self).reader.buffer@ == old(self).reader.buffer@,
            final(self).reader.index >= old(self).reader.index,
            old(self).reader.index <= old(self).reader.buffer@.len() ==> final(self).reader.index
                <= old(self).reader.buffer@.len(),
            final(self).remaining_depth == old(self).remaining_depth,
            seq_extends(old(self).table_refs@, final(self).table_refs@),
            seq_extends(old(self).string_refs@, final(self).string_refs@),
            r matches Err(e) ==> de_value_error(e),
    {
        let len = match self.reader.read_u8() {
            None => {
                return Err(Error::UnexpectedEOF);
            },
            Some(b) => b as usize,
        };
        let bytes = match self.reader.read_bytes(len) {
            None => {
                return Err(Error::UnexpectedEOF);
            },
            Some(b) => b,
        };
        match parse_double_bits(bytes) {
            None => Err(Error::InvalidTag),
            Some(bits) => {
                if neg {
                    Ok(Value::Number(negate_double_bits(bits)))
                } else {
                    Ok(Value::Number(bits))
                }
            },
        }
    }

    /// A string payload of `len` bytes; strings longer than two bytes
    /// join the reference table.
    fn deserialize_string(&mut self, len: usize) -> (r: Result<Value, Error>)
        ensures
            final(self).reader.buffer@ == old(self).reader.buffer@,
            final(self).reader.index >= old(self).reader.index,
            old(self).reader.index <= old(self).reader.buffer@.len() ==> final(self).reader.index
                <= old(self).reader.buffer@.len(),
            final(self).remaining_depth == old(self).remaining_depth,
            seq_extends(old(self).table_refs@, final(self).table_refs@),
            seq_extends(old(self).string_refs@, final(self).string_refs@),
            final(self).table_refs == old(self).table_refs,
            len >= 1 && old(self).reader.index + len <= old(self).reader.buffer@.len() ==> (r
                matches Ok(v) && v matches Value::Text(tx) && tx@ == crate::value::utf8_lossy(
                old(self).reader.buffer@.subrange(
                    old(self).reader.index as int,
                    old(self).reader.index + len,
                ),
            )),
            len == 0 && 1 <= old(self).reader.index <= old(self).reader.buffer@.len() ==> (r
                matches Ok(v) && v matches Value::Text(tx) && tx@ == crate::value::utf8_lossy(
                Seq::<u8>::empty(),
            )),
            r is Ok && len > 2 ==> final(self).string_refs@.len() == old(self).string_refs@.len()
                + 1 && final(self).string_refs@[old(self).string_refs@.len() as int]@
                == crate::value::utf8_lossy(
                old(self).reader.buffer@.subrange(
                    old(self).reader.index as int,
                    old(self).reader.index + len,
                ),
            ) && (forall|j: int|
                0 <= j < old(self).string_refs@.len() ==> final(self).string_refs@[j] == old(
                    self,
                ).string_refs@[j]),
            r is Ok && len <= 2 ==> final(self).string_refs == old(self).string_refs,
            old(self).reader.index <= old(self).reader.buffer@.len() ==> (r is Err
                ==> *final(self) == *old(self)),
            old(self).reader.index <= old(self).reader.buffer@.len() ==> (r is Err <==> !((len >= 1
                && old(self).reader.index + len <= old(self).reader.buffer@.len()) || (len == 0 && 1
                <= old(self).reader.index))),
            r matches Err(e) ==> e == Error::UnexpectedEOF,
    {
        match self.reader.read_string(len) {
            None => Err(Error::UnexpectedEOF),
            Some(s) => {
                if len > 2 {
                    self.string_refs.push(vstd::slice::slice_to_vec(s.as_slice()));
                }
                Ok(Value::Text(s))
            },
        }
    }

    /// A map payload: `len` key/value pairs; keys are coerced to text.
    fn deserialize_map(&mut self, len: usize) -> (r: Result<Value, Error>)
        requires
            old(self).remaining_depth >= 1,
        ensures
            final(self).reader.buffer@ == old(self).reader.buffer@,
            final(self).reader.index >= old(self).reader.index,
            old(self).reader.index <= old(self).reader.buffer@.len() ==> final(self).reader.index
                <= old(self).reader.buffer@.len(),
            final(self).remaining_depth == old(self).remaining_depth,
            seq_extends(old(self).table_refs@, final(self).table_refs@),
            seq_extends(old(self).string_refs@, final(self).string_refs@),
            r matches Ok(v) ==> final(self).table_refs@.len() >= old(self).table_refs@.len() + 1
                && crate::value::value_eq(
                final(self).table_refs@[final(self).table_refs@.len() - 1],
                v,
            ),
            r matches Err(e) ==> de_value_error(e),
        decreases old(self).remaining_depth, 0int,
    {
        let mut entries: Vec<(Vec<u8>, Value)> = Vec::new();
        let mut i: usize = 0;
        while i < len
            invariant
                self.remaining_depth == old(self).remaining_depth,
                self.remaining_depth >= 1,
                seq_extends(old(self).table_refs@, self.table_refs@),
                seq_extends(old(self).string_refs@, self.string_refs@),
                self.reader.buffer@ == old(self).reader.buffer@,
                self.reader.index >= old(self).reader.index,
                old(self).reader.index <= old(self).reader.buffer@.len() ==> self.reader.index
                    <= old(self).reader.buffer@.len(),
            decreases len - i,
        {
            if self.remaining_depth == 1 {
                return Err(Error::RecursionLimit);
            }
            self.remaining_depth = self.remaining_depth - 1;
            let key_value = match self.extract_value() {
                Err(e) => {
                    self.remaining_depth = self.remaining_depth + 1;
                    return Err(e);
                },
                Ok(v) => v,
            };
            let value = match self.extract_value() {
                Err(e) => {
                    self.remaining_depth = self.remaining_depth + 1;
                    return Err(e);
                },
                Ok(v) => v,
            };
            self.remaining_depth = self.remaining_depth + 1;
            let key = match coerce_key(&key_value) {
                Err(e) => {
                    return Err(e);
                },
                Ok(k) => k,
            };
            object_insert(&mut entries, key, value);
            i += 1;
        }
        let result = Value::Object(entries);
        let copy = deep_copy(&result);
        self.table_refs.push(copy);
        Ok(result)
    }

    /// An array payload: `len` values.
    fn deserialize_array(&mut self, len: usize) -> (r: Result<Value, Error>)
        requires
            old(self).remaining_depth >= 1,
        ensures
            final(self).reader.buffer@ == old(self).reader.buffer@,
            final(self).reader.index >= old(self).reader.index,
            old(self).reader.index <= old(self).reader.buffer@.len() ==> final(self).reader.index
                <= old(self).reader.buffer@.len(),
            final(self).remaining_depth == old(self).remaining_depth,
            seq_extends(old(self).table_refs@, final(self).table_refs@),
            seq_extends(old(self).string_refs@, final(self).string_refs@),
            r matches Ok(v) ==> final(self).table_refs@.len() >= old(self).table_refs@.len() + 1
                && crate::value::value_eq(
                final(self).table_refs@[final(self).table_refs@.len() - 1],
                v,
            ),
            r matches Err(e) ==> de_value_error(e),
        decreases old(self).remaining_depth, 0int,
    {
        let mut values: Vec<Value> = Vec::new();
        let mut i: usize = 0;
        while i < len
            invariant
                self.remaining_depth == old(self).remaining_depth,
                self.remaining_depth >= 1,
                seq_extends(old(self).table_refs@, self.table_refs@),
                seq_extends(old(self).string_refs@, self.string_refs@),
                self.reader.buffer@ == old(self).reader.buffer@,
                self.reader.index >= old(self).reader.index,
                old(self).reader.index <= old(self).reader.buffer@.len() ==> self.reader.index
                    <= old(self).reader.buffer@.len(),
            decreases len - i,
        {
            if self.remaining_depth == 1 {
                return Err(Error::RecursionLimit);
            }
            self.remaining_depth = self.remaining_depth - 1;
            let value = match self.extract_value() {
                Err(e) => {
                    self.remaining_depth = self.remaining_depth + 1;
                    return Err(e);
                },
                Ok(v) => v,
            };
            self.remaining_depth = self.remaining_depth + 1;
            values.push(value);
            i += 1;
        }
        let result = Value::List(values);
        let copy = deep_copy(&result);
        self.table_refs.push(copy);
        Ok(result)
    }

    /// A mixed payload: an array part lowered to the keys `1..=a`,
    /// then `m` key/value pairs.
    fn deserialize_mixed(&mut self, array_len: usize, map_len: usize) -> (r: Result<Value, Error>)
        requires
            old(self).remaining_depth >= 1,
        ensures
            final(self).reader.buffer@ == old(self).reader.buffer@,
            final(self).reader.index >= old(self).reader.index,
            old(self).reader.index <= old(self).reader.buffer@.len() ==> final(self).reader.index
                <= old(self).reader.buffer@.len(),
            final(self).remaining_depth == old(self).remaining_depth,
            seq_extends(old(self).table_refs@, final(self).table_refs@),
            seq_extends(old(self).string_refs@, final(self).string_refs@),
            r matches Ok(v) ==> final(self).table_refs@.len() >= old(self).table_refs@.len() + 1
                && crate::value::value_eq(
                final(self).table_refs@[final(self).table_refs@.len() - 1],
                v,
            ),
            r matches Err(e) ==> de_value_error(e),
        decreases old(self).remaining_depth, 0int,
    {
        let mut entries: Vec<(Vec<u8>, Value)> = Vec::new();
        let mut i: usize = 0;
        while i < array_len
            invariant
                self.remaining_depth == old(self).remaining_depth,
                self.remaining_depth >= 1,
                seq_extends(old(self).table_refs@, self.table_refs@),
                seq_extends(old(self).string_refs@, self.string_refs@),
                self.reader.buffer@ == old(self).reader.buffer@,
                self.reader.index >= old(self).reader.index,
                old(self).reader.index <= old(self).reader.buffer@.len() ==> self.reader.index
                    <= old(self).reader.buffer@.len(),
                i <= array_len,
            decreases array_len - i,
        {
            if self.remaining_depth == 1 {
                return Err(Error::RecursionLimit);
            }
            self.remaining_depth = self.remaining_depth - 1;
            let value = match self.extract_value() {
                Err(e) => {
                    self.remaining_depth = self.remaining_depth + 1;
                    return Err(e);
                },
                Ok(v) => v,
            };
            self.remaining_depth = self.remaining_depth + 1;
            let mut key: Vec<u8> = Vec::new();
            push_decimal(&mut key, (i + 1) as u64);
            object_insert(&mut entries, key, value);
            i += 1;
        }
        let mut j: usize = 0;
        while j < map_len
            invariant
                self.remaining_depth == old(self).remaining_depth,
                self.remaining_depth >= 1,
                seq_extends(old(self).table_refs@, self.table_refs@),
                seq_extends(old(self).string_refs@, self.string_refs@),
                self.reader.buffer@ == old(self).reader.buffer@,
                self.reader.index >= old(self).reader.index,
                old(self).reader.index <= old(self).reader.buffer@.len() ==> self.reader.index
                    <= old(self).reader.buffer@.len(),
            decreases map_len - j,
        {
            if self.remaining_depth == 1 {
                return Err(Error::RecursionLimit);
            }
            self.remaining_depth = self.remaining_depth - 1;
            let key_value = match self.extract_value() {
                Err(e) => {
                    self.remaining_depth = self.remaining_depth + 1;
                    return Err(e);
                },
                Ok(v) => v,
            };
            let value = match self.extract_value() {
                Err(e) => {
                    self.remaining_depth = self.remaining_depth + 1;
                    return Err(e);
                },
                Ok(v) => v,
            };
            self.remaining_depth = self.remaining_depth + 1;
            let key = match coerce_key(&key_value) {
                Err(e) => {
                    return Err(e);
                },
                Ok(k) => k,
            };
            object_insert(&mut entries, key, value);
            j += 1;
        }
        let result = Value::Object(entries);
        let copy = deep_copy(&result);
        self.table_refs.push(copy);
        Ok(result)
    }
}

} // verus!
