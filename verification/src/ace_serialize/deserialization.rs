//! The text deserializer: a `^1` header, then tagged values up to the
//! `^^` terminator. Tables lower to lists when their keys are exactly
//! `1..=len` in order, and to objects otherwise.
use crate::ace_serialize::reader::StrReader;
use crate::double::{
    mul_double_bits, parse_double, parse_double_bits, pow2_double_bits, NEG_INF_BITS, POS_INF_BITS,
};
use crate::value::{coerce_key, object_insert, Error, Value};
use vstd::prelude::*;

verus! {

/// The errors the text deserializer can report; a missing `^1`
/// header is found only at the stream head.
pub open spec fn ace_error(e: Error) -> bool {
    e == Error::InvalidHeader || ace_value_error(e)
}

/// The errors decoding a single tagged value can report.
pub open spec fn ace_value_error(e: Error) -> bool {
    ||| e == Error::InvalidTag
    ||| e == Error::InvalidEscape
    ||| e == Error::MissingExponent
    ||| e == Error::UnexpectedEOF
    ||| e == Error::RecursionLimit
    ||| e == Error::UnsupportedKey
}

/// The bit pattern the `^N` payload text denotes: the infinity
/// spellings first, then std's double parsing.
pub open spec fn number_text_bits(data: Seq<u8>) -> Option<u64> {
    if data == seq![49u8, 46u8, 35u8, 73u8, 78u8, 70u8] || data == seq![105u8, 110u8, 102u8] {
        Some(POS_INF_BITS)
    } else if data == seq![45u8, 49u8, 46u8, 35u8, 73u8, 78u8, 70u8] || data == seq![
        45u8,
        105u8,
        110u8,
        102u8,
    ] {
        Some(NEG_INF_BITS)
    } else {
        parse_double(data)
    }
}

/// The caret position at or after `i`, if any.
pub open spec fn scan_to_caret(s: Seq<u8>, i: int) -> Option<int>
    decreases s.len() - i,
{
    if i < 0 || i >= s.len() {
        None
    } else if s[i] == 94 {
        Some(i)
    } else {
        scan_to_caret(s, i + 1)
    }
}

/// The first caret at or after `i` is found by the scan.
proof fn lemma_scan_to_caret(s: Seq<u8>, i: int, j: int)
    requires
        0 <= i <= j < s.len(),
        s[j] == 94,
        forall|m: int| i <= m < j ==> s[m] != 94,
    ensures
        scan_to_caret(s, i) == Some(j),
    decreases j - i,
{
    if i < j {
        lemma_scan_to_caret(s, i + 1, j);
    }
}

/// With no caret from `i` on, the scan finds nothing.
proof fn lemma_scan_to_caret_none(s: Seq<u8>, i: int)
    requires
        0 <= i,
        forall|m: int| i <= m < s.len() ==> s[m] != 94,
    ensures
        scan_to_caret(s, i) is None,
    decreases s.len() - i,
{
    if i < s.len() {
        lemma_scan_to_caret_none(s, i + 1);
    }
}

/// What decoding one tagged value at position `i` of `b` yields, for
/// the tags whose payload this specification pins down: the
/// terminator, the scalars, escaped strings, and `^N` numbers.
/// Tables and the `^F` form are beyond it and unconstrained.
pub open spec fn ace_tag_post(b: Seq<u8>, i: int, r: Result<Option<Value>, Error>) -> bool {
    0 <= i && i + 1 < b.len() && b[i] == 94 && b[i + 1] <= 0x79 ==> {
        let tag = b[i + 1];
        &&& (tag == 94 ==> r == Ok::<Option<Value>, Error>(None::<Value>))
        &&& (tag == 90 ==> r == Ok::<Option<Value>, Error>(Some(Value::Null)))
        &&& (tag == 66 ==> r == Ok::<Option<Value>, Error>(Some(Value::Bool(true))))
        &&& (tag == 98 ==> r == Ok::<Option<Value>, Error>(Some(Value::Bool(false))))
        &&& (tag == 83 ==> (crate::ace_serialize::reader::unesc_scan(b, i + 2) matches Some(p)
            ==> (r matches Ok(ov) && ov matches Some(v) && v matches Value::Text(tx) && tx@
            == p.0)))
        &&& (tag == 78 ==> (scan_to_caret(b, i + 2) matches Some(j) ==> {
            let parsed = number_text_bits(b.subrange(i + 2, j));
            &&& (parsed matches Some(bits) ==> (crate::double::f_is_finite(bits) ==> r == Ok::<
                Option<Value>,
                Error,
            >(Some(Value::Number(bits)))) && (!crate::double::f_is_finite(bits) ==> r == Ok::<
                Option<Value>,
                Error,
            >(Some(Value::Null))))
            &&& (parsed is None ==> r == Err::<Option<Value>, Error>(Error::InvalidTag))
        }))
        &&& (tag == 70 ==> (scan_to_caret(b, i + 2) matches Some(j) ==> {
            let m_parsed = parse_double(b.subrange(i + 2, j));
            &&& (m_parsed is None ==> r == Err::<Option<Value>, Error>(Error::InvalidTag))
            &&& (m_parsed is Some ==> {
                &&& (j + 1 >= b.len() ==> r == Err::<Option<Value>, Error>(Error::UnexpectedEOF))
                &&& (j + 1 < b.len() && b[j + 1] > 0x79 ==> r == Err::<Option<Value>, Error>(
                    Error::InvalidTag,
                ))
                &&& (j + 1 < b.len() && b[j + 1] <= 0x79 && b[j + 1] != 102 ==> r == Err::<
                    Option<Value>,
                    Error,
                >(Error::MissingExponent))
                &&& (j + 1 < b.len() && b[j + 1] == 102 ==> (scan_to_caret(b, j + 2) matches Some(
                    j2,
                ) ==> {
                    let e_parsed = parse_double(b.subrange(j + 2, j2));
                    &&& (e_parsed is None ==> r == Err::<Option<Value>, Error>(Error::InvalidTag))
                    &&& (e_parsed is Some ==> (r matches Ok(ov) && ov matches Some(v) && (v
                        == Value::Null || (v matches Value::Number(nb)
                        && crate::double::f_is_finite(nb)))))
                }))
            })
        }))
    }
}

/// What decoding the first value of a stream yields, for the tags
/// `ace_tag_post` pins down, with the stream's `^1` header in front;
/// the `^^` terminator right after the header decodes to null.
pub open spec fn ace_first_post(b: Seq<u8>, r: Result<Value, Error>) -> bool {
    b.len() >= 4 && b[0] == 94 && b[1] == 49 && b[2] == 94 && b[3] <= 0x79 ==> {
        let tag = b[3];
        &&& (tag == 94 ==> r == Ok::<Value, Error>(Value::Null))
        &&& (tag == 90 ==> r == Ok::<Value, Error>(Value::Null))
        &&& (tag == 66 ==> r == Ok::<Value, Error>(Value::Bool(true)))
        &&& (tag == 98 ==> r == Ok::<Value, Error>(Value::Bool(false)))
        &&& (tag == 83 ==> (crate::ace_serialize::reader::unesc_scan(b, 4) matches Some(p) ==> (r
            matches Ok(v) && v matches Value::Text(tx) && tx@ == p.0)))
        &&& (tag == 78 ==> (scan_to_caret(b, 4) matches Some(j) ==> {
            let parsed = number_text_bits(b.subrange(4, j));
            &&& (parsed matches Some(bits) ==> (crate::double::f_is_finite(bits) ==> r == Ok::<
                Value,
                Error,
            >(Value::Number(bits))) && (!crate::double::f_is_finite(bits) ==> r == Ok::<
                Value,
                Error,
            >(Value::Null)))
            &&& (parsed is None ==> r == Err::<Value, Error>(Error::InvalidTag))
        }))
    }
}

/// Whether a collected table key is exactly the number `n`, as the
/// list-lowering rule tests positions 1, 2, ...
pub open spec fn is_index_key(v: Value, n: int) -> bool {
    v matches Value::Number(b) && crate::double::f_fits_int(b) && crate::double::f_int_val(b) == n
}

/// Whether the collected keys are exactly the numbers `1..=len` in
/// order, which lowers the table to a list.
pub open spec fn list_keyed(ks: Seq<Value>) -> bool {
    forall|i: int| 0 <= i < ks.len() ==> is_index_key(#[trigger] ks[i], i + 1)
}

/// Whether a key value can be coerced to text: strings stay
/// themselves, booleans and numbers get their spellings; anything
/// else cannot key an object.
pub open spec fn coercible_key(v: Value) -> bool {
    v matches Value::Text(_) || v matches Value::Bool(_) || v matches Value::Number(_)
}

/// Lowers a collected table to its value: a list when the keys are
/// exactly `1..=len` in order, otherwise an object built by coercing
/// each key, with a repeated key keeping its position and taking the
/// later value.
pub fn lower_table(keys: Vec<Value>, values: Vec<Value>) -> (r: Result<Value, Error>)
    requires
        keys@.len() == values@.len(),
    ensures
        list_keyed(keys@) ==> r == Ok::<Value, Error>(Value::List(values)),
        !list_keyed(keys@) ==> (r is Ok <==> forall|i: int|
            0 <= i < keys@.len() ==> coercible_key(#[trigger] keys@[i])),
        !list_keyed(keys@) ==> (r matches Ok(v) ==> v is Object),
        r is Err ==> r == Err::<Value, Error>(Error::UnsupportedKey),
{
    let mut is_array = true;
    let ghost mut witness: int = 0;
    let mut i: usize = 0;
    while i < keys.len()
        invariant
            i <= keys@.len(),
            is_array ==> forall|q: int| 0 <= q < i ==> is_index_key(#[trigger] keys@[q], q + 1),
            !is_array ==> 0 <= witness < keys@.len() && !is_index_key(keys@[witness], witness + 1),
            !is_array ==> i == keys@.len(),
        decreases keys@.len() - i,
    {
        let matches_index = match &keys[i] {
            Value::Number(bits) => {
                match crate::double::as_small_int(*bits) {
                    Some(n) => n >= 1 && (n as u64) == (i as u64) + 1,
                    None => false,
                }
            },
            _ => false,
        };
        if !matches_index {
            is_array = false;
            proof {
                witness = i as int;
            }
            i = keys.len();
        } else {
            i += 1;
        }
    }
    if is_array {
        return Ok(Value::List(values));
    }
    let mut entries: Vec<(Vec<u8>, Value)> = Vec::new();
    let mut j: usize = 0;
    while j < keys.len()
        invariant
            j <= keys@.len(),
            keys@.len() == values@.len(),
            forall|q: int| 0 <= q < j ==> coercible_key(#[trigger] keys@[q]),
            !list_keyed(keys@),
        decreases keys@.len() - j,
    {
        let key = match coerce_key(&keys[j]) {
            Err(e) => {
                return Err(e);
            },
            Ok(k) => k,
        };
        let value = crate::value::deep_copy(&values[j]);
        object_insert(&mut entries, key, value);
        j += 1;
    }
    Ok(Value::Object(entries))
}

pub struct Deserializer<'s> {
    pub remaining_depth: usize,
    pub reader: StrReader<'s>,
}

impl<'s> Deserializer<'s> {
    /// A deserializer over the text, with a depth budget that admits
    /// 128 nested tables.
    pub fn from_str(slice: &'s [u8]) -> (r: Self)
        ensures
            r.reader.buffer@ == slice@,
            r.reader.index == 0,
            r.remaining_depth == 129,
    {
        Self { remaining_depth: 129, reader: StrReader::new(slice) }
    }

    /// Decodes every value in the stream, as a list.
    pub fn deserialize(self) -> (r: Result<Value, Error>)
        requires
            self.remaining_depth >= 1,
            self.reader.index <= self.reader.buffer@.len(),
        ensures
            self.reader.index == 0 ==> ((r == Err::<Value, Error>(Error::InvalidHeader)) <==> !(
            self.reader.buffer@.len() >= 2 && self.reader.buffer@[0] == 94
                && self.reader.buffer@[1] == 49)),
            r matches Ok(out) ==> out is List,
            r matches Err(e) ==> ace_error(e),
    {
        let mut de = self;
        match de.reader.read_identifier() {
            Ok(b) => {
                if b != 49 {
                    return Err(Error::InvalidHeader);
                }
            },
            Err(_) => {
                return Err(Error::InvalidHeader);
            },
        }
        let mut result: Vec<Value> = Vec::new();
        loop
            invariant
                de.remaining_depth >= 1,
                de.reader.index <= de.reader.buffer@.len(),
                self.reader.index == 0 ==> self.reader.buffer@.len() >= 2
                    && self.reader.buffer@[0] == 94 && self.reader.buffer@[1] == 49,
            decreases de.reader.buffer@.len() - de.reader.index,
        {
            match de.reader.peek_identifier() {
                Ok(_) => {},
                Err(_) => {
                    break ;
                },
            }
            match de.deserialize_helper() {
                Ok(Some(v)) => {
                    result.push(v);
                },
                Ok(None) => {},
                Err(e) => {
                    return Err(e);
                },
            }
        }
        Ok(Value::List(result))
    }

    /// Decodes the first value in the stream; a bare header decodes
    /// to null.
    pub fn deserialize_first(self) -> (r: Result<Value, Error>)
        requires
            self.remaining_depth >= 1,
            self.reader.index <= self.reader.buffer@.len(),
        ensures
            self.reader.index == 0 ==> ((r == Err::<Value, Error>(Error::InvalidHeader)) <==> !(
            self.reader.buffer@.len() >= 2 && self.reader.buffer@[0] == 94
                && self.reader.buffer@[1] == 49)),
            self.reader.index == 0 ==> ace_first_post(self.reader.buffer@, r),
            r matches Err(e) ==> ace_error(e),
    {
        let mut de = self;
        match de.reader.read_identifier() {
            Ok(b) => {
                if b != 49 {
                    return Err(Error::InvalidHeader);
                }
            },
            Err(_) => {
                return Err(Error::InvalidHeader);
            },
        }
        match de.deserialize_helper() {
            Ok(Some(v)) => Ok(v),
            Ok(None) => Ok(Value::Null),
            Err(e) => Err(e),
        }
    }

    /// Decodes one tagged value, or `None` at the `^^` terminator.
    pub fn deserialize_helper(&mut self) -> (r: Result<Option<Value>, Error>)
        requires
            old(self).remaining_depth >= 1,
            old(self).reader.index <= old(self).reader.buffer@.len(),
        ensures
            final(self).reader.buffer@ == old(self).reader.buffer@,
            final(self).reader.index >= old(self).reader.index,
            final(self).reader.index <= final(self).reader.buffer@.len(),
            final(self).remaining_depth == old(self).remaining_depth,
            r is Ok ==> final(self).reader.index > old(self).reader.index,
            ace_tag_post(old(self).reader.buffer@, old(self).reader.index as int, r),
            r matches Err(e) ==> ace_value_error(e),
        decreases old(self).remaining_depth, 1int,
    {
        let tag = match self.reader.read_identifier() {
            Ok(t) => t,
            Err(e) => {
                return Err(e);
            },
        };
        if tag == 94 {
            // `^^`: the stream terminator.
            Ok(None)
        } else if tag == 90 {
            // `^Z`: null.
            Ok(Some(Value::Null))
        } else if tag == 66 {
            // `^B`: true.
            Ok(Some(Value::Bool(true)))
        } else if tag == 98 {
            // `^b`: false.
            Ok(Some(Value::Bool(false)))
        } else if tag == 83 {
            // `^S`: an escaped string.
            match self.reader.parse_str() {
                Ok(s) => Ok(Some(Value::Text(s))),
                Err(e) => Err(e),
            }
        } else if tag == 78 {
            // `^N`: a decimal number; values with no finite double
            // form decode to null.
            let data = match self.reader.read_until_next() {
                Ok(d) => d,
                Err(e) => {
                    proof {
                        lemma_scan_to_caret_none(
                            self.reader.buffer@,
                            old(self).reader.index + 2,
                        );
                    }
                    return Err(e);
                },
            };
            proof {
                lemma_scan_to_caret(
                    self.reader.buffer@,
                    old(self).reader.index + 2,
                    self.reader.index as int,
                );
            }
            match Self::deserialize_number(&data) {
                Err(e) => Err(e),
                Ok(bits) => {
                    if crate::double::is_finite_bits(bits) {
                        Ok(Some(Value::Number(bits)))
                    } else {
                        Ok(Some(Value::Null))
                    }
                },
            }
        } else if tag == 70 {
            // `^F<mantissa>^f<exponent>`: mantissa times two to the
            // exponent; a non-finite outcome decodes to null.
            let mantissa_text = match self.reader.read_until_next() {
                Ok(d) => d,
                Err(e) => {
                    proof {
                        lemma_scan_to_caret_none(
                            self.reader.buffer@,
                            old(self).reader.index + 2,
                        );
                    }
                    return Err(e);
                },
            };
            proof {
                lemma_scan_to_caret(
                    self.reader.buffer@,
                    old(self).reader.index + 2,
                    self.reader.index as int,
                );
            }
            let ghost j = self.reader.index as int;
            let mantissa = match parse_double_bits(mantissa_text.as_slice()) {
                None => {
                    return Err(Error::InvalidTag);
                },
                Some(b) => b,
            };
            let next = match self.reader.read_identifier() {
                Ok(t) => t,
                Err(e) => {
                    return Err(e);
                },
            };
            if next != 102 {
                return Err(Error::MissingExponent);
            }
            let exponent_text = match self.reader.read_until_next() {
                Ok(d) => d,
                Err(e) => {
                    proof {
                        lemma_scan_to_caret_none(self.reader.buffer@, j + 2);
                    }
                    return Err(e);
                },
            };
            proof {
                lemma_scan_to_caret(self.reader.buffer@, j + 2, self.reader.index as int);
            }
            let exponent = match parse_double_bits(exponent_text.as_slice()) {
                None => {
                    return Err(Error::InvalidTag);
                },
                Some(b) => b,
            };
            if !crate::double::is_finite_bits(mantissa) || !crate::double::is_finite_bits(
                exponent,
            ) {
                return Ok(Some(Value::Null));
            }
            let scale = pow2_double_bits(exponent);
            if !crate::double::is_finite_bits(scale) {
                return Ok(Some(Value::Null));
            }
            let bits = mul_double_bits(mantissa, scale);
            if crate::double::is_finite_bits(bits) {
                Ok(Some(Value::Number(bits)))
            } else {
                Ok(Some(Value::Null))
            }
        } else if tag == 84 {
            // `^T ... ^t`: a table of key/value pairs.
            self.deserialize_table()
        } else {
            Err(Error::InvalidTag)
        }
    }

    /// Decodes a table body after `^T`: pairs until `^t`, lowered to
    /// a list when the keys are exactly `1..=len` in order.
    fn deserialize_table(&mut self) -> (r: Result<Option<Value>, Error>)
        requires
            old(self).remaining_depth >= 1,
            old(self).reader.index <= old(self).reader.buffer@.len(),
        ensures
            final(self).reader.buffer@ == old(self).reader.buffer@,
            final(self).reader.index >= old(self).reader.index,
            final(self).reader.index <= final(self).reader.buffer@.len(),
            final(self).remaining_depth == old(self).remaining_depth,
            r matches Err(e) ==> ace_value_error(e),
        decreases old(self).remaining_depth, 0int,
    {
        let mut keys: Vec<Value> = Vec::new();
        let mut values: Vec<Value> = Vec::new();
        loop
            invariant
                self.remaining_depth == old(self).remaining_depth,
                self.remaining_depth >= 1,
                self.reader.buffer@ == old(self).reader.buffer@,
                self.reader.index >= old(self).reader.index,
                self.reader.index <= self.reader.buffer@.len(),
                keys@.len() == values@.len(),
            decreases self.reader.buffer@.len() - self.reader.index,
        {
            let next = match self.reader.peek_identifier() {
                Ok(t) => t,
                Err(e) => {
                    return Err(e);
                },
            };
            if next == 116 {
                // `^t`: the end of the table.
                match self.reader.read_identifier() {
                    Ok(_) => {},
                    Err(_) => {},
                }
                break ;
            }
            if self.remaining_depth == 1 {
                return Err(Error::RecursionLimit);
            }
            self.remaining_depth = self.remaining_depth - 1;
            let key = match self.deserialize_helper() {
                Err(e) => {
                    self.remaining_depth = self.remaining_depth + 1;
                    return Err(e);
                },
                Ok(None) => {
                    self.remaining_depth = self.remaining_depth + 1;
                    return Err(Error::UnexpectedEOF);
                },
                Ok(Some(k)) => k,
            };
            let after_key = match self.reader.peek_identifier() {
                Ok(t) => t,
                Err(e) => {
                    self.remaining_depth = self.remaining_depth + 1;
                    return Err(e);
                },
            };
            if after_key == 116 {
                self.remaining_depth = self.remaining_depth + 1;
                return Err(Error::UnexpectedEOF);
            }
            let value = match self.deserialize_helper() {
                Err(e) => {
                    self.remaining_depth = self.remaining_depth + 1;
                    return Err(e);
                },
                Ok(None) => {
                    self.remaining_depth = self.remaining_depth + 1;
                    return Err(Error::UnexpectedEOF);
                },
                Ok(Some(v)) => v,
            };
            self.remaining_depth = self.remaining_depth + 1;
            keys.push(key);
            values.push(value);
        }
        // A table whose keys are exactly 1..=len, in order, is a list.
        match lower_table(keys, values) {
            Ok(v) => Ok(Some(v)),
            Err(e) => Err(e),
        }
    }

    /// The bit pattern a `^N` payload denotes: the infinity spellings
    /// first, then std's double parsing; anything else is an error.
    pub fn deserialize_number(data: &[u8]) -> (r: Result<u64, Error>)
        ensures
            number_text_bits(data@) matches Some(b) ==> r == Ok::<u64, Error>(b),
            number_text_bits(data@) is None ==> r == Err::<u64, Error>(Error::InvalidTag),
    {
        proof {
            assert(data@.len() == 6 && data@[0] == 49 && data@[1] == 46 && data@[2] == 35
                && data@[3] == 73 && data@[4] == 78 && data@[5] == 70 ==> data@ =~= seq![
                49u8,
                46u8,
                35u8,
                73u8,
                78u8,
                70u8,
            ]);
            assert(data@.len() == 3 && data@[0] == 105 && data@[1] == 110 && data@[2] == 102
                ==> data@ =~= seq![105u8, 110u8, 102u8]);
            assert(data@.len() == 7 && data@[0] == 45 && data@[1] == 49 && data@[2] == 46
                && data@[3] == 35 && data@[4] == 73 && data@[5] == 78 && data@[6] == 70 ==> data@
                =~= seq![45u8, 49u8, 46u8, 35u8, 73u8, 78u8, 70u8]);
            assert(data@.len() == 4 && data@[0] == 45 && data@[1] == 105 && data@[2] == 110
                && data@[3] == 102 ==> data@ =~= seq![45u8, 105u8, 110u8, 102u8]);
        }
        if data.len() == 6 && data[0] == 49 && data[1] == 46 && data[2] == 35 && data[3] == 73
            && data[4] == 78 && data[5] == 70 {
            return Ok(POS_INF_BITS);
        }
        if data.len() == 3 && data[0] == 105 && data[1] == 110 && data[2] == 102 {
            return Ok(POS_INF_BITS);
        }
        if data.len() == 7 && data[0] == 45 && data[1] == 49 && data[2] == 46 && data[3] == 35
            && data[4] == 73 && data[5] == 78 && data[6] == 70 {
            return Ok(NEG_INF_BITS);
        }
        if data.len() == 4 && data[0] == 45 && data[1] == 105 && data[2] == 110 && data[3] == 102 {
            return Ok(NEG_INF_BITS);
        }
        proof {
            assert(data@ != seq![49u8, 46u8, 35u8, 73u8, 78u8, 70u8] && data@ != seq![
                105u8,
                110u8,
                102u8,
            ] && data@ != seq![45u8, 49u8, 46u8, 35u8, 73u8, 78u8, 70u8] && data@ != seq![
                45u8,
                105u8,
                110u8,
                102u8,
            ]) by {
                assert(seq![49u8, 46u8, 35u8, 73u8, 78u8, 70u8].len() == 6);
                assert(seq![105u8, 110u8, 102u8].len() == 3);
                assert(seq![45u8, 49u8, 46u8, 35u8, 73u8, 78u8, 70u8].len() == 7);
                assert(seq![45u8, 105u8, 110u8, 102u8].len() == 4);
            }
        }
        match parse_double_bits(data) {
            Some(bits) => Ok(bits),
            None => Err(Error::InvalidTag),
        }
    }
}

} // verus!
