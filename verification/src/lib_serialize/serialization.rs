//! The binary serializer: numbers in their narrowest integer form or
//! as raw doubles, strings with back-references on repetition, and
//! containers as arrays, maps or mixed tables.
use crate::decimal::push_decimal;
use crate::double::{f_fits_int, f_int_val, MAX_INT_MAG};
use crate::lib_serialize::type_tag::{EmbeddedTypeTag, TypeTag};
use crate::lib_serialize::MINOR;
use crate::value::{Error, Value};
use vstd::arithmetic::div_mod::{lemma_div_denominator, lemma_fundamental_div_mod};
use vstd::arithmetic::power2::{lemma2_to64, lemma2_to64_rest, lemma_pow2_adds, lemma_pow2_pos, pow2};
use vstd::prelude::*;

verus! {

/// How many bytes the narrowest of the 1/2/3/4/7-byte unsigned forms
/// needs for `v`.
pub open spec fn required_bytes_spec(v: u64) -> u8 {
    if v <= 0xFF {
        1u8
    } else if v <= 0xFFFF {
        2u8
    } else if v <= 0xFF_FFFF {
        3u8
    } else if v <= 0xFFFF_FFFF {
        4u8
    } else {
        7u8
    }
}

/// How many bytes the narrowest unsigned form needs for `v`.
pub fn required_bytes(v: u64) -> (r: u8)
    ensures
        r == required_bytes_spec(v),
{
    if v <= 0xFF {
        1
    } else if v <= 0xFFFF {
        2
    } else if v <= 0xFF_FFFF {
        3
    } else if v <= 0xFFFF_FFFF {
        4
    } else {
        7
    }
}

/// The big-endian bytes of `v`, `n` bytes wide.
pub open spec fn be_bytes_of(v: nat, n: nat) -> Seq<u8>
    decreases n,
{
    if n == 0 {
        Seq::<u8>::empty()
    } else {
        be_bytes_of(v / 256, (n - 1) as nat) + seq![(v % 256) as u8]
    }
}

/// Each big-endian byte is the matching base-256 digit of `v`.
pub proof fn lemma_be_bytes_index(v: nat, n: nat, i: int)
    requires
        0 <= i < n,
    ensures
        be_bytes_of(v, n).len() == n,
        be_bytes_of(v, n)[i] == ((v / pow2((8 * (n - 1 - i)) as nat)) % 256) as u8,
    decreases n,
{
    lemma2_to64();
    if i == n - 1 {
        assert(pow2(0) == 1);
        assert(v / 1 == v) by {
            lemma_fundamental_div_mod(v as int, 1);
        }
        lemma_be_bytes_len(v / 256, (n - 1) as nat);
        assert(be_bytes_of(v, n)[i] == (v % 256) as u8);
    } else {
        lemma_be_bytes_index(v / 256, (n - 1) as nat, i);
        lemma_be_bytes_len(v / 256, (n - 1) as nat);
        let k = (8 * (n - 2 - i)) as nat;
        lemma_pow2_pos(k);
        lemma_div_denominator(v as int, 256, pow2(k) as int);
        lemma_pow2_adds(8, k);
    }
}

/// The width of the big-endian form.
pub proof fn lemma_be_bytes_len(v: nat, n: nat)
    ensures
        be_bytes_of(v, n).len() == n,
    decreases n,
{
    if n > 0 {
        lemma_be_bytes_len(v / 256, (n - 1) as nat);
    }
}

/// The big-endian form reads back to the value it was made from.
pub proof fn lemma_be_val_of_bytes(v: nat, n: nat)
    requires
        v < pow2(8 * n),
    ensures
        crate::lib_serialize::reader::be_val(be_bytes_of(v, n)) == v,
    decreases n,
{
    lemma2_to64();
    if n == 0 {
        assert(pow2(0) == 1);
    } else {
        lemma_pow2_adds((8 * (n - 1)) as nat, 8);
        vstd::arithmetic::div_mod::lemma_multiply_divide_lt(
            v as int,
            256,
            pow2((8 * (n - 1)) as nat) as int,
        );
        lemma_be_val_of_bytes(v / 256, (n - 1) as nat);
        lemma_be_bytes_len(v / 256, (n - 1) as nat);
        let whole = be_bytes_of(v, n);
        assert(whole.drop_last() =~= be_bytes_of(v / 256, (n - 1) as nat));
        assert(whole.last() == (v % 256) as u8);
        vstd::arithmetic::div_mod::lemma_fundamental_div_mod(v as int, 256);
    }
}

/// The byte sequence the encoder emits for a whole number `n` with
/// `|n| <= 2^56 - 1`: the narrowest of the 7-bit, 12-bit and
/// 2/3/4/7-byte forms that holds it.
pub open spec fn int_encoding(n: int) -> Seq<u8> {
    let mag = if n < 0 {
        -n
    } else {
        n
    };
    if 0 <= n < 128 {
        seq![(n * 2 + 1) as u8]
    } else if -4096 < n && n < 4096 {
        let packed = mag * 16 + (if n < 0 {
            8int
        } else {
            0int
        }) + 4;
        seq![(packed % 256) as u8, (packed / 256) as u8]
    } else {
        let neg: u8 = if n < 0 {
            1u8
        } else {
            0u8
        };
        let rb = required_bytes_spec(mag as u64);
        if rb == 2 {
            seq![((TypeTag::Int16Pos.to_u8_spec() + neg) * 8) as u8] + be_bytes_of(mag as nat, 2)
        } else if rb == 3 {
            seq![((TypeTag::Int24Pos.to_u8_spec() + neg) * 8) as u8] + be_bytes_of(mag as nat, 3)
        } else if rb == 4 {
            seq![((TypeTag::Int32Pos.to_u8_spec() + neg) * 8) as u8] + be_bytes_of(mag as nat, 4)
        } else {
            seq![((TypeTag::Int64Pos.to_u8_spec() + neg) * 8) as u8] + be_bytes_of(mag as nat, 7)
        }
    }
}

/// Which total byte lengths can hold the whole number `n` under the
/// format's integer forms: one byte for 0..=127, two for magnitudes
/// below 4096, and a tag byte plus 2, 3, 4 or 7 magnitude bytes.
pub open spec fn int_form_fits(n: int, len: int) -> bool {
    let mag = if n < 0 {
        -n
    } else {
        n
    };
    ||| (len == 1 && 0 <= n < 128)
    ||| (len == 3 && mag <= 0xFFFF)
    ||| (len == 2 && mag <= 4095)
    ||| (len == 4 && mag <= 0xFF_FFFF)
    ||| (len == 5 && mag <= 0xFFFF_FFFF)
    ||| (len == 8 && mag <= MAX_INT_MAG)
}

/// The encoder's integer form is the shortest that holds the number.
pub proof fn lemma_int_encoding_minimal(n: int, len: int)
    requires
        -(MAX_INT_MAG as int) <= n <= MAX_INT_MAG as int,
        int_form_fits(n, len),
    ensures
        int_form_fits(n, int_encoding(n).len() as int),
        int_encoding(n).len() <= len,
{
    let mag = if n < 0 {
        -n
    } else {
        n
    };
    lemma_be_bytes_len(mag as nat, 2);
    lemma_be_bytes_len(mag as nat, 3);
    lemma_be_bytes_len(mag as nat, 4);
    lemma_be_bytes_len(mag as nat, 7);
}

/// The byte sequence the encoder emits for the double with bit
/// pattern `b`: an integer form when the value is whole and small,
/// the full-double form otherwise.
pub open spec fn number_encoding(b: u64) -> Seq<u8> {
    if f_fits_int(b) {
        int_encoding(f_int_val(b))
    } else {
        seq![(TypeTag::Float.to_u8_spec() * 8) as u8] + be_bytes_of(b as nat, 8)
    }
}

/// First position of `s` among the remembered strings, or -1.
pub open spec fn find_ref(refs: Seq<Seq<u8>>, s: Seq<u8>) -> int
    decreases refs.len(),
{
    if refs.len() == 0 {
        -1
    } else if refs[0] == s {
        0
    } else {
        let rest = find_ref(refs.drop_first(), s);
        if rest < 0 {
            -1
        } else {
            rest + 1
        }
    }
}

/// The bytes of a back-reference to 1-based index `idx`.
pub open spec fn ref_encoding(idx: nat) -> Seq<u8> {
    if idx <= 0xFF {
        seq![(TypeTag::StrRef8.to_u8_spec() * 8) as u8] + be_bytes_of(idx, 1)
    } else if idx <= 0xFFFF {
        seq![(TypeTag::StrRef16.to_u8_spec() * 8) as u8] + be_bytes_of(idx, 2)
    } else {
        seq![(TypeTag::StrRef24.to_u8_spec() * 8) as u8] + be_bytes_of(idx, 3)
    }
}

/// The bytes of a first-occurrence string: an embedded opcode below
/// sixteen bytes, a length-prefixed form otherwise.
pub open spec fn str_encoding(s: Seq<u8>) -> Seq<u8> {
    if s.len() < 16 {
        seq![(2 + s.len() * 16) as u8] + s
    } else if s.len() <= 0xFF {
        seq![(TypeTag::Str8.to_u8_spec() * 8) as u8] + be_bytes_of(s.len(), 1) + s
    } else if s.len() <= 0xFFFF {
        seq![(TypeTag::Str16.to_u8_spec() * 8) as u8] + be_bytes_of(s.len(), 2) + s
    } else {
        seq![(TypeTag::Str24.to_u8_spec() * 8) as u8] + be_bytes_of(s.len(), 3) + s
    }
}

/// The header of an array of `len` elements: the embedded opcode
/// below sixteen, a length-prefixed form otherwise.
pub open spec fn list_header(len: nat) -> Seq<u8> {
    if len < 16 {
        seq![(10 + len * 16) as u8]
    } else if len <= 0xFF {
        seq![(TypeTag::Array8.to_u8_spec() * 8) as u8] + be_bytes_of(len, 1)
    } else if len <= 0xFFFF {
        seq![(TypeTag::Array16.to_u8_spec() * 8) as u8] + be_bytes_of(len, 2)
    } else {
        seq![(TypeTag::Array24.to_u8_spec() * 8) as u8] + be_bytes_of(len, 3)
    }
}

/// The bytes the serializer emits for a value together with the
/// string-reference table it leaves behind — defined for everything
/// but objects, whose probed emission order this fold does not
/// follow. `None` stands for an object, a NaN, or a size the format
/// cannot carry.
pub open spec fn bin_value_enc(v: Value, refs: Seq<Seq<u8>>) -> Option<(Seq<u8>, Seq<Seq<u8>>)>
    decreases v,
{
    match v {
        Value::Null => Some((seq![0u8], refs)),
        Value::Bool(b) => Some(
            (
                seq![if b {
                    96u8
                } else {
                    104u8
                }],
                refs,
            ),
        ),
        Value::Number(b) => if !crate::double::f_is_nan(b) {
            Some((number_encoding(b), refs))
        } else {
            None
        },
        Value::Text(s) => {
            let prior = find_ref(refs, s@);
            if prior >= 0 {
                if prior + 1 <= 0xFF_FFFF {
                    Some((ref_encoding((prior + 1) as nat), refs))
                } else {
                    None
                }
            } else {
                if s@.len() <= 0xFF_FFFF {
                    Some(
                        (
                            str_encoding(s@),
                            if s@.len() > 2 {
                                refs.push(s@)
                            } else {
                                refs
                            },
                        ),
                    )
                } else {
                    None
                }
            }
        },
        Value::List(items) => {
            if items@.len() <= 0xFF_FFFF {
                match bin_seq_enc(items@, refs) {
                    None => None,
                    Some(p) => Some((list_header(items@.len()) + p.0, p.1)),
                }
            } else {
                None
            }
        },
        Value::Object(_) => None,
    }
}

/// The fold of `bin_value_enc` over a sequence of elements, threading
/// the reference table left to right.
pub open spec fn bin_seq_enc(s: Seq<Value>, refs: Seq<Seq<u8>>) -> Option<(Seq<u8>, Seq<Seq<u8>>)>
    decreases s,
{
    if s.len() == 0 {
        Some((Seq::<u8>::empty(), refs))
    } else {
        match bin_value_enc(s[0], refs) {
            None => None,
            Some(p0) => match bin_seq_enc(s.drop_first(), p0.1) {
                None => None,
                Some(p1) => Some((p0.0 + p1.0, p1.1)),
            },
        }
    }
}

/// Whether a value is small enough for the binary format, down to `d`
/// levels of nesting: strings and containers stay below 2^24 and
/// nothing nests deeper than `d`.
pub open spec fn fits(v: Value, d: nat) -> bool
    decreases d,
{
    match v {
        Value::Null => true,
        Value::Bool(_) => true,
        Value::Number(b) => !crate::double::f_is_nan(b),
        Value::Text(s) => s@.len() <= 0xFF_FFFF,
        Value::List(items) => items@.len() <= 0xFF_FFFF && (items@.len() == 0 || (d > 1
            && forall|i: int| 0 <= i < items@.len() ==> fits(#[trigger] items@[i], (d - 1) as nat))),
        Value::Object(entries) => entries@.len() <= 0xFF_FFFF && (entries@.len() == 0 || (d > 1
            && forall|i: int|
                0 <= i < entries@.len() ==> fits(#[trigger] entries@[i].1, (d - 1) as nat) && (
                #[trigger] entries@[i].0)@.len() <= 0xFF_FFFF)),
    }
}

/// An upper bound on how many strings serializing `v` can remember:
/// one per text node, summed across lists. An object counts as the
/// whole reference budget, so bounds that involve one say nothing —
/// emitting an object interleaves keys and values in probed order,
/// which this simple sum does not follow.
pub open spec fn ref_weight(v: Value, d: nat) -> nat
    decreases d, 0nat,
{
    match v {
        Value::Text(_) => 1,
        Value::List(items) => if d > 0 {
            ref_weight_seq(items@, (d - 1) as nat)
        } else {
            0
        },
        Value::Object(_) => 0x100_0000,
        _ => 0,
    }
}

pub open spec fn ref_weight_seq(s: Seq<Value>, d: nat) -> nat
    decreases d, s.len() + 1,
{
    if s.len() == 0 {
        0
    } else {
        ref_weight(s[0], d) + ref_weight_seq(s.drop_first(), d)
    }
}

/// One step of the list sum: the weight of the suffix from `k` is the
/// weight of element `k` plus the weight of the suffix after it.
pub proof fn lemma_ref_weight_seq_skip(s: Seq<Value>, d: nat, k: int)
    requires
        0 <= k < s.len(),
    ensures
        ref_weight_seq(s.skip(k), d) == ref_weight(s[k], d) + ref_weight_seq(s.skip(k + 1), d),
{
    assert(s.skip(k).len() > 0);
    assert(s.skip(k)[0] == s[k]);
    assert(s.skip(k).drop_first() =~= s.skip(k + 1));
}

/// `find_ref` names the first match, when there is one.
pub proof fn lemma_find_ref_first(refs: Seq<Seq<u8>>, s: Seq<u8>)
    ensures
        find_ref(refs, s) >= 0 ==> 0 <= find_ref(refs, s) < refs.len() && refs[find_ref(refs, s)]
            == s && forall|j: int| 0 <= j < find_ref(refs, s) ==> refs[j] != s,
        find_ref(refs, s) < 0 ==> forall|j: int| 0 <= j < refs.len() ==> refs[j] != s,
    decreases refs.len(),
{
    if refs.len() > 0 && refs[0] != s {
        lemma_find_ref_first(refs.drop_first(), s);
        assert forall|j: int| 1 <= j < refs.len() implies refs.drop_first()[j - 1] == refs[j] by {}
    }
}

pub struct Serializer {
    pub remaining_depth: usize,
    pub result: Vec<u8>,
    pub string_refs: Vec<Vec<u8>>,
}

/// The view of the remembered strings.
pub open spec fn refs_view(refs: Seq<Vec<u8>>) -> Seq<Seq<u8>> {
    refs.map_values(|r: Vec<u8>| r@)
}

impl Serializer {
    /// Serializes one value as a complete stream: the minor version
    /// byte, then the value. Fails only on nesting beyond 128 levels
    /// or on a string or container the format cannot size.
    pub fn serialize(value: &Value, approximate_len: Option<usize>) -> (r: Result<Vec<u8>, Error>)
        ensures
            r matches Ok(out) ==> out@.len() >= 1 && out@[0] == MINOR,
            r is Err ==> r == Err::<Vec<u8>, Error>(Error::RecursionLimit) || r == Err::<
                Vec<u8>,
                Error,
            >(Error::CapacityOverflow) || r == Err::<Vec<u8>, Error>(Error::UnsupportedNaN),
            value matches Value::Number(b) ==> (r is Err <==> crate::double::f_is_nan(*b)) && (r
                is Err ==> r == Err::<Vec<u8>, Error>(Error::UnsupportedNaN)),
            value == Value::Null ==> (r matches Ok(out) && out@ == seq![MINOR, 0u8]),
            value matches Value::Bool(flag) ==> (r matches Ok(out) && out@ == seq![MINOR, if *flag {
                96u8
            } else {
                104u8
            }]),
            value matches Value::Number(b) ==> (r matches Ok(out) ==> out@ == seq![MINOR]
                + number_encoding(*b)),
            value matches Value::Text(s) ==> (r matches Ok(out) ==> out@ == seq![MINOR]
                + str_encoding(s@)),
            bin_value_enc(*value, Seq::<Seq<u8>>::empty()) matches Some(p) ==> (r matches Ok(out)
                ==> out@ == seq![MINOR] + p.0),
            fits(*value, 129) && ref_weight(*value, 129) <= 0xFF_FFFE ==> r is Ok,
            crate::value::nan_free(*value) ==> r != Err::<Vec<u8>, Error>(Error::UnsupportedNaN),
            crate::value::too_deep(*value, 129) && crate::value::nan_free(*value) ==> (r == Err::<
                Vec<u8>,
                Error,
            >(Error::RecursionLimit) || r == Err::<Vec<u8>, Error>(Error::CapacityOverflow)),
    {
        let capacity: usize = match approximate_len {
            Some(n) => n,
            None => 1024,
        };
        let mut serializer = Serializer {
            remaining_depth: 129,
            result: Vec::with_capacity(capacity),
            string_refs: Vec::new(),
        };
        serializer.result.push(MINOR);
        let ghost with_minor = serializer.result@;
        match serializer.serialize_helper(value) {
            Ok(()) => {
                proof {
                    assert(with_minor =~= seq![MINOR]);
                    assert(serializer.result@[0] == with_minor[0]);
                    assert(refs_view(Seq::<Vec<u8>>::empty()) =~= Seq::<Seq<u8>>::empty());
                    if (*value) is Text {
                        let sv = (*value)->Text_0;
                        assert(find_ref(Seq::<Seq<u8>>::empty(), sv@) == -1);
                    }
                    if bin_value_enc(*value, Seq::<Seq<u8>>::empty()) is Some {
                        let pe = bin_value_enc(*value, Seq::<Seq<u8>>::empty())->0;
                        assert(serializer.result@ =~= seq![MINOR] + pe.0);
                    }
                }
                Ok(serializer.result)
            },
            Err(e) => Err(e),
        }
    }

    /// Serializes one value. The depth budget is spent one level per
    /// container element and restored on return.
    pub fn serialize_helper(&mut self, value: &Value) -> (r: Result<(), Error>)
        requires
            old(self).remaining_depth >= 1,
        ensures
            final(self).remaining_depth == old(self).remaining_depth,
            final(self).string_refs@.len() >= old(self).string_refs@.len(),
            old(self).result@.is_prefix_of(final(self).result@),
            r is Err ==> r == Err::<(), Error>(Error::RecursionLimit) || r == Err::<(), Error>(
                Error::CapacityOverflow,
            ) || r == Err::<(), Error>(Error::UnsupportedNaN),
            value matches Value::Number(b) ==> (r is Err <==> crate::double::f_is_nan(*b)) && (r
                is Err ==> r == Err::<(), Error>(Error::UnsupportedNaN)),
            value == Value::Null ==> r is Ok && final(self).result@ == old(self).result@ + seq![
                0u8,
            ],
            value matches Value::Bool(flag) ==> r is Ok && final(self).result@ == old(self).result@
                + seq![if *flag {
                96u8
            } else {
                104u8
            }],
            value matches Value::Number(b) ==> (r is Ok ==> final(self).result@ == old(
                self,
            ).result@ + number_encoding(*b)),
            value matches Value::Text(s) ==> (r is Ok ==> ({
                let prior = find_ref(refs_view(old(self).string_refs@), s@);
                &&& (prior >= 0 ==> final(self).result@ == old(self).result@ + ref_encoding(
                    (prior + 1) as nat,
                ))
                &&& (prior < 0 ==> final(self).result@ == old(self).result@ + str_encoding(s@))
            })),
            crate::value::nan_free(*value) ==> r != Err::<(), Error>(Error::UnsupportedNaN),
            crate::value::too_deep(*value, old(self).remaining_depth as nat)
                && crate::value::nan_free(*value) ==> r is Err,
            bin_value_enc(*value, refs_view(old(self).string_refs@)) matches Some(p) ==> (r is Ok
                ==> final(self).result@ == old(self).result@ + p.0 && refs_view(
                final(self).string_refs@,
            ) == p.1),
            fits(*value, old(self).remaining_depth as nat) && old(self).string_refs@.len()
                + ref_weight(*value, old(self).remaining_depth as nat) <= 0xFF_FFFE ==> r is Ok
                && final(self).string_refs@.len() <= old(self).string_refs@.len() + ref_weight(
                *value,
                old(self).remaining_depth as nat,
            ),
        decreases old(self).remaining_depth, 1int,
    {
        match value {
            Value::Null => {
                self.serialize_null();
                Ok(())
            },
            Value::Bool(b) => {
                if *b {
                    self.result.push(TypeTag::True.to_u8() * 8);
                } else {
                    self.result.push(TypeTag::False.to_u8() * 8);
                }
                proof {
                    assert(self.result@ =~= old(self).result@ + seq![if *b {
                        96u8
                    } else {
                        104u8
                    }]);
                }
                Ok(())
            },
            Value::Number(bits) => self.serialize_number(*bits),
            Value::Text(s) => {
                proof {
                    lemma_find_ref_first(refs_view(self.string_refs@), s@);
                }
                let res = self.serialize_string(s);
                proof {
                    assert(refs_view(old(self).string_refs@) + seq![s@] =~= refs_view(
                        old(self).string_refs@,
                    ).push(s@));
                }
                res
            },
            Value::List(items) => self.serialize_list(items),
            Value::Object(entries) => self.serialize_table(entries),
        }
    }

    /// Emits the null opcode.
    pub fn serialize_null(&mut self)
        ensures
            final(self).result@ == old(self).result@ + seq![(TypeTag::Null.to_u8_spec() * 8) as u8],
            final(self).remaining_depth == old(self).remaining_depth,
            final(self).string_refs == old(self).string_refs,
    {
        self.result.push(TypeTag::Null.to_u8() * 8);
    }

    /// Appends the low `len` bytes of `v`, big-endian.
    pub fn serialize_int(&mut self, v: u64, len: usize)
        requires
            1 <= len <= 8,
            len < 8 ==> v < pow2((8 * len) as nat),
        ensures
            final(self).result@ == old(self).result@ + be_bytes_of(v as nat, len as nat),
            final(self).remaining_depth == old(self).remaining_depth,
            final(self).string_refs == old(self).string_refs,
    {
        let ghost out0 = self.result@;
        let mut k: usize = 0;
        while k < len
            invariant
                1 <= len <= 8,
                k <= len,
                self.remaining_depth == old(self).remaining_depth,
                self.string_refs == old(self).string_refs,
                self.result@.len() == out0.len() + k,
                forall|i: int|
                    0 <= i < k ==> #[trigger] self.result@[out0.len() + i] == ((v as nat / pow2(
                        (8 * (len - 1 - i)) as nat,
                    )) % 256) as u8,
                forall|i: int| 0 <= i < out0.len() ==> self.result@[i] == out0[i],
            decreases len - k,
        {
            let shift: u64 = 8 * ((len - 1 - k) as u64);
            let byte = #[verifier::truncate] ((v >> shift) as u8);
            proof {
                vstd::bits::lemma_u64_shr_is_div(v, shift);
                assert(forall|x: u64| #[trigger] (x as u8) == (x % 256) as u8) by (bit_vector);
                assert((v >> shift) % 256 == (v >> shift) as nat % 256);
            }
            self.result.push(byte);
            k += 1;
        }
        proof {
            assert forall|i: int| 0 <= i < len implies be_bytes_of(v as nat, len as nat)[i]
                == self.result@[out0.len() + i] by {
                lemma_be_bytes_index(v as nat, len as nat, i);
            }
            lemma_be_bytes_len(v as nat, len as nat);
            assert(final(self).result@ =~= out0 + be_bytes_of(v as nat, len as nat));
        }
    }

    /// Emits a number in its narrowest form; NaN has no encoding.
    pub fn serialize_number(&mut self, bits: u64) -> (r: Result<(), Error>)
        ensures
            final(self).remaining_depth == old(self).remaining_depth,
            final(self).string_refs == old(self).string_refs,
            r is Err <==> crate::double::f_is_nan(bits),
            r is Err ==> r == Err::<(), Error>(Error::UnsupportedNaN) && final(self).result == old(
                self,
            ).result,
            r is Ok ==> final(self).result@ == old(self).result@ + number_encoding(bits),
    {
        let ghost out0 = self.result@;
        if crate::double::is_nan_bits(bits) {
            return Err(Error::UnsupportedNaN);
        }
        match crate::double::as_small_int(bits) {
            None => {
                proof {
                    lemma2_to64();
                    lemma2_to64_rest();
                }
                self.result.push(TypeTag::Float.to_u8() * 8);
                self.serialize_int(bits, 8);
                proof {
                    assert(final(self).result@ =~= out0 + number_encoding(bits));
                }
            },
            Some(n) => {
                if n >= 0 && n < 128 {
                    let b = #[verifier::truncate] ((n as u8));
                    proof {
                        assert(0 <= n < 128 ==> (n as u8) < 128 && ((n as u8) << 1u8) | 1 == (n * 2
                            + 1) as u8) by (bit_vector);
                    }
                    self.result.push(((b << 1) | 1));
                    proof {
                        assert(final(self).result@ =~= out0 + number_encoding(bits));
                    }
                } else if n > -4096 && n < 4096 {
                    let (mag, neg_bit) = if n < 0 {
                        ((-n) as u64, 8u64)
                    } else {
                        (n as u64, 0u64)
                    };
                    let packed: u64 = (mag << 4) | neg_bit | 4;
                    proof {
                        assert((mag < 4096 && (neg_bit == 0 || neg_bit == 8) ==> ((mag << 4)
                            | neg_bit | 4) == mag * 16 + neg_bit + 4 && ((mag << 4) | neg_bit | 4)
                            < 65536) && (forall|x: u64| #[trigger] (x as u8) == (x % 256) as u8)
                            && (forall|x: u64|
                            x < 65536 ==> #[trigger] ((x >> 8) as u8) == (x / 256) as u8))
                            by (bit_vector);
                    }
                    self.result.push(#[verifier::truncate] (packed as u8));
                    self.result.push(#[verifier::truncate] ((packed >> 8) as u8));
                    proof {
                        assert(final(self).result@ =~= out0 + number_encoding(bits));
                    }
                } else {
                    let (mag, neg_bit) = if n < 0 {
                        ((-n) as u64, 1u8)
                    } else {
                        (n as u64, 0u8)
                    };
                    let rb = required_bytes(mag);
                    proof {
                        lemma2_to64();
                        lemma2_to64_rest();
                    }
                    if rb == 2 {
                        self.result.push((TypeTag::Int16Pos.to_u8() + neg_bit) * 8);
                        self.serialize_int(mag, 2);
                    } else if rb == 3 {
                        self.result.push((TypeTag::Int24Pos.to_u8() + neg_bit) * 8);
                        self.serialize_int(mag, 3);
                    } else if rb == 4 {
                        self.result.push((TypeTag::Int32Pos.to_u8() + neg_bit) * 8);
                        self.serialize_int(mag, 4);
                    } else {
                        self.result.push((TypeTag::Int64Pos.to_u8() + neg_bit) * 8);
                        self.serialize_int(mag, 7);
                    }
                    proof {
                        assert(final(self).result@ =~= out0 + number_encoding(bits));
                    }
                }
            },
        }
        Ok(())
    }
    /// Emits a string: a back-reference when it was emitted before,
    /// its bytes under a sized opcode otherwise, remembering it when
    /// longer than two bytes. Fails when a length or a reference
    /// index needs more than three bytes.
    pub fn serialize_string(&mut self, s: &Vec<u8>) -> (r: Result<(), Error>)
        ensures
            final(self).remaining_depth == old(self).remaining_depth,
            final(self).string_refs@.len() >= old(self).string_refs@.len(),
            final(self).string_refs@.len() <= old(self).string_refs@.len() + 1,
            old(self).result@.is_prefix_of(final(self).result@),
            r is Err ==> r == Err::<(), Error>(Error::CapacityOverflow),
            ({
                let prior = find_ref(refs_view(old(self).string_refs@), s@);
                &&& (prior >= 0 && prior + 1 <= 0xFF_FFFF ==> r is Ok && final(self).result@ == old(
                    self,
                ).result@ + ref_encoding((prior + 1) as nat) && final(self).string_refs == old(
                    self,
                ).string_refs)
                &&& (prior >= 0 && prior + 1 > 0xFF_FFFF ==> r is Err)
                &&& (prior < 0 && s@.len() <= 0xFF_FFFF ==> r is Ok && final(self).result@ == old(
                    self,
                ).result@ + str_encoding(s@) && refs_view(final(self).string_refs@) == refs_view(
                    old(self).string_refs@,
                ) + (if s@.len() > 2 {
                    seq![s@]
                } else {
                    Seq::<Seq<u8>>::empty()
                }))
                &&& (prior < 0 && s@.len() > 0xFF_FFFF ==> r is Err)
            }),
    {
        let ghost refs0 = refs_view(self.string_refs@);
        let mut j: usize = 0;
        let mut prior_index: usize = 0;
        let mut prior_found = false;
        while j < self.string_refs.len() && !prior_found
            invariant
                refs0 == refs_view(self.string_refs@),
                *self == *old(self),
                j <= self.string_refs@.len(),
                !prior_found ==> forall|i: int| 0 <= i < j ==> refs0[i] != s@,
                prior_found ==> 0 <= prior_index < self.string_refs@.len() && refs0[prior_index as int]
                    == s@ && (forall|i: int| 0 <= i < prior_index ==> refs0[i] != s@),
            decreases self.string_refs@.len() - j + if prior_found {
                0int
            } else {
                1int
            },
        {
            if crate::value::bytes_eq(self.string_refs[j].as_slice(), s.as_slice()) {
                prior_index = j;
                prior_found = true;
            } else {
                j += 1;
            }
        }
        proof {
            lemma_find_ref_first(refs0, s@);
            if prior_found {
                assert(find_ref(refs0, s@) == prior_index);
            } else {
                assert(find_ref(refs0, s@) == -1);
            }
        }
        if prior_found {
            let index: u64 = prior_index as u64 + 1;
            let rb = required_bytes(index);
            proof {
                lemma2_to64();
                lemma2_to64_rest();
            }
            if rb == 1 {
                self.result.push(TypeTag::StrRef8.to_u8() * 8);
                self.serialize_int(index, 1);
            } else if rb == 2 {
                self.result.push(TypeTag::StrRef16.to_u8() * 8);
                self.serialize_int(index, 2);
            } else if rb == 3 {
                self.result.push(TypeTag::StrRef24.to_u8() * 8);
                self.serialize_int(index, 3);
            } else {
                return Err(Error::CapacityOverflow);
            }
            proof {
                assert(final(self).result@ =~= old(self).result@ + ref_encoding(
                    (prior_index + 1) as nat,
                ));
            }
            return Ok(());
        }
        let len = s.len();
        proof {
            lemma2_to64();
            lemma2_to64_rest();
        }
        if len < 16 {
            let header: u8 = 2 + (len as u8) * 16;
            self.result.push(header);
        } else {
            let len64 = len as u64;
            let rb = required_bytes(len64);
            if rb == 1 {
                self.result.push(TypeTag::Str8.to_u8() * 8);
                self.serialize_int(len64, 1);
            } else if rb == 2 {
                self.result.push(TypeTag::Str16.to_u8() * 8);
                self.serialize_int(len64, 2);
            } else if rb == 3 {
                self.result.push(TypeTag::Str24.to_u8() * 8);
                self.serialize_int(len64, 3);
            } else {
                return Err(Error::CapacityOverflow);
            }
        }
        if len > 2 {
            let copy = vstd::slice::slice_to_vec(s.as_slice());
            self.string_refs.push(copy);
            proof {
                assert(refs_view(self.string_refs@) =~= refs_view(old(self).string_refs@)
                    + seq![s@]);
            }
        }
        let ghost refs_mid = self.string_refs@;
        let ghost mid = self.result@;
        let mut k: usize = 0;
        while k < s.len()
            invariant
                k <= s@.len(),
                self.result@ == mid + s@.take(k as int),
                self.remaining_depth == old(self).remaining_depth,
                self.string_refs@ == refs_mid,
            decreases s@.len() - k,
        {
            self.result.push(s[k]);
            proof {
                assert(self.result@ =~= mid + s@.take(k + 1));
            }
            k += 1;
        }
        proof {
            assert(s@.take(s@.len() as int) =~= s@);
            assert(final(self).result@ =~= old(self).result@ + str_encoding(s@));
        }
        Ok(())
    }

    /// Emits a list: a sized array opcode, then the elements.
    #[verifier::rlimit(60)]
    pub fn serialize_list(&mut self, items: &Vec<Value>) -> (r: Result<(), Error>)
        requires
            old(self).remaining_depth >= 1,
        ensures
            final(self).remaining_depth == old(self).remaining_depth,
            final(self).string_refs@.len() >= old(self).string_refs@.len(),
            old(self).result@.is_prefix_of(final(self).result@),
            r is Err ==> r == Err::<(), Error>(Error::RecursionLimit) || r == Err::<(), Error>(
                Error::CapacityOverflow,
            ) || r == Err::<(), Error>(Error::UnsupportedNaN),
            crate::value::nan_free(Value::List(*items)) ==> r != Err::<(), Error>(
                Error::UnsupportedNaN,
            ),
            crate::value::too_deep(Value::List(*items), old(self).remaining_depth as nat)
                && crate::value::nan_free(Value::List(*items)) ==> r is Err,
            bin_value_enc(Value::List(*items), refs_view(old(self).string_refs@)) matches Some(p)
                ==> (r is Ok ==> final(self).result@ == old(self).result@ + p.0 && refs_view(
                final(self).string_refs@,
            ) == p.1),
            fits(Value::List(*items), old(self).remaining_depth as nat) && old(
                self,
            ).string_refs@.len() + ref_weight(
                Value::List(*items),
                old(self).remaining_depth as nat,
            ) <= 0xFF_FFFE ==> r is Ok && final(self).string_refs@.len() <= old(
                self,
            ).string_refs@.len() + ref_weight(
                Value::List(*items),
                old(self).remaining_depth as nat,
            ),
        decreases old(self).remaining_depth, 0int,
    {
        let len = items.len();
        proof {
            lemma2_to64();
            lemma2_to64_rest();
        }
        if len < 16 {
            proof {
                let l = len as u8;
                assert(l < 16 ==> ((2u8 << 2) | (l << 4) | 2) == (10 + 16 * l) as u8)
                    by (bit_vector);
            }
            let header: u8 = (EmbeddedTypeTag::Array.to_u8() << 2) | ((len as u8) << 4) | 2;
            self.result.push(header);
        } else {
            let len64 = len as u64;
            let rb = required_bytes(len64);
            if rb == 1 {
                self.result.push(TypeTag::Array8.to_u8() * 8);
                self.serialize_int(len64, 1);
            } else if rb == 2 {
                self.result.push(TypeTag::Array16.to_u8() * 8);
                self.serialize_int(len64, 2);
            } else if rb == 3 {
                self.result.push(TypeTag::Array24.to_u8() * 8);
                self.serialize_int(len64, 3);
            } else {
                return Err(Error::CapacityOverflow);
            }
        }
        let ghost rd0 = self.remaining_depth as nat;
        let ghost refs_start = self.string_refs@.len();
        let ghost full = ref_weight_seq(items@, (rd0 - 1) as nat);
        let ghost refs0 = refs_view(old(self).string_refs@);
        let ghost enc = bin_value_enc(Value::List(*items), refs0);
        proof {
            assert(items@.skip(0) =~= items@);
            assert(ref_weight(Value::List(*items), rd0) == full);
            if enc is Some {
                let pe = enc->0;
                assert(self.result@ =~= old(self).result@ + list_header(items@.len() as nat));
                let sp0 = bin_seq_enc(items@, refs0);
                assert(sp0 is Some);
                let ps = sp0->0;
                assert(pe.0 == list_header(items@.len() as nat) + ps.0);
                assert(self.result@ + ps.0 =~= old(self).result@ + pe.0);
            }
        }
        let mut k: usize = 0;
        while k < items.len()
            invariant
                self.remaining_depth == old(self).remaining_depth,
                rd0 == self.remaining_depth as nat,
                rd0 >= 1,
                full == ref_weight(Value::List(*items), rd0),
                refs_start == old(self).string_refs@.len(),
                k <= items@.len(),
                k > 0 ==> rd0 > 1,
                self.string_refs@.len() >= refs_start,
                old(self).result@.is_prefix_of(self.result@),
                fits(Value::List(*items), rd0) && refs_start + full <= 0xFF_FFFE ==> self.string_refs@.len()
                    + ref_weight_seq(items@.skip(k as int), (rd0 - 1) as nat) <= refs_start + full,
                crate::value::too_deep(Value::List(*items), rd0) && crate::value::nan_free(
                    Value::List(*items),
                ) ==> rd0 <= 1 || crate::value::too_deep_list_from(
                    items@,
                    (rd0 - 1) as nat,
                    k as int,
                ),
                refs0 == refs_view(old(self).string_refs@),
                enc == bin_value_enc(Value::List(*items), refs0),
                enc matches Some(full_enc) ==> (bin_seq_enc(
                    items@.skip(k as int),
                    refs_view(self.string_refs@),
                ) matches Some(sp) && self.result@ + sp.0 == old(self).result@ + full_enc.0
                    && sp.1 == full_enc.1),
            decreases items@.len() - k,
        {
            proof {
                if fits(Value::List(*items), rd0) && refs_start + full <= 0xFF_FFFE {
                    lemma_ref_weight_seq_skip(items@, (rd0 - 1) as nat, k as int);
                    assert(items@.len() > 0 && rd0 > 1);
                    assert(fits(items@[k as int], (rd0 - 1) as nat));
                    assert(self.string_refs@.len() + ref_weight(items@[k as int], (rd0 - 1) as nat)
                        <= 0xFF_FFFE);
                }
                if crate::value::nan_free(Value::List(*items)) {
                    crate::value::lemma_nan_free_list_child(*items, k as int);
                }
            }
            if self.remaining_depth == 1 {
                return Err(Error::RecursionLimit);
            }
            self.remaining_depth = self.remaining_depth - 1;
            let res = self.serialize_helper(&items[k]);
            self.remaining_depth = self.remaining_depth + 1;
            match res {
                Ok(()) => {},
                Err(e) => {
                    return Err(e);
                },
            }
            proof {
                if crate::value::too_deep(Value::List(*items), rd0) && crate::value::nan_free(
                    Value::List(*items),
                ) && rd0 > 1 {
                    let w = choose|i: int|
                        k <= i < items@.len() && crate::value::too_deep(
                            #[trigger] items@[i],
                            (rd0 - 1) as nat,
                        );
                    assert(w != k);
                    assert(crate::value::too_deep_list_from(items@, (rd0 - 1) as nat, k + 1));
                }
                if enc is Some {
                    assert(items@.skip(k as int).drop_first() =~= items@.skip(k + 1));
                    assert(items@.skip(k as int)[0] == items@[k as int]);
                }
            }
            k += 1;
        }
        proof {
            assert(items@.skip(items@.len() as int) =~= Seq::<Value>::empty());
            assert(ref_weight_seq(items@.skip(items@.len() as int), (rd0 - 1) as nat) == 0);
            if enc is Some {
                let pe = enc->0;
                assert(bin_seq_enc(
                    items@.skip(items@.len() as int),
                    refs_view(self.string_refs@),
                ) == Some((Seq::<u8>::empty(), refs_view(self.string_refs@))));
                assert(self.result@ =~= old(self).result@ + pe.0);
            }
        }
        Ok(())
    }

    /// Emits a table: its longest 1-based integer-keyed prefix as an
    /// array part, the remaining entries as a map part, under an
    /// array, map or mixed opcode as the two counts demand.
    pub fn serialize_table(&mut self, entries: &Vec<(Vec<u8>, Value)>) -> (r: Result<(), Error>)
        requires
            old(self).remaining_depth >= 1,
        ensures
            final(self).remaining_depth == old(self).remaining_depth,
            final(self).string_refs@.len() >= old(self).string_refs@.len(),
            old(self).result@.is_prefix_of(final(self).result@),
            r is Err ==> r == Err::<(), Error>(Error::RecursionLimit) || r == Err::<(), Error>(
                Error::CapacityOverflow,
            ) || r == Err::<(), Error>(Error::UnsupportedNaN),
            crate::value::nan_free(Value::Object(*entries)) ==> r != Err::<(), Error>(
                Error::UnsupportedNaN,
            ),
            crate::value::too_deep(Value::Object(*entries), old(self).remaining_depth as nat)
                && crate::value::nan_free(Value::Object(*entries)) ==> r is Err,
        decreases old(self).remaining_depth, 0int,
    {
        let ghost rd0 = self.remaining_depth as nat;
        let n = entries.len();
        let mut used: Vec<bool> = Vec::new();
        let mut i: usize = 0;
        while i < n
            invariant
                used@.len() == i,
                i <= n,
                forall|j2: int| 0 <= j2 < i ==> !(#[trigger] used@[j2]),
            decreases n - i,
        {
            used.push(false);
            i += 1;
        }
        // Probe for the keys "1", "2", ... in order; each one found
        // joins the array part.
        let mut array_pos: Vec<usize> = Vec::new();
        let mut next_index: u64 = 1;
        loop
            invariant
                used@.len() == n,
                n == entries@.len(),
                array_pos@.len() < n || array_pos@.len() == n,
                forall|t: int| 0 <= t < array_pos@.len() ==> #[trigger] array_pos@[t] < n,
                forall|j2: int|
                    0 <= j2 < n && #[trigger] used@[j2] ==> exists|tq: int|
                        0 <= tq < array_pos@.len() && #[trigger] array_pos@[tq] == j2,
                next_index >= 1,
            decreases n - array_pos@.len(), 1int,
        {
            if array_pos.len() == entries.len() {
                break ;
            }
            let mut key: Vec<u8> = Vec::new();
            push_decimal(&mut key, next_index);
            let mut j: usize = 0;
            let mut found = false;
            while j < n && !found
                invariant
                    used@.len() == n,
                    n == entries@.len(),
                    j <= n,
                    found ==> j < n,
                decreases n - j + if found {
                    0int
                } else {
                    1int
                },
            {
                if !used[j] && crate::value::bytes_eq(
                    entries[j].0.as_slice(),
                    key.as_slice(),
                ) {
                    found = true;
                } else {
                    j += 1;
                }
            }
            if !found {
                break ;
            }
            let ghost used_before = used@;
            let ghost pos_before = array_pos@;
            used[j] = true;
            array_pos.push(j);
            proof {
                assert forall|j2: int| 0 <= j2 < n && #[trigger] used@[j2] implies exists|tq: int|
                    0 <= tq < array_pos@.len() && #[trigger] array_pos@[tq] == j2 by {
                    if j2 == j {
                        assert(array_pos@[array_pos@.len() - 1] == j2);
                    } else {
                        assert(used_before[j2]);
                        let tq0 = choose|tq: int|
                            0 <= tq < pos_before.len() && #[trigger] pos_before[tq] == j2;
                        assert(array_pos@[tq0] == j2);
                    }
                }
            }
            if next_index == u64::MAX {
                break ;
            }
            next_index += 1;
        }
        let a = array_pos.len();
        let m = n - a;

        proof {
            lemma2_to64();
            lemma2_to64_rest();
        }
        if m == 0 {
            // Pure array (an empty table is an empty array too).
            if a < 16 {
                let header: u8 = (EmbeddedTypeTag::Array.to_u8() << 2) | ((a as u8) << 4) | 2;
                self.result.push(header);
            } else {
                let a64 = a as u64;
                let rb = required_bytes(a64);
                if rb == 1 {
                    self.result.push(TypeTag::Array8.to_u8() * 8);
                    self.serialize_int(a64, 1);
                } else if rb == 2 {
                    self.result.push(TypeTag::Array16.to_u8() * 8);
                    self.serialize_int(a64, 2);
                } else if rb == 3 {
                    self.result.push(TypeTag::Array24.to_u8() * 8);
                    self.serialize_int(a64, 3);
                } else {
                    return Err(Error::CapacityOverflow);
                }
            }
        } else if a == 0 {
            // Pure map.
            if m < 16 {
                let header: u8 = (EmbeddedTypeTag::Table.to_u8() << 2) | ((m as u8) << 4) | 2;
                self.result.push(header);
            } else {
                let m64 = m as u64;
                let rb = required_bytes(m64);
                if rb == 1 {
                    self.result.push(TypeTag::Map8.to_u8() * 8);
                    self.serialize_int(m64, 1);
                } else if rb == 2 {
                    self.result.push(TypeTag::Map16.to_u8() * 8);
                    self.serialize_int(m64, 2);
                } else if rb == 3 {
                    self.result.push(TypeTag::Map24.to_u8() * 8);
                    self.serialize_int(m64, 3);
                } else {
                    return Err(Error::CapacityOverflow);
                }
            }
        } else if a < 5 && m < 5 {
            // Embedded mixed: both stored counts are one less than true.
            let mm: u8 = (m - 1) as u8;
            let aa: u8 = (a - 1) as u8;
            proof {
                assert((mm << 2) | aa < 16) by (bit_vector)
                    requires
                        mm < 4,
                        aa < 4,
                ;
            }
            let packed: u8 = (mm << 2) | aa;
            let header: u8 = (EmbeddedTypeTag::Mixed.to_u8() << 2) | (packed << 4) | 2;
            self.result.push(header);
        } else {
            let bigger: u64 = if a > m {
                a as u64
            } else {
                m as u64
            };
            let rb = required_bytes(bigger);
            if rb == 1 {
                self.result.push(TypeTag::Mixed8.to_u8() * 8);
                self.serialize_int(a as u64, 1);
                self.serialize_int(m as u64, 1);
            } else if rb == 2 {
                self.result.push(TypeTag::Mixed16.to_u8() * 8);
                self.serialize_int(a as u64, 2);
                self.serialize_int(m as u64, 2);
            } else if rb == 3 {
                self.result.push(TypeTag::Mixed24.to_u8() * 8);
                self.serialize_int(a as u64, 3);
                self.serialize_int(m as u64, 3);
            } else {
                return Err(Error::CapacityOverflow);
            }
        }

        // Array part, in probed key order.
        let mut t: usize = 0;
        while t < array_pos.len()
            invariant
                self.remaining_depth == old(self).remaining_depth,
                self.remaining_depth >= 1,
                rd0 == self.remaining_depth as nat,
                self.string_refs@.len() >= old(self).string_refs@.len(),
                old(self).result@.is_prefix_of(self.result@),
                n == entries@.len(),
                forall|q: int| 0 <= q < array_pos@.len() ==> #[trigger] array_pos@[q] < n,
                t <= array_pos@.len(),
                t > 0 ==> rd0 > 1,
                crate::value::nan_free(Value::Object(*entries)) ==> forall|q: int|
                    0 <= q < t ==> !crate::value::too_deep(
                        entries@[(#[trigger] array_pos@[q]) as int].1,
                        (rd0 - 1) as nat,
                    ),
            decreases array_pos@.len() - t,
        {
            if self.remaining_depth == 1 {
                return Err(Error::RecursionLimit);
            }
            let pos = array_pos[t];
            proof {
                if crate::value::nan_free(Value::Object(*entries)) {
                    crate::value::lemma_nan_free_obj_child(*entries, pos as int);
                }
            }
            self.remaining_depth = self.remaining_depth - 1;
            let res = self.serialize_helper(&entries[pos].1);
            self.remaining_depth = self.remaining_depth + 1;
            match res {
                Ok(()) => {},
                Err(e) => {
                    return Err(e);
                },
            }
            t += 1;
        }

        // Map part: every entry the probing left, in insertion order.
        let mut j: usize = 0;
        while j < n
            invariant
                self.remaining_depth == old(self).remaining_depth,
                self.remaining_depth >= 1,
                rd0 == self.remaining_depth as nat,
                self.string_refs@.len() >= old(self).string_refs@.len(),
                old(self).result@.is_prefix_of(self.result@),
                n == entries@.len(),
                used@.len() == n,
                j <= n,
                forall|j2: int| 0 <= j2 < j && !(#[trigger] used@[j2]) ==> rd0 > 1,
                crate::value::nan_free(Value::Object(*entries)) ==> forall|j2: int|
                    0 <= j2 < j && !(#[trigger] used@[j2]) ==> !crate::value::too_deep(
                        entries@[j2].1,
                        (rd0 - 1) as nat,
                    ),
            decreases n - j,
        {
            if !used[j] {
                if self.remaining_depth == 1 {
                    return Err(Error::RecursionLimit);
                }
                proof {
                    if crate::value::nan_free(Value::Object(*entries)) {
                        crate::value::lemma_nan_free_obj_child(*entries, j as int);
                    }
                }
                self.remaining_depth = self.remaining_depth - 1;
                let res_key = self.serialize_string(&entries[j].0);
                let res = match res_key {
                    Ok(()) => self.serialize_helper(&entries[j].1),
                    Err(e) => Err(e),
                };
                self.remaining_depth = self.remaining_depth + 1;
                match res {
                    Ok(()) => {},
                    Err(e) => {
                        return Err(e);
                    },
                }
            }
            j += 1;
        }
        proof {
            if crate::value::too_deep(Value::Object(*entries), rd0) && crate::value::nan_free(
                Value::Object(*entries),
            ) {
                assert(entries@.len() > 0);
                if rd0 <= 1 {
                    if a > 0 {
                        assert(rd0 > 1);
                    } else {
                        assert(!used@[0]);
                        assert(rd0 > 1);
                    }
                } else {
                    assert(crate::value::too_deep_entries(entries@, (rd0 - 1) as nat));
                    let w = choose|i: int|
                        0 <= i < entries@.len() && crate::value::too_deep(
                            #[trigger] entries@[i].1,
                            (rd0 - 1) as nat,
                        );
                    if used@[w] {
                        let tq = choose|tq: int|
                            0 <= tq < array_pos@.len() && #[trigger] array_pos@[tq] == w;
                        assert(!crate::value::too_deep(
                            entries@[array_pos@[tq] as int].1,
                            (rd0 - 1) as nat,
                        ));
                    } else {
                        assert(!crate::value::too_deep(entries@[w].1, (rd0 - 1) as nat));
                    }
                }
                assert(false);
            }
        }
        Ok(())
    }
}

} // verus!
