//! The text serializer: `^1` header, tagged values, `^^` terminator.
//! Numbers prefer the shortest decimal that parses back exactly and
//! fall back to a mantissa/exponent pair; strings escape control
//! bytes, `^`, `~` and delete.
use crate::decimal::{dec_str, dec_str_signed, parses_as_i32, push_decimal, push_decimal_signed};
use crate::double::{
    f_exp, f_frac, f_is_finite, f_is_nan, f_neg, format_double_short, parse_double,
    parse_double_bits, shortest_double_str, FRAC_MASK, IMPLICIT_BIT,
};
use crate::value::{Error, Value};
use vstd::prelude::*;

verus! {

/// How one byte is written in a `^S` payload: control bytes move up
/// by 64 after a `~`; the record separator, caret, tilde and delete
/// have fixed escapes; everything else stands for itself.
pub open spec fn esc_byte(b: u8) -> Seq<u8> {
    if (b <= 0x1D) || (0x1F <= b <= 0x20) {
        seq![126u8, (b + 64) as u8]
    } else if b == 0x1E {
        seq![126u8, 0x7Au8]
    } else if b == 0x5E {
        seq![126u8, 0x7Du8]
    } else if b == 0x7E {
        seq![126u8, 0x7Cu8]
    } else if b == 0x7F {
        seq![126u8, 0x7Bu8]
    } else {
        seq![b]
    }
}

/// A whole string under the escape scheme.
pub open spec fn esc_str(s: Seq<u8>) -> Seq<u8>
    decreases s.len(),
{
    if s.len() == 0 {
        Seq::<u8>::empty()
    } else {
        esc_byte(s[0]) + esc_str(s.drop_first())
    }
}

/// The mantissa of the `^F` form: the fraction with the implicit bit
/// made explicit for normal doubles, doubled for subnormals.
pub open spec fn ace_mantissa(b: u64) -> u64 {
    if f_exp(b) == 0 {
        (f_frac(b) * 2) as u64
    } else {
        (f_frac(b) + IMPLICIT_BIT) as u64
    }
}

/// The exponent of the `^F` form.
pub open spec fn ace_exponent(b: u64) -> int {
    f_exp(b) - 1023 - 52
}

/// What `serialize_number` appends for a non-NaN double: `^N` and the
/// infinity spelling or the shortest round-tripping decimal, else
/// `^F<sign><mantissa>^f<exponent>`.
pub open spec fn ace_number_str(b: u64) -> Seq<u8> {
    if !f_is_finite(b) {
        if f_neg(b) {
            seq![94u8, 78u8, 45u8, 49u8, 46u8, 35u8, 73u8, 78u8, 70u8]  // ^N-1.#INF
    } else {
            seq![94u8, 78u8, 49u8, 46u8, 35u8, 73u8, 78u8, 70u8]  // ^N1.#INF
    }
    } else if parse_double(shortest_double_str(b)) == Some(b) {
        seq![94u8, 78u8] + shortest_double_str(b)
    } else {
        seq![94u8, 70u8] + (if f_neg(b) {
            seq![45u8]
        } else {
            Seq::<u8>::empty()
        }) + dec_str(ace_mantissa(b) as nat) + seq![94u8, 102u8] + dec_str_signed(ace_exponent(b))
    }
}

/// The full text form of a value: scalars by their tags, strings
/// escaped after `^S`, lists as tables keyed by their 1-based decimal
/// indices, objects as tables with `^N` before keys that read as
/// 32-bit integers and `^S` before the rest — the key bytes
/// themselves always raw.
pub open spec fn ace_value_str(v: Value) -> Seq<u8>
    decreases v,
{
    match v {
        Value::Null => seq![94u8, 90u8],
        Value::Bool(b) => seq![94u8, if b {
            66u8
        } else {
            98u8
        }],
        Value::Number(bits) => ace_number_str(bits),
        Value::Text(s) => seq![94u8, 83u8] + esc_str(s@),
        Value::List(items) => seq![94u8, 84u8] + ace_list_str(items@, 1) + seq![94u8, 116u8],
        Value::Object(entries) => seq![94u8, 84u8] + ace_obj_str(entries@) + seq![94u8, 116u8],
    }
}

/// The elements of a list, each preceded by `^N` and its index;
/// the first element here carries index `k`.
pub open spec fn ace_list_str(s: Seq<Value>, k: nat) -> Seq<u8>
    decreases s,
{
    if s.len() == 0 {
        Seq::<u8>::empty()
    } else {
        seq![94u8, 78u8] + crate::decimal::dec_str(k) + ace_value_str(s[0]) + ace_list_str(
            s.drop_first(),
            k + 1,
        )
    }
}

/// The entries of an object: the key's tag and raw bytes, then the
/// value.
pub open spec fn ace_obj_str(s: Seq<(Vec<u8>, Value)>) -> Seq<u8>
    decreases s,
{
    if s.len() == 0 {
        Seq::<u8>::empty()
    } else {
        seq![94u8, if crate::decimal::parse_i32_spec(s[0].0@) is Some {
            78u8
        } else {
            83u8
        }] + s[0].0@ + ace_value_str(s[0].1) + ace_obj_str(s.drop_first())
    }
}

/// Whether the text serializer is sure to accept a value, down to
/// `d` levels of nesting: no NaN anywhere, and non-empty containers
/// need one budget level for themselves and `d - 1` for each child.
pub open spec fn ace_ok(v: Value, d: nat) -> bool
    decreases v,
{
    match v {
        Value::Number(b) => !f_is_nan(b),
        Value::List(items) => items@.len() == 0 || (d > 1 && ace_list_ok(
            items@,
            (d - 1) as nat,
        )),
        Value::Object(entries) => entries@.len() == 0 || (d > 1 && ace_obj_ok(
            entries@,
            (d - 1) as nat,
        )),
        _ => true,
    }
}

/// Every element of the sequence is acceptable at depth `d`.
pub open spec fn ace_list_ok(s: Seq<Value>, d: nat) -> bool
    decreases s,
{
    forall|i: int| 0 <= i < s.len() ==> ace_ok(#[trigger] s[i], d)
}

/// Every entry value of the sequence is acceptable at depth `d`.
pub open spec fn ace_obj_ok(s: Seq<(Vec<u8>, Value)>, d: nat) -> bool
    decreases s,
{
    forall|i: int| 0 <= i < s.len() ==> ace_ok(#[trigger] s[i].1, d)
}

/// A non-empty list acceptable at depth `d` has acceptable elements
/// at depth `d - 1`.
proof fn lemma_ace_ok_list_child(items: Vec<Value>, d: nat, k: int)
    requires
        ace_ok(Value::List(items), d),
        0 <= k < items@.len(),
    ensures
        d > 1,
        ace_ok(items@[k], (d - 1) as nat),
{
    assert(items@.len() != 0);
    assert(ace_list_ok(items@, (d - 1) as nat));
}

/// A non-empty object acceptable at depth `d` has acceptable entry
/// values at depth `d - 1`.
proof fn lemma_ace_ok_obj_child(entries: Vec<(Vec<u8>, Value)>, d: nat, k: int)
    requires
        ace_ok(Value::Object(entries), d),
        0 <= k < entries@.len(),
    ensures
        d > 1,
        ace_ok(entries@[k].1, (d - 1) as nat),
{
    assert(entries@.len() != 0);
    assert(ace_obj_ok(entries@, (d - 1) as nat));
}

/// The old output is unchanged at the front of the new output.
pub open spec fn keeps_prefix(a: Seq<u8>, b: Seq<u8>) -> bool {
    b.len() >= a.len() && forall|i: int| 0 <= i < a.len() ==> a[i] == #[trigger] b[i]
}

pub struct Serializer {
    pub remaining_depth: usize,
    pub result: Vec<u8>,
}

impl Serializer {
    /// Serializes one value as a complete stream: the `^1` header,
    /// the value, and the `^^` terminator. Only NaN and nesting
    /// beyond 128 levels fail.
    pub fn serialize(value: &Value, approximate_len: Option<usize>) -> (r: Result<Vec<u8>, Error>)
        ensures
            r matches Ok(out) ==> out@ == seq![94u8, 49u8] + ace_value_str(*value) + seq![
                94u8,
                94u8,
            ],
            r is Err ==> r == Err::<Vec<u8>, Error>(Error::UnsupportedNaN) || r == Err::<
                Vec<u8>,
                Error,
            >(Error::RecursionLimit),
            value matches Value::Number(b) ==> (r is Err <==> f_is_nan(*b)) && (r is Err ==> r
                == Err::<Vec<u8>, Error>(Error::UnsupportedNaN)),
            ace_ok(*value, 129) ==> r is Ok,
            crate::value::nan_free(*value) ==> r != Err::<Vec<u8>, Error>(Error::UnsupportedNaN),
            crate::value::too_deep(*value, 129) && crate::value::nan_free(*value) ==> r == Err::<
                Vec<u8>,
                Error,
            >(Error::RecursionLimit),
    {
        let capacity: usize = match approximate_len {
            Some(n) => n,
            None => 1024,
        };
        let mut serializer = Serializer { remaining_depth: 129, result: Vec::with_capacity(capacity) };
        serializer.result.push(94);
        serializer.result.push(49);
        match serializer.serialize_helper(value) {
            Ok(()) => {},
            Err(e) => {
                return Err(e);
            },
        }
        serializer.result.push(94);
        serializer.result.push(94);
        proof {
            assert(serializer.result@ =~= seq![94u8, 49u8] + ace_value_str(*value) + seq![
                94u8,
                94u8,
            ]);
        }
        Ok(serializer.result)
    }

    /// Serializes one value. The depth budget is spent one level per
    /// container element and restored on return.
    pub fn serialize_helper(&mut self, value: &Value) -> (r: Result<(), Error>)
        requires
            old(self).remaining_depth >= 1,
        ensures
            final(self).remaining_depth == old(self).remaining_depth,
            keeps_prefix(old(self).result@, final(self).result@),
            r is Err ==> r == Err::<(), Error>(Error::UnsupportedNaN) || r == Err::<(), Error>(
                Error::RecursionLimit,
            ),
            value matches Value::Number(b) ==> (r is Err <==> f_is_nan(*b)) && (r is Err ==> r
                == Err::<(), Error>(Error::UnsupportedNaN)),
            ace_ok(*value, old(self).remaining_depth as nat) ==> r is Ok,
            r is Ok ==> final(self).result@ == old(self).result@ + ace_value_str(*value),
            crate::value::nan_free(*value) ==> r != Err::<(), Error>(Error::UnsupportedNaN),
            crate::value::too_deep(*value, old(self).remaining_depth as nat)
                && crate::value::nan_free(*value) ==> r == Err::<(), Error>(Error::RecursionLimit),
        decreases old(self).remaining_depth, 1int,
    {
        match value {
            Value::Null => {
                self.result.push(94);
                self.result.push(90);
                proof {
                    assert(self.result@ =~= old(self).result@ + ace_value_str(*value));
                }
                Ok(())
            },
            Value::Bool(b) => {
                self.result.push(94);
                self.result.push(if *b {
                    66
                } else {
                    98
                });
                proof {
                    assert(self.result@ =~= old(self).result@ + ace_value_str(*value));
                }
                Ok(())
            },
            Value::Number(bits) => self.serialize_number(*bits),
            Value::Text(s) => {
                self.result.push(94);
                self.result.push(83);
                self.serialize_string(s);
                proof {
                    assert(self.result@ =~= old(self).result@ + ace_value_str(*value));
                }
                Ok(())
            },
            Value::List(items) => {
                let res = self.serialize_list(items);
                proof {
                    if res is Ok {
                        assert(self.result@ =~= old(self).result@ + ace_value_str(*value));
                    }
                }
                res
            },
            Value::Object(entries) => {
                let res = self.serialize_object(entries);
                proof {
                    if res is Ok {
                        assert(self.result@ =~= old(self).result@ + ace_value_str(*value));
                    }
                }
                res
            },
        }
    }

    /// Emits `^N` or `^F` for a double; NaN has no text form.
    pub fn serialize_number(&mut self, bits: u64) -> (r: Result<(), Error>)
        ensures
            final(self).remaining_depth == old(self).remaining_depth,
            keeps_prefix(old(self).result@, final(self).result@),
            r is Err <==> f_is_nan(bits),
            r is Err ==> r == Err::<(), Error>(Error::UnsupportedNaN) && final(self).result == old(
                self,
            ).result,
            r is Ok ==> final(self).result@ == old(self).result@ + ace_number_str(bits),
    {
        let e: u64 = (bits >> 52) & 0x7ff;
        let f: u64 = bits & FRAC_MASK;
        let neg: bool = (bits >> 63) == 1;
        proof {
            assert(bits & 0xF_FFFF_FFFF_FFFFu64 < 0x10_0000_0000_0000u64) by (bit_vector);
            assert((bits >> 52) & 0x7ffu64 < 0x800) by (bit_vector);
        }
        if e == 0x7ff && f != 0 {
            return Err(Error::UnsupportedNaN);
        }
        if e == 0x7ff {
            // An infinity: the legacy spelling.
            self.result.push(94);
            self.result.push(78);
            if neg {
                self.result.push(45);
            }
            self.result.push(49);
            self.result.push(46);
            self.result.push(35);
            self.result.push(73);
            self.result.push(78);
            self.result.push(70);
            proof {
                assert(final(self).result@ =~= old(self).result@ + ace_number_str(bits));
            }
            return Ok(());
        }
        let text = format_double_short(bits);
        let round_trip = parse_double_bits(text.as_slice());
        let exact = match round_trip {
            Some(back) => back == bits,
            None => false,
        };
        if exact {
            self.result.push(94);
            self.result.push(78);
            let mut k: usize = 0;
            let ghost mid = self.result@;
            while k < text.len()
                invariant
                    k <= text@.len(),
                    self.result@ == mid + text@.take(k as int),
                    self.remaining_depth == old(self).remaining_depth,
                decreases text@.len() - k,
            {
                self.result.push(text[k]);
                proof {
                    assert(self.result@ =~= mid + text@.take(k + 1));
                }
                k += 1;
            }
            proof {
                assert(text@.take(text@.len() as int) =~= text@);
                assert(final(self).result@ =~= old(self).result@ + ace_number_str(bits));
            }
            Ok(())
        } else {
            // The decimal form loses precision: emit mantissa and
            // exponent instead.
            let mantissa: u64 = if e == 0 {
                proof {
                    assert(bits & 0xF_FFFF_FFFF_FFFFu64 <= 0xF_FFFF_FFFF_FFFFu64) by (bit_vector);
                }
                f * 2
            } else {
                f + IMPLICIT_BIT
            };
            let exponent: i64 = e as i64 - 1023 - 52;
            self.result.push(94);
            self.result.push(70);
            if neg {
                self.result.push(45);
            }
            push_decimal(&mut self.result, mantissa);
            self.result.push(94);
            self.result.push(102);
            push_decimal_signed(&mut self.result, exponent);
            proof {
                assert(final(self).result@ =~= old(self).result@ + ace_number_str(bits));
            }
            Ok(())
        }
    }

    /// Appends the escaped form of a string (after its `^S` tag).
    pub fn serialize_string(&mut self, value: &Vec<u8>)
        ensures
            final(self).remaining_depth == old(self).remaining_depth,
            final(self).result@ == old(self).result@ + esc_str(value@),
    {
        proof {
            assert(value@.skip(0) =~= value@);
        }
        let mut k: usize = 0;
        while k < value.len()
            invariant
                k <= value@.len(),
                self.remaining_depth == old(self).remaining_depth,
                self.result@ + esc_str(value@.skip(k as int)) == old(self).result@ + esc_str(
                    value@,
                ),
            decreases value@.len() - k,
        {
            let ghost before = self.result@;
            let b = value[k];
            if (b <= 0x1D) || (0x1F <= b && b <= 0x20) {
                self.result.push(126);
                self.result.push(b + 64);
            } else if b == 0x1E {
                self.result.push(126);
                self.result.push(0x7A);
            } else if b == 0x5E {
                self.result.push(126);
                self.result.push(0x7D);
            } else if b == 0x7E {
                self.result.push(126);
                self.result.push(0x7C);
            } else if b == 0x7F {
                self.result.push(126);
                self.result.push(0x7B);
            } else {
                self.result.push(b);
            }
            proof {
                assert(value@.skip(k as int).drop_first() =~= value@.skip(k + 1));
                assert(esc_str(value@.skip(k as int)) == esc_byte(b) + esc_str(value@.skip(k + 1)));
                assert(self.result@ + esc_str(value@.skip(k + 1)) =~= before + esc_str(
                    value@.skip(k as int),
                ));
            }
            k += 1;
        }
        proof {
            assert(esc_str(value@.skip(value@.len() as int)) == Seq::<u8>::empty());
            assert(final(self).result@ =~= old(self).result@ + esc_str(value@));
        }
    }

    /// Emits a list as a table: each element preceded by its 1-based
    /// decimal index under `^N`.
    pub fn serialize_list(&mut self, items: &Vec<Value>) -> (r: Result<(), Error>)
        requires
            old(self).remaining_depth >= 1,
        ensures
            final(self).remaining_depth == old(self).remaining_depth,
            keeps_prefix(old(self).result@, final(self).result@),
            r is Err ==> r == Err::<(), Error>(Error::UnsupportedNaN) || r == Err::<(), Error>(
                Error::RecursionLimit,
            ),
            ace_ok(Value::List(*items), old(self).remaining_depth as nat) ==> r is Ok,
            r is Ok ==> final(self).result@ == old(self).result@ + seq![94u8, 84u8] + ace_list_str(
                items@,
                1,
            ) + seq![94u8, 116u8],
            crate::value::nan_free(Value::List(*items)) ==> r != Err::<(), Error>(
                Error::UnsupportedNaN,
            ),
            crate::value::too_deep(Value::List(*items), old(self).remaining_depth as nat)
                && crate::value::nan_free(Value::List(*items)) ==> r == Err::<(), Error>(
                Error::RecursionLimit,
            ),
        decreases old(self).remaining_depth, 0int,
    {
        let ghost rd0 = self.remaining_depth as nat;
        self.result.push(94);
        self.result.push(84);
        let ghost base = self.result@;
        proof {
            assert(items@.skip(0) =~= items@);
        }
        let mut k: usize = 0;
        while k < items.len()
            invariant
                self.remaining_depth == old(self).remaining_depth,
                self.remaining_depth >= 1,
                rd0 == self.remaining_depth as nat,
                keeps_prefix(old(self).result@, self.result@),
                k <= items@.len(),
                k > 0 ==> rd0 > 1,
                self.result@ + ace_list_str(items@.skip(k as int), (k + 1) as nat) == base
                    + ace_list_str(items@, 1),
                crate::value::too_deep(Value::List(*items), rd0) && crate::value::nan_free(
                    Value::List(*items),
                ) ==> rd0 <= 1 || crate::value::too_deep_list_from(
                    items@,
                    (rd0 - 1) as nat,
                    k as int,
                ),
            decreases items@.len() - k,
        {
            proof {
                if ace_ok(Value::List(*items), rd0) {
                    lemma_ace_ok_list_child(*items, rd0, k as int);
                }
                if crate::value::nan_free(Value::List(*items)) {
                    crate::value::lemma_nan_free_list_child(*items, k as int);
                }
            }
            let ghost before = self.result@;
            if self.remaining_depth == 1 {
                return Err(Error::RecursionLimit);
            }
            self.result.push(94);
            self.result.push(78);
            push_decimal(&mut self.result, (k + 1) as u64);
            self.remaining_depth = self.remaining_depth - 1;
            let res = self.serialize_helper(&items[k]);
            self.remaining_depth = self.remaining_depth + 1;
            match res {
                Ok(()) => {},
                Err(e) => {
                    return Err(e);
                },
            }
            proof {
                assert(items@.skip(k as int).drop_first() =~= items@.skip(k + 1));
                assert(ace_list_str(items@.skip(k as int), (k + 1) as nat) == seq![94u8, 78u8]
                    + crate::decimal::dec_str((k + 1) as nat) + ace_value_str(items@[k as int])
                    + ace_list_str(items@.skip(k + 1), (k + 2) as nat));
                assert(self.result@ + ace_list_str(items@.skip(k + 1), (k + 2) as nat) =~= before
                    + ace_list_str(items@.skip(k as int), (k + 1) as nat));
                if crate::value::too_deep(Value::List(*items), rd0) && crate::value::nan_free(
                    Value::List(*items),
                ) && rd0 > 1 {
                    let w = choose|i: int|
                        k <= i < items@.len() && crate::value::too_deep(
                            #[trigger] items@[i],
                            (rd0 - 1) as nat,
                        );
                    assert(w != k);
                    assert(crate::value::too_deep_list_from(
                        items@,
                        (rd0 - 1) as nat,
                        k + 1,
                    ));
                }
            }
            k += 1;
        }
        proof {
            assert(items@.skip(items@.len() as int) =~= Seq::<Value>::empty());
            assert(self.result@ =~= base + ace_list_str(items@, 1));
        }
        self.result.push(94);
        self.result.push(116);
        proof {
            assert(self.result@ =~= old(self).result@ + seq![94u8, 84u8] + ace_list_str(items@, 1)
                + seq![94u8, 116u8]);
        }
        Ok(())
    }

    /// Emits an object as a table: each key under `^N` when it reads
    /// as a 32-bit integer and `^S` otherwise, with the raw key bytes
    /// either way, then the value.
    pub fn serialize_object(&mut self, entries: &Vec<(Vec<u8>, Value)>) -> (r: Result<(), Error>)
        requires
            old(self).remaining_depth >= 1,
        ensures
            final(self).remaining_depth == old(self).remaining_depth,
            keeps_prefix(old(self).result@, final(self).result@),
            r is Err ==> r == Err::<(), Error>(Error::UnsupportedNaN) || r == Err::<(), Error>(
                Error::RecursionLimit,
            ),
            ace_ok(Value::Object(*entries), old(self).remaining_depth as nat) ==> r is Ok,
            r is Ok ==> final(self).result@ == old(self).result@ + seq![94u8, 84u8] + ace_obj_str(
                entries@,
            ) + seq![94u8, 116u8],
            crate::value::nan_free(Value::Object(*entries)) ==> r != Err::<(), Error>(
                Error::UnsupportedNaN,
            ),
            crate::value::too_deep(Value::Object(*entries), old(self).remaining_depth as nat)
                && crate::value::nan_free(Value::Object(*entries)) ==> r == Err::<(), Error>(
                Error::RecursionLimit,
            ),
        decreases old(self).remaining_depth, 0int,
    {
        let ghost rd0 = self.remaining_depth as nat;
        self.result.push(94);
        self.result.push(84);
        let ghost base = self.result@;
        proof {
            assert(entries@.skip(0) =~= entries@);
        }
        let mut k: usize = 0;
        while k < entries.len()
            invariant
                self.remaining_depth == old(self).remaining_depth,
                self.remaining_depth >= 1,
                rd0 == self.remaining_depth as nat,
                keeps_prefix(old(self).result@, self.result@),
                k <= entries@.len(),
                k > 0 ==> rd0 > 1,
                self.result@ + ace_obj_str(entries@.skip(k as int)) == base + ace_obj_str(
                    entries@,
                ),
                crate::value::too_deep(Value::Object(*entries), rd0) && crate::value::nan_free(
                    Value::Object(*entries),
                ) ==> rd0 <= 1 || crate::value::too_deep_entries_from(
                    entries@,
                    (rd0 - 1) as nat,
                    k as int,
                ),
            decreases entries@.len() - k,
        {
            proof {
                if ace_ok(Value::Object(*entries), rd0) {
                    lemma_ace_ok_obj_child(*entries, rd0, k as int);
                }
                if crate::value::nan_free(Value::Object(*entries)) {
                    crate::value::lemma_nan_free_obj_child(*entries, k as int);
                }
            }
            let ghost before = self.result@;
            if self.remaining_depth == 1 {
                return Err(Error::RecursionLimit);
            }
            self.result.push(94);
            if parses_as_i32(entries[k].0.as_slice()) {
                self.result.push(78);
            } else {
                self.result.push(83);
            }
            let ghost key = entries@[k as int].0@;
            let ghost ebase = self.result@;
            let mut i: usize = 0;
            while i < entries[k].0.len()
                invariant
                    k < entries@.len(),
                    key == entries@[k as int].0@,
                    i <= key.len(),
                    self.remaining_depth == old(self).remaining_depth,
                    self.remaining_depth >= 1,
                    keeps_prefix(old(self).result@, self.result@),
                    self.result@ == ebase + key.take(i as int),
                decreases key.len() - i,
            {
                let b = entries[k].0[i];
                self.result.push(b);
                proof {
                    assert(self.result@ =~= ebase + key.take(i + 1));
                }
                i += 1;
            }
            proof {
                assert(key.take(key.len() as int) =~= key);
            }
            self.remaining_depth = self.remaining_depth - 1;
            let res = self.serialize_helper(&entries[k].1);
            self.remaining_depth = self.remaining_depth + 1;
            match res {
                Ok(()) => {},
                Err(e) => {
                    return Err(e);
                },
            }
            proof {
                assert(entries@.skip(k as int).drop_first() =~= entries@.skip(k + 1));
                assert(ace_obj_str(entries@.skip(k as int)) == seq![94u8, if
                    crate::decimal::parse_i32_spec(key) is Some {
                    78u8
                } else {
                    83u8
                }] + key + ace_value_str(entries@[k as int].1) + ace_obj_str(
                    entries@.skip(k + 1),
                ));
                assert(self.result@ + ace_obj_str(entries@.skip(k + 1)) =~= before + ace_obj_str(
                    entries@.skip(k as int),
                ));
                if crate::value::too_deep(Value::Object(*entries), rd0) && crate::value::nan_free(
                    Value::Object(*entries),
                ) && rd0 > 1 {
                    let w = choose|i: int|
                        k <= i < entries@.len() && crate::value::too_deep(
                            #[trigger] entries@[i].1,
                            (rd0 - 1) as nat,
                        );
                    assert(w != k);
                    assert(crate::value::too_deep_entries_from(
                        entries@,
                        (rd0 - 1) as nat,
                        k + 1,
                    ));
                }
            }
            k += 1;
        }
        proof {
            assert(entries@.skip(entries@.len() as int) =~= Seq::<(Vec<u8>, Value)>::empty());
            assert(self.result@ =~= base + ace_obj_str(entries@));
        }
        self.result.push(94);
        self.result.push(116);
        proof {
            assert(self.result@ =~= old(self).result@ + seq![94u8, 84u8] + ace_obj_str(entries@)
                + seq![94u8, 116u8]);
        }
        Ok(())
    }
}

} // verus!
