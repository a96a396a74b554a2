//! The generic value tree that both object serializations read and write,
//! and the error taxonomy shared by every layer of the codec.
//!
//! Numbers are IEEE-754 doubles carried as their 64-bit pattern; text is
//! carried byte-transparently. Object entries keep insertion order.
use vstd::prelude::*;

verus! {

/// A value of the data model: a tree of nulls, booleans, doubles
/// (held as their IEEE-754 bit pattern), byte-transparent strings,
/// lists, and string-keyed maps in insertion order.
#[derive(Debug, PartialEq)]
pub enum Value {
    Null,
    Bool(bool),
    /// IEEE-754 binary64 bit pattern of the number.
    Number(u64),
    /// UTF-8 text, byte-transparent.
    Text(Vec<u8>),
    List(Vec<Value>),
    /// Entries in insertion order; keys are unique.
    Object(Vec<(Vec<u8>, Value)>),
}

/// Everything that can go wrong in the codec; fatal to the current call.
#[derive(Debug, Clone, Copy, PartialEq, Eq, Structural)]
pub enum Error {
    InvalidBase64,
    CapacityOverflow,
    UnknownCodec,
    InsufficientData,
    UnsupportedCodeLength,
    CodecError,
    TooLarge,
    DecompressionError,
    InvalidHeader,
    InvalidTag,
    InvalidReference,
    InvalidEscape,
    MissingExponent,
    UnexpectedEOF,
    UnsupportedKey,
    UnsupportedNaN,
    RecursionLimit,
}

impl Error {
    /// A single-line diagnostic for the error, for callers that report it.
    pub fn message(&self) -> (r: &'static str)
        ensures
            self is InvalidBase64 ==> r@ == "failed to decode base64"@,
            self is CapacityOverflow ==> r@ == "cannot calculate capacity without overflowing"@,
            self is UnknownCodec ==> r@ == "Unknown compression codec"@,
            self is InsufficientData ==> r@ == "Insufficient data"@,
            self is UnsupportedCodeLength ==> r@ == "Unsupported code length"@,
            self is CodecError ==> r@ == "Decompression error"@,
            self is TooLarge ==> r@ == "Compressed data is too large"@,
            self is DecompressionError ==> r@ == "failed to decompress data"@,
            self is InvalidHeader ==> r@ == "Invalid serialized data"@,
            self is InvalidTag ==> r@ == "Invalid identifier"@,
            self is InvalidReference ==> r@ == "Invalid reference"@,
            self is InvalidEscape ==> r@ == "Invalid escape character"@,
            self is MissingExponent ==> r@ == "Missing exponent"@,
            self is UnexpectedEOF ==> r@ == "Unexpected EOF"@,
            self is UnsupportedKey ==> r@ == "Unsupported type for an object key"@,
            self is UnsupportedNaN ==> r@ == "NaN is not supported"@,
            self is RecursionLimit ==> r@ == "Recursion limit exceeded"@,
    {
        match self {
            Error::InvalidBase64 => "failed to decode base64",
            Error::CapacityOverflow => "cannot calculate capacity without overflowing",
            Error::UnknownCodec => "Unknown compression codec",
            Error::InsufficientData => "Insufficient data",
            Error::UnsupportedCodeLength => "Unsupported code length",
            Error::CodecError => "Decompression error",
            Error::TooLarge => "Compressed data is too large",
            Error::DecompressionError => "failed to decompress data",
            Error::InvalidHeader => "Invalid serialized data",
            Error::InvalidTag => "Invalid identifier",
            Error::InvalidReference => "Invalid reference",
            Error::InvalidEscape => "Invalid escape character",
            Error::MissingExponent => "Missing exponent",
            Error::UnexpectedEOF => "Unexpected EOF",
            Error::UnsupportedKey => "Unsupported type for an object key",
            Error::UnsupportedNaN => "NaN is not supported",
            Error::RecursionLimit => "Recursion limit exceeded",
        }
    }
}

/// Structural equality of two values, over the views of the byte
/// vectors they hold. A fresh copy cannot be `==` to its original in
/// specifications — equality on `Vec` is opaque there — so this is
/// the equality the codec's contracts use.
pub open spec fn value_eq(a: Value, b: Value) -> bool
    decreases a,
{
    match (a, b) {
        (Value::Null, Value::Null) => true,
        (Value::Bool(x), Value::Bool(y)) => x == y,
        (Value::Number(x), Value::Number(y)) => x == y,
        (Value::Text(s), Value::Text(t)) => s@ == t@,
        (Value::List(xs), Value::List(ys)) => xs@.len() == ys@.len() && forall|i: int|
            0 <= i < xs@.len() ==> value_eq(#[trigger] xs@[i], ys@[i]),
        (Value::Object(xs), Value::Object(ys)) => xs@.len() == ys@.len() && forall|i: int|
            0 <= i < xs@.len() ==> (#[trigger] xs@[i]).0@ == ys@[i].0@ && value_eq(
                xs@[i].1,
                ys@[i].1,
            ),
        _ => false,
    }
}

/// No NaN sits anywhere in the value; both serializers accept
/// exactly these numbers.
pub open spec fn nan_free(v: Value) -> bool
    decreases v,
{
    match v {
        Value::Number(b) => !crate::double::f_is_nan(b),
        Value::List(items) => nan_free_list(items@),
        Value::Object(entries) => nan_free_entries(entries@),
        _ => true,
    }
}

/// Every element is free of NaN.
pub open spec fn nan_free_list(s: Seq<Value>) -> bool
    decreases s,
{
    forall|i: int| 0 <= i < s.len() ==> nan_free(#[trigger] s[i])
}

/// Every entry value is free of NaN.
pub open spec fn nan_free_entries(s: Seq<(Vec<u8>, Value)>) -> bool
    decreases s,
{
    forall|i: int| 0 <= i < s.len() ==> nan_free(#[trigger] s[i].1)
}

/// The value nests deeper than the budget `d` admits: a non-empty
/// container spends one level on each element, so it overflows when
/// the budget is down to one, or when some child overflows the rest.
pub open spec fn too_deep(v: Value, d: nat) -> bool
    decreases v,
{
    match v {
        Value::List(items) => items@.len() > 0 && (d <= 1 || too_deep_list(
            items@,
            (d - 1) as nat,
        )),
        Value::Object(entries) => entries@.len() > 0 && (d <= 1 || too_deep_entries(
            entries@,
            (d - 1) as nat,
        )),
        _ => false,
    }
}

/// Some element overflows the budget.
pub open spec fn too_deep_list(s: Seq<Value>, d: nat) -> bool
    decreases s,
{
    exists|i: int| 0 <= i < s.len() && too_deep(#[trigger] s[i], d)
}

/// Some entry value overflows the budget.
pub open spec fn too_deep_entries(s: Seq<(Vec<u8>, Value)>, d: nat) -> bool
    decreases s,
{
    exists|i: int| 0 <= i < s.len() && too_deep(#[trigger] s[i].1, d)
}

/// Some element at or after position `k` overflows the budget.
pub open spec fn too_deep_list_from(s: Seq<Value>, d: nat, k: int) -> bool {
    exists|i: int| k <= i < s.len() && too_deep(#[trigger] s[i], d)
}

/// Some entry value at or after position `k` overflows the budget.
pub open spec fn too_deep_entries_from(s: Seq<(Vec<u8>, Value)>, d: nat, k: int) -> bool {
    exists|i: int| k <= i < s.len() && too_deep(#[trigger] s[i].1, d)
}

/// Elements of a NaN-free list are NaN-free.
pub proof fn lemma_nan_free_list_child(items: Vec<Value>, k: int)
    requires
        nan_free(Value::List(items)),
        0 <= k < items@.len(),
    ensures
        nan_free(items@[k]),
{
    assert(nan_free_list(items@));
}

/// Entry values of a NaN-free object are NaN-free.
pub proof fn lemma_nan_free_obj_child(entries: Vec<(Vec<u8>, Value)>, k: int)
    requires
        nan_free(Value::Object(entries)),
        0 <= k < entries@.len(),
    ensures
        nan_free(entries@[k].1),
{
    assert(nan_free_entries(entries@));
}

/// A copy of a value that shares no storage with the original, as
/// back-references are resolved by cloning. The copy is structurally
/// equal to the original.
#[verifier::loop_isolation(false)]
pub fn deep_copy(v: &Value) -> (r: Value)
    ensures
        value_eq(r, *v),
    decreases *v,
{
    match v {
        Value::Null => Value::Null,
        Value::Bool(b) => Value::Bool(*b),
        Value::Number(n) => Value::Number(*n),
        Value::Text(s) => Value::Text(vstd::slice::slice_to_vec(s.as_slice())),
        Value::List(items) => {
            let mut out: Vec<Value> = Vec::new();
            let mut k: usize = 0;
            while k < items.len()
                invariant
                    k <= items@.len(),
                    out@.len() == k,
                    forall|j: int| 0 <= j < k ==> value_eq(#[trigger] out@[j], items@[j]),
                decreases items@.len() - k,
            {
                proof {
                    vstd::std_specs::vec::axiom_vec_index_decreases(*items, k as int);
                }
                out.push(deep_copy(&items[k]));
                k += 1;
            }
            Value::List(out)
        },
        Value::Object(entries) => {
            let mut out: Vec<(Vec<u8>, Value)> = Vec::new();
            let mut k: usize = 0;
            while k < entries.len()
                invariant
                    k <= entries@.len(),
                    out@.len() == k,
                    forall|j: int|
                        0 <= j < k ==> (#[trigger] out@[j]).0@ == entries@[j].0@ && value_eq(
                            out@[j].1,
                            entries@[j].1,
                        ),
                decreases entries@.len() - k,
            {
                proof {
                    vstd::std_specs::vec::axiom_vec_index_decreases(*entries, k as int);
                }
                let key = vstd::slice::slice_to_vec(entries[k].0.as_slice());
                let val = deep_copy(&entries[k].1);
                out.push((key, val));
                k += 1;
            }
            Value::Object(out)
        },
    }
}

/// The view of an entry list: each pair as the key's bytes and the
/// value.
pub open spec fn entry_views(s: Seq<(Vec<u8>, Value)>) -> Seq<(Seq<u8>, Value)> {
    s.map_values(|p: (Vec<u8>, Value)| (p.0@, p.1))
}

/// Sets `key` to `val` in the entry list: an existing key keeps its
/// position and gets the new value, a new key is appended.
pub fn object_insert(entries: &mut Vec<(Vec<u8>, Value)>, key: Vec<u8>, val: Value)
    ensures
        (exists|j: int|
            0 <= j < old(entries)@.len() && (#[trigger] old(entries)@[j].0)@ == key@) ==> (exists|
            j: int,
        |
            0 <= j < old(entries)@.len() && (#[trigger] old(entries)@[j].0)@ == key@
                && entry_views(final(entries)@) == entry_views(old(entries)@).update(
                j,
                (key@, val),
            )),
        (forall|j: int|
            0 <= j < old(entries)@.len() ==> (#[trigger] old(entries)@[j].0)@ != key@)
            ==> entry_views(final(entries)@) == entry_views(old(entries)@).push((key@, val)),
{
    let mut j: usize = 0;
    while j < entries.len()
        invariant
            j <= entries@.len(),
            *entries == *old(entries),
            forall|q: int| 0 <= q < j ==> (#[trigger] entries@[q].0)@ != key@,
        decreases entries@.len() - j,
    {
        if bytes_eq(entries[j].0.as_slice(), key.as_slice()) {
            let existing_key = vstd::slice::slice_to_vec(entries[j].0.as_slice());
            let ghost jj = j as int;
            entries[j] = (existing_key, val);
            proof {
                assert(entry_views(final(entries)@) =~= entry_views(old(entries)@).update(
                    jj,
                    (key@, val),
                ));
            }
            return ;
        }
        j += 1;
    }
    entries.push((key, val));
    proof {
        assert(entry_views(final(entries)@) =~= entry_views(old(entries)@).push((key@, val)));
    }
}

/// What `String::from_utf8_lossy` makes of a byte sequence: invalid
/// UTF-8 sequences replaced by the replacement character, valid input
/// unchanged.
pub uninterp spec fn utf8_lossy(b: Seq<u8>) -> Seq<u8>;

/// Converts bytes to text, replacing invalid UTF-8 sequences.
///
/// Relies on `String::from_utf8_lossy`: valid UTF-8 — in particular
/// anything purely ASCII — comes back unchanged, and nothing else
/// grows shorter.
#[verifier::external_body]
pub(crate) fn utf8_lossy_bytes(b: &[u8]) -> (r: Vec<u8>)
    ensures
        r@ == utf8_lossy(b@),
        (forall|i: int| 0 <= i < b@.len() ==> b@[i] < 0x80) ==> r@ == b@,
{
    String::from_utf8_lossy(b).into_owned().into_bytes()
}

/// The text an object key is coerced to when it arrives as a number:
/// `NaN`, `inf` and `-inf` for the non-finite values, std's shortest
/// decimal for the rest.
pub open spec fn number_key_str(b: u64) -> Seq<u8> {
    if crate::double::f_is_nan(b) {
        seq![78u8, 97u8, 78u8]  // NaN
    } else if crate::double::f_is_inf(b) {
        if crate::double::f_neg(b) {
            seq![45u8, 105u8, 110u8, 102u8]  // -inf
        } else {
            seq![105u8, 110u8, 102u8]  // inf
        }
    } else {
        crate::double::display_double_str(b)
    }
}

/// Coerces a decoded value to an object key: text stays itself,
/// booleans become `true` or `false`, numbers their decimal text;
/// anything else cannot key an object.
pub fn coerce_key(v: &Value) -> (r: Result<Vec<u8>, Error>)
    ensures
        match v {
            Value::Text(s) => r matches Ok(k) && k@ == s@,
            Value::Bool(b) => r matches Ok(k) && k@ == (if *b {
                seq![116u8, 114u8, 117u8, 101u8]
            } else {
                seq![102u8, 97u8, 108u8, 115u8, 101u8]
            }),
            Value::Number(bits) => r matches Ok(k) && k@ == number_key_str(*bits),
            _ => r == Err::<Vec<u8>, Error>(Error::UnsupportedKey),
        },
{
    match v {
        Value::Text(s) => Ok(vstd::slice::slice_to_vec(s.as_slice())),
        Value::Bool(b) => {
            let mut k: Vec<u8> = Vec::new();
            if *b {
                k.push(116);
                k.push(114);
                k.push(117);
                k.push(101);
                proof {
                    assert(k@ =~= seq![116u8, 114u8, 117u8, 101u8]);
                }
            } else {
                k.push(102);
                k.push(97);
                k.push(108);
                k.push(115);
                k.push(101);
                proof {
                    assert(k@ =~= seq![102u8, 97u8, 108u8, 115u8, 101u8]);
                }
            }
            Ok(k)
        },
        Value::Number(bits) => {
            let e: u64 = (*bits >> 52) & 0x7ff;
            let f: u64 = *bits & 0xF_FFFF_FFFF_FFFF;
            let neg: bool = (*bits >> 63) == 1;
            if e == 0x7ff {
                let mut k: Vec<u8> = Vec::new();
                if f != 0 {
                    k.push(78);
                    k.push(97);
                    k.push(78);
                    proof {
                        assert(k@ =~= seq![78u8, 97u8, 78u8]);
                    }
                } else if neg {
                    k.push(45);
                    k.push(105);
                    k.push(110);
                    k.push(102);
                    proof {
                        assert(k@ =~= seq![45u8, 105u8, 110u8, 102u8]);
                    }
                } else {
                    k.push(105);
                    k.push(110);
                    k.push(102);
                    proof {
                        assert(k@ =~= seq![105u8, 110u8, 102u8]);
                    }
                }
                Ok(k)
            } else {
                Ok(crate::double::format_double_display(*bits))
            }
        },
        _ => Err(Error::UnsupportedKey),
    }
}

/// Byte-wise equality of two byte slices.
pub fn bytes_eq(a: &[u8], b: &[u8]) -> (r: bool)
    ensures
        r == (a@ == b@),
{
    if a.len() != b.len() {
        assert(a@.len() != b@.len());
        return false;
    }
    let mut i: usize = 0;
    while i < a.len()
        invariant
            i <= a@.len(),
            a@.len() == b@.len(),
            forall|j: int| 0 <= j < i ==> a@[j] == b@[j],
        decreases a@.len() - i,
    {
        if a[i] != b[i] {
            return false;
        }
        i += 1;
    }
    proof {
        assert(a@ =~= b@);
    }
    true
}

} // verus!
