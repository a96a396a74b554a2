//! The share-string base64 alphabet: 64 symbols in the order
//! `'a'..'z'`, `'A'..'Z'`, `'0'..'9'`, `'('`, `')'`, with no padding.
//! Bytes are consumed in triplets and emitted as quadruplets of
//! symbols, little-endian within each triplet.
use vstd::prelude::*;

pub mod decode;
pub mod encode;

verus! {

/// The symbol that stands for the six-bit value `n`.
pub open spec fn b64_symbol(n: u8) -> u8 {
    if n < 26 {
        (n + 97) as u8  // 'a'..'z'
    } else if n < 52 {
        (n - 26 + 65) as u8  // 'A'..'Z'
    } else if n < 62 {
        (n - 52 + 48) as u8  // '0'..'9'
    } else if n == 62 {
        40u8  // '('
    } else {
        41u8  // ')'
    }
}

/// Whether `c` is a symbol of the alphabet.
pub open spec fn b64_symbol_ok(c: u8) -> bool {
    (97 <= c <= 122) || (65 <= c <= 90) || (48 <= c <= 57) || c == 40 || c == 41
}

/// The six-bit value a symbol stands for.
pub open spec fn b64_symbol_val(c: u8) -> u8 {
    if 97 <= c <= 122 {
        (c - 97) as u8
    } else if 65 <= c <= 90 {
        (c - 65 + 26) as u8
    } else if 48 <= c <= 57 {
        (c - 48 + 52) as u8
    } else if c == 40 {
        62u8
    } else {
        63u8
    }
}

/// The six-bit value round-trips through its symbol.
pub proof fn lemma_symbol_round_trip(n: u8)
    requires
        n < 64,
    ensures
        b64_symbol_ok(b64_symbol(n)),
        b64_symbol_val(b64_symbol(n)) == n,
{
}

/// The symbol for the six-bit value `n`.
pub fn symbol_of(n: u8) -> (r: u8)
    requires
        n < 64,
    ensures
        r == b64_symbol(n),
{
    if n < 26 {
        n + 97
    } else if n < 52 {
        n - 26 + 65
    } else if n < 62 {
        n - 52 + 48
    } else if n == 62 {
        40
    } else {
        41
    }
}

/// The six-bit value of a symbol, or `None` for a byte outside the
/// alphabet.
pub fn value_of(c: u8) -> (r: Option<u8>)
    ensures
        r is Some <==> b64_symbol_ok(c),
        r is Some ==> r->0 == b64_symbol_val(c) && r->0 < 64,
{
    if 97 <= c && c <= 122 {
        Some(c - 97)
    } else if 65 <= c && c <= 90 {
        Some(c - 65 + 26)
    } else if 48 <= c && c <= 57 {
        Some(c - 48 + 52)
    } else if c == 40 {
        Some(62)
    } else if c == 41 {
        Some(63)
    } else {
        None
    }
}

} // verus!
