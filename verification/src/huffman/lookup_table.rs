//! Lowering the sorted code table into byte-indexed lookup tables:
//! one 256-entry table per 8 bits of code, children created on
//! demand, and short codes replicated across every index that ends
//! with them.
use crate::value::Error;
use vstd::prelude::*;

verus! {

pub struct TableEntry {
    pub code_length: u8,
    pub data: TableData,
}

pub enum TableData {
    Symbol(u8),
    Reference(Vec<TableEntry>),
}

/// Well-formedness of an entry, to `d` levels of children: the stored
/// bit count never exceeds eight, and every child table has exactly
/// 256 entries.
pub open spec fn entry_wf(e: TableEntry, d: nat) -> bool
    decreases d,
{
    e.code_length <= 8 && match e.data {
        TableData::Symbol(_) => true,
        TableData::Reference(v) => d > 0 && v@.len() == 256 && forall|i: int|
            0 <= i < v@.len() ==> entry_wf(#[trigger] v@[i], (d - 1) as nat),
    }
}

/// Well-formedness survives raising the level budget.
pub proof fn lemma_entry_wf_widen(e: TableEntry, d: nat, d2: nat)
    requires
        entry_wf(e, d),
        d <= d2,
    ensures
        entry_wf(e, d2),
    decreases d,
{
    match e.data {
        TableData::Symbol(_) => {},
        TableData::Reference(v) => {
            assert forall|i: int| 0 <= i < v@.len() implies entry_wf(
                #[trigger] v@[i],
                (d2 - 1) as nat,
            ) by {
                lemma_entry_wf_widen(v@[i], (d - 1) as nat, (d2 - 1) as nat);
            }
        },
    }
}

/// A table in which every entry is well formed to `d` levels.
pub open spec fn table_wf(t: Seq<TableEntry>, d: nat) -> bool {
    t.len() == 256 && forall|i: int| 0 <= i < t.len() ==> entry_wf(#[trigger] t[i], d)
}

/// Ordering of code triples `(code, length, symbol)`: by length, then
/// by code.
pub open spec fn code_le(a: (u32, u8, u8), b: (u32, u8, u8)) -> bool {
    a.1 < b.1 || (a.1 == b.1 && a.0 <= b.0)
}

/// Whether the triples are sorted by `(length, code)`.
pub open spec fn sorted_codes(s: Seq<(u32, u8, u8)>) -> bool {
    forall|i: int| 0 <= i < s.len() - 1 ==> code_le(#[trigger] s[i], s[i + 1])
}

/// Whether adjacent triples are ordered by `(length, code)`.
pub fn is_sorted(codes: &[(u32, u8, u8)]) -> (r: bool)
    ensures
        r == sorted_codes(codes@),
{
    if codes.len() == 0 {
        return true;
    }
    let mut i: usize = 0;
    while i < codes.len() - 1
        invariant
            codes@.len() >= 1,
            i < codes@.len(),
            forall|j: int| 0 <= j < i ==> code_le(#[trigger] codes@[j], codes@[j + 1]),
        decreases codes@.len() - i,
    {
        let a = codes[i];
        let b = codes[i + 1];
        if !(a.1 < b.1 || (a.1 == b.1 && a.0 <= b.0)) {
            return false;
        }
        i += 1;
    }
    true
}

/// A fresh 256-entry table of unused slots.
fn make_table() -> (r: Vec<TableEntry>)
    ensures
        table_wf(r@, 0),
        forall|i: int|
            0 <= i < r@.len() ==> (#[trigger] r@[i]).code_length == 0 && r@[i].data == (
            TableData::Symbol(0u8)),
{
    let mut t: Vec<TableEntry> = Vec::new();
    let mut i: usize = 0;
    while i < 256
        invariant
            t@.len() == i,
            i <= 256,
            forall|j: int|
                0 <= j < i ==> (#[trigger] t@[j]).code_length == 0 && t@[j].data == (
                TableData::Symbol(0u8)),
        decreases 256 - i,
    {
        t.push(TableEntry { code_length: 0, data: TableData::Symbol(0) });
        i += 1;
    }
    t
}

/// Inserts one code into the table, descending one level per eight
/// code bits and creating child tables on demand. Two codes sharing a
/// prefix make the table inconsistent.
fn insert_code(table: &mut Vec<TableEntry>, code: u32, code_len: u8, symbol: u8, d: u8) -> (r:
    Result<(), Error>)
    requires
        table_wf(old(table)@, d as nat),
        1 <= d,
        code_len <= 8 * d,
    ensures
        table_wf(final(table)@, d as nat),
        r is Err ==> r == Err::<(), Error>(Error::CodecError),
    decreases code_len,
{
    if code_len > 8 {
        let idx: usize = (code & 0xFF) as usize;
        proof {
            assert((code & 0xFF) < 256) by (bit_vector);
        }
        let needs_child = table[idx].code_length == 0;
        if needs_child {
            let child = make_table();
            proof {
                assert(table_wf(child@, (d - 1) as nat)) by {
                    assert forall|i: int| 0 <= i < child@.len() implies entry_wf(
                        #[trigger] child@[i],
                        (d - 1) as nat,
                    ) by {
                        lemma_entry_wf_widen(child@[i], 0, (d - 1) as nat);
                    }
                }
            }
            table[idx] = TableEntry { code_length: 8, data: TableData::Reference(child) };
        }
        let entry = &mut table[idx];
        match &mut entry.data {
            TableData::Reference(v) => {
                proof {
                    assert(code >> 8 <= 0xFF_FFFFu32) by (bit_vector);
                }
                let rr = insert_code(v, code >> 8, code_len - 8, symbol, d - 1);
                proof {
                    assert(entry_wf(*final(entry), d as nat));
                }
                rr
            },
            TableData::Symbol(_) => {
                // two values share a prefix
                Err(Error::CodecError)
            },
        }
    } else if code_len < 8 {
        let mut prefix: u32 = 0;
        proof {
            assert(code_len < 8 ==> 1u32 << ((8 - code_len) as u32) <= 256) by (bit_vector);
        }
        let bound: u32 = 1u32 << ((8 - code_len) as u32);
        while prefix < bound
            invariant
                table_wf(table@, d as nat),
                bound <= 256,
                code_len < 8,
            decreases bound - prefix,
        {
            let masked: u32 = ((prefix << (code_len as u32)) | (code & 0xFF)) & 0xFF;
            proof {
                assert(((prefix << (code_len as u32)) | (code & 0xFF)) & 0xFF < 256)
                    by (bit_vector);
            }
            let idx: usize = masked as usize;
            table[idx] = TableEntry { code_length: code_len, data: TableData::Symbol(symbol) };
            prefix += 1;
        }
        Ok(())
    } else {
        let idx: usize = (code & 0xFF) as usize;
        proof {
            assert((code & 0xFF) < 256) by (bit_vector);
        }
        table[idx] = TableEntry { code_length: 8, data: TableData::Symbol(symbol) };
        Ok(())
    }
}

/// Builds the lookup table for a sorted code table. Codes longer than
/// 32 bits never reach this point; a shared prefix is a fatal
/// inconsistency.
pub fn build_lookup_table(codes: &[(u32, u8, u8)]) -> (r: Result<Vec<TableEntry>, Error>)
    requires
        forall|i: int| 0 <= i < codes@.len() ==> (#[trigger] codes@[i]).1 <= 32,
    ensures
        r matches Ok(t) ==> table_wf(t@, 4),
        r is Err ==> r == Err::<Vec<TableEntry>, Error>(Error::CodecError),
{
    let mut lut = make_table();
    proof {
        assert forall|i: int| 0 <= i < lut@.len() implies entry_wf(#[trigger] lut@[i], 4nat) by {
            lemma_entry_wf_widen(lut@[i], 0, 4);
        }
    }
    let mut k: usize = 0;
    while k < codes.len()
        invariant
            table_wf(lut@, 4),
            forall|i: int| 0 <= i < codes@.len() ==> (#[trigger] codes@[i]).1 <= 32,
        decreases codes@.len() - k,
    {
        let (code, code_len, symbol) = codes[k];
        match insert_code(&mut lut, code, code_len, symbol, 4) {
            Ok(()) => {},
            Err(e) => {
                return Err(e);
            },
        }
        k += 1;
    }
    Ok(lut)
}

} // verus!
