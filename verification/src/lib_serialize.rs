//! The compact binary object serialization: bit-packed opcodes with
//! embedded counts, big-endian payloads, and back-references for
//! repeated strings and tables. A stream starts with the one-byte
//! format minor version.
use vstd::prelude::*;

pub mod deserialization;
pub mod reader;
pub mod serialization;
pub mod type_tag;

verus! {

/// The minor version byte every binary stream starts with.
pub const MINOR: u8 = 1;

} // verus!
