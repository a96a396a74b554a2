//! The legacy text object serialization: ASCII with two-character
//! tags beginning `^`, an escape scheme for control bytes, and
//! decimal or mantissa/exponent number forms.
pub mod deserialization;
pub mod reader;
pub mod serialization;
