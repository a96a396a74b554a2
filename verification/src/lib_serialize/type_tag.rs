//! The binary format's type tags: four two-bit embedded tags and
//! thirty-two five-bit full tags.
use vstd::prelude::*;

verus! {

/// The two-bit tag of an embedded opcode.
#[derive(Clone, Copy, Debug, PartialEq, Eq, Structural)]
pub enum EmbeddedTypeTag {
    Str,
    Table,
    Array,
    Mixed,
}

impl EmbeddedTypeTag {
    /// The tag a two-bit value selects.
    pub fn from_u8(v: u8) -> (r: Option<Self>)
        ensures
            v <= 3 <==> r is Some,
            r matches Some(t) ==> t.to_u8_spec() == v,
    {
        match v {
            0 => Some(EmbeddedTypeTag::Str),
            1 => Some(EmbeddedTypeTag::Table),
            2 => Some(EmbeddedTypeTag::Array),
            3 => Some(EmbeddedTypeTag::Mixed),
            _ => None,
        }
    }

    /// The two-bit value of a tag.
    pub open spec fn to_u8_spec(self) -> u8 {
        match self {
            EmbeddedTypeTag::Str => 0,
            EmbeddedTypeTag::Table => 1,
            EmbeddedTypeTag::Array => 2,
            EmbeddedTypeTag::Mixed => 3,
        }
    }

    /// The two-bit value of a tag.
    pub fn to_u8(self) -> (r: u8)
        ensures
            r == self.to_u8_spec(),
            r <= 3,
    {
        match self {
            EmbeddedTypeTag::Str => 0,
            EmbeddedTypeTag::Table => 1,
            EmbeddedTypeTag::Array => 2,
            EmbeddedTypeTag::Mixed => 3,
        }
    }
}

/// The five-bit tag of a full opcode.
#[derive(Clone, Copy, Debug, PartialEq, Eq, Structural)]
pub enum TypeTag {
    Null,
    Int16Pos,
    Int16Neg,
    Int24Pos,
    Int24Neg,
    Int32Pos,
    Int32Neg,
    Int64Pos,
    Int64Neg,
    Float,
    FloatStrPos,
    FloatStrNeg,
    True,
    False,
    Str8,
    Str16,
    Str24,
    Map8,
    Map16,
    Map24,
    Array8,
    Array16,
    Array24,
    Mixed8,
    Mixed16,
    Mixed24,
    StrRef8,
    StrRef16,
    StrRef24,
    MapRef8,
    MapRef16,
    MapRef24,
}

impl TypeTag {
    /// The tag a five-bit value selects.
    pub fn from_u8(v: u8) -> (r: Option<Self>)
        ensures
            v <= 31 <==> r is Some,
            r matches Some(t) ==> t.to_u8_spec() == v,
    {
        match v {
            0 => Some(TypeTag::Null),
            1 => Some(TypeTag::Int16Pos),
            2 => Some(TypeTag::Int16Neg),
            3 => Some(TypeTag::Int24Pos),
            4 => Some(TypeTag::Int24Neg),
            5 => Some(TypeTag::Int32Pos),
            6 => Some(TypeTag::Int32Neg),
            7 => Some(TypeTag::Int64Pos),
            8 => Some(TypeTag::Int64Neg),
            9 => Some(TypeTag::Float),
            10 => Some(TypeTag::FloatStrPos),
            11 => Some(TypeTag::FloatStrNeg),
            12 => Some(TypeTag::True),
            13 => Some(TypeTag::False),
            14 => Some(TypeTag::Str8),
            15 => Some(TypeTag::Str16),
            16 => Some(TypeTag::Str24),
            17 => Some(TypeTag::Map8),
            18 => Some(TypeTag::Map16),
            19 => Some(TypeTag::Map24),
            20 => Some(TypeTag::Array8),
            21 => Some(TypeTag::Array16),
            22 => Some(TypeTag::Array24),
            23 => Some(TypeTag::Mixed8),
            24 => Some(TypeTag::Mixed16),
            25 => Some(TypeTag::Mixed24),
            26 => Some(TypeTag::StrRef8),
            27 => Some(TypeTag::StrRef16),
            28 => Some(TypeTag::StrRef24),
            29 => Some(TypeTag::MapRef8),
            30 => Some(TypeTag::MapRef16),
            31 => Some(TypeTag::MapRef24),
            _ => None,
        }
    }

    /// The five-bit value of a tag.
    pub open spec fn to_u8_spec(self) -> u8 {
        match self {
            TypeTag::Null => 0,
            TypeTag::Int16Pos => 1,
            TypeTag::Int16Neg => 2,
            TypeTag::Int24Pos => 3,
            TypeTag::Int24Neg => 4,
            TypeTag::Int32Pos => 5,
            TypeTag::Int32Neg => 6,
            TypeTag::Int64Pos => 7,
            TypeTag::Int64Neg => 8,
            TypeTag::Float => 9,
            TypeTag::FloatStrPos => 10,
            TypeTag::FloatStrNeg => 11,
            TypeTag::True => 12,
            TypeTag::False => 13,
            TypeTag::Str8 => 14,
            TypeTag::Str16 => 15,
            TypeTag::Str24 => 16,
            TypeTag::Map8 => 17,
            TypeTag::Map16 => 18,
            TypeTag::Map24 => 19,
            TypeTag::Array8 => 20,
            TypeTag::Array16 => 21,
            TypeTag::Array24 => 22,
            TypeTag::Mixed8 => 23,
            TypeTag::Mixed16 => 24,
            TypeTag::Mixed24 => 25,
            TypeTag::StrRef8 => 26,
            TypeTag::StrRef16 => 27,
            TypeTag::StrRef24 => 28,
            TypeTag::MapRef8 => 29,
            TypeTag::MapRef16 => 30,
            TypeTag::MapRef24 => 31,
        }
    }

    /// The five-bit value of a tag.
    pub fn to_u8(self) -> (r: u8)
        ensures
            r == self.to_u8_spec(),
            r <= 31,
    {
        match self {
            TypeTag::Null => 0,
            TypeTag::Int16Pos => 1,
            TypeTag::Int16Neg => 2,
            TypeTag::Int24Pos => 3,
            TypeTag::Int24Neg => 4,
            TypeTag::Int32Pos => 5,
            TypeTag::Int32Neg => 6,
            TypeTag::Int64Pos => 7,
            TypeTag::Int64Neg => 8,
            TypeTag::Float => 9,
            TypeTag::FloatStrPos => 10,
            TypeTag::FloatStrNeg => 11,
            TypeTag::True => 12,
            TypeTag::False => 13,
            TypeTag::Str8 => 14,
            TypeTag::Str16 => 15,
            TypeTag::Str24 => 16,
            TypeTag::Map8 => 17,
            TypeTag::Map16 => 18,
            TypeTag::Map24 => 19,
            TypeTag::Array8 => 20,
            TypeTag::Array16 => 21,
            TypeTag::Array24 => 22,
            TypeTag::Mixed8 => 23,
            TypeTag::Mixed16 => 24,
            TypeTag::Mixed24 => 25,
            TypeTag::StrRef8 => 26,
            TypeTag::StrRef16 => 27,
            TypeTag::StrRef24 => 28,
            TypeTag::MapRef8 => 29,
            TypeTag::MapRef16 => 30,
            TypeTag::MapRef24 => 31,
        }
    }
}

} // verus!
