//! Tag classes and the primitive/constructed distinction of BER identifiers.

use vstd::prelude::*;

verus! {

/// Whether a tagged value carries raw octets or nested values.
#[derive(Clone, Copy, PartialEq, Eq, Debug, Structural)]
pub enum TagStructure {
    Primitive,
    Constructed,
}

impl TagStructure {
    /// The bit that stands for this structure in an identifier octet.
    pub open spec fn code(self) -> int {
        match self {
            TagStructure::Primitive => 0,
            TagStructure::Constructed => 1,
        }
    }

    /// Reads a structure bit; only `0` and `1` name a structure.
    pub fn from_u8(n: u8) -> (r: Option<TagStructure>)
        ensures
            n <= 1 <==> r.is_some(),
            r matches Some(s) ==> s.code() == n,
    {
        match n {
            0 => Some(TagStructure::Primitive),
            1 => Some(TagStructure::Constructed),
            _ => None,
        }
    }
}

/// Possible classes for a tag.
#[derive(Clone, Copy, PartialEq, Eq, Debug, Structural)]
pub enum TagClass {
    Universal,
    Application,
    Context,
    Private,
}

impl TagClass {
    /// The two class bits of an identifier octet, as a number.
    pub open spec fn code(self) -> int {
        match self {
            TagClass::Universal => 0,
            TagClass::Application => 1,
            TagClass::Context => 2,
            TagClass::Private => 3,
        }
    }

    /// Reads the class bits; only `0..=3` name a class.
    pub fn from_u8(n: u8) -> (r: Option<TagClass>)
        ensures
            n <= 3 <==> r.is_some(),
            r matches Some(c) ==> c.code() == n,
    {
        match n {
            0 => Some(TagClass::Universal),
            1 => Some(TagClass::Application),
            2 => Some(TagClass::Context),
            3 => Some(TagClass::Private),
            _ => None,
        }
    }
}

} // verus!
