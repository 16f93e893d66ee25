//! Octet strings.

use vstd::prelude::*;
use crate::common::TagClass;
use crate::structure::{BerValue, StructureTag};
use crate::structures::{tag_into_structure, tag_structure, ASNTag, Tag};
use crate::universal;

verus! {

/// String of octets.
#[derive(Debug, PartialEq)]
pub struct OctetString {
    pub id: u64,
    pub class: TagClass,
    pub inner: Vec<u8>,
}

impl ASNTag for OctetString {
    open spec fn structure(&self) -> BerValue {
        tag_structure(Tag::OctetString(*self))
    }

    fn into_structure(self) -> (r: StructureTag) {
        tag_into_structure(Tag::OctetString(self))
    }
}

impl Default for OctetString {
    fn default() -> (r: OctetString)
        ensures
            r.id == universal::OCTET_STRING,
            r.class == TagClass::Universal,
            r.inner@ == Seq::<u8>::empty(),
    {
        OctetString { id: universal::OCTET_STRING, class: TagClass::Universal, inner: Vec::new() }
    }
}

} // verus!
