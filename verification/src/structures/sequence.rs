//! Values made of other values.

use vstd::prelude::*;
use crate::common::TagClass;
use crate::structure::{BerValue, StructureTag};
use crate::structures::{tag_into_structure, tag_structure, ASNTag, Tag};
use crate::universal;

verus! {

/// Sequence of values, in order.
#[derive(Debug, PartialEq)]
pub struct Sequence {
    pub id: u64,
    pub class: TagClass,
    pub inner: Vec<Tag>,
}

/// Set of values, carried in the order given.
#[derive(Debug, PartialEq)]
pub struct SetOf {
    pub id: u64,
    pub class: TagClass,
    pub inner: Vec<Tag>,
}

impl ASNTag for Sequence {
    open spec fn structure(&self) -> BerValue {
        tag_structure(Tag::Sequence(*self))
    }

    fn into_structure(self) -> (r: StructureTag) {
        tag_into_structure(Tag::Sequence(self))
    }
}

impl ASNTag for SetOf {
    open spec fn structure(&self) -> BerValue {
        tag_structure(Tag::SetOf(*self))
    }

    fn into_structure(self) -> (r: StructureTag) {
        tag_into_structure(Tag::SetOf(self))
    }
}

impl Default for Sequence {
    fn default() -> (r: Sequence)
        ensures
            r.id == universal::SEQUENCE,
            r.class == TagClass::Universal,
            r.inner@ == Seq::<Tag>::empty(),
    {
        Sequence { id: universal::SEQUENCE, class: TagClass::Universal, inner: Vec::new() }
    }
}

impl Default for SetOf {
    fn default() -> (r: SetOf)
        ensures
            r.id == universal::SET,
            r.class == TagClass::Universal,
            r.inner@ == Seq::<Tag>::empty(),
    {
        SetOf { id: universal::SET, class: TagClass::Universal, inner: Vec::new() }
    }
}

} // verus!
