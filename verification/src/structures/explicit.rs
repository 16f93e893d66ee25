//! A value wrapped under a tag of its own.

use vstd::prelude::*;
use crate::common::TagClass;
use crate::structure::{BerValue, StructureTag};
use crate::structures::{tag_into_structure, tag_structure, ASNTag, Tag};

verus! {

/// Explicitly tagged value: a constructed value that holds exactly one value.
#[derive(Debug, PartialEq)]
pub struct ExplicitTag {
    pub id: u64,
    pub class: TagClass,
    pub inner: Box<Tag>,
}

impl ASNTag for ExplicitTag {
    open spec fn structure(&self) -> BerValue {
        tag_structure(Tag::ExplicitTag(*self))
    }

    fn into_structure(self) -> (r: StructureTag) {
        tag_into_structure(Tag::ExplicitTag(self))
    }
}

} // verus!
