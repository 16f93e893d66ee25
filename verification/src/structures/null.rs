//! The value without content.

use vstd::prelude::*;
use crate::common::TagClass;
use crate::structure::{BerValue, StructureTag};
use crate::structures::{tag_into_structure, tag_structure, ASNTag, Tag};
use crate::universal;

verus! {

/// Null value.
#[derive(Clone, Copy, Debug, PartialEq)]
pub struct Null {
    pub id: u64,
    pub class: TagClass,
    pub inner: (),
}

impl ASNTag for Null {
    open spec fn structure(&self) -> BerValue {
        tag_structure(Tag::Null(*self))
    }

    fn into_structure(self) -> (r: StructureTag) {
        tag_into_structure(Tag::Null(self))
    }
}

impl Default for Null {
    fn default() -> (r: Null)
        ensures
            r == (Null { id: universal::NULL, class: TagClass::Universal, inner: () }),
    {
        Null { id: universal::NULL, class: TagClass::Universal, inner: () }
    }
}

} // verus!
