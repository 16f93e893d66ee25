//! Truth values.

use vstd::prelude::*;
use crate::common::TagClass;
use crate::structure::{BerValue, StructureTag};
use crate::structures::{bool_octets, tag_into_structure, tag_structure, ASNTag, Tag};
use crate::universal;

verus! {

/// Boolean value.
#[derive(Clone, Copy, Debug, PartialEq)]
pub struct Boolean {
    pub id: u64,
    pub class: TagClass,
    pub inner: bool,
}

impl ASNTag for Boolean {
    open spec fn structure(&self) -> BerValue {
        tag_structure(Tag::Boolean(*self))
    }

    fn into_structure(self) -> (r: StructureTag) {
        tag_into_structure(Tag::Boolean(self))
    }
}

impl Default for Boolean {
    fn default() -> (r: Boolean)
        ensures
            r == (Boolean { id: universal::BOOLEAN, class: TagClass::Universal, inner: false }),
    {
        Boolean { id: universal::BOOLEAN, class: TagClass::Universal, inner: false }
    }
}

/// The truth value that content octets stand for: there must be exactly
/// one octet; zero is false, anything else is true.
pub open spec fn bool_of(octets: Seq<u8>) -> Option<bool> {
    if octets.len() == 1 {
        Some(octets[0] != 0)
    } else {
        None
    }
}

/// Reads content octets as a truth value.
pub fn decode_boolean(octets: &[u8]) -> (r: Option<bool>)
    ensures
        r == bool_of(octets@),
{
    if octets.len() == 1 {
        Some(octets[0] != 0)
    } else {
        None
    }
}

/// A truth value that was written is read back unchanged.
pub proof fn lemma_boolean_round_trip(b: bool)
    ensures
        bool_of(bool_octets(b)) == Some(b),
{
}

} // verus!
