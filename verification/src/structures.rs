//! Typed values, each of which reduces to a generic tagged value.

use vstd::prelude::*;
use crate::structure::{
    lemma_view_constructed, views, BerPayload, BerValue, StructureTag, PL,
};
use crate::structures::boolean::Boolean;
use crate::structures::explicit::ExplicitTag;
use crate::structures::integer::{int_octets, Enumerated, Integer};
use crate::structures::null::Null;
use crate::structures::octetstring::OctetString;
use crate::structures::sequence::{Sequence, SetOf};

pub mod boolean;
pub mod explicit;
pub mod integer;
pub mod null;
pub mod octetstring;
pub mod sequence;

verus! {

/// A typed value that can be turned into a generic tagged value.
pub trait ASNTag: Sized {
    /// The generic value that this typed value stands for.
    spec fn structure(&self) -> BerValue;

    /// Turns the typed value into its generic form.
    fn into_structure(self) -> (r: StructureTag)
        ensures
            r@ == self.structure(),
    ;
}

/// Any of the typed values, or a generic one.
#[derive(Debug, PartialEq)]
pub enum Tag {
    Boolean(Boolean),
    Enumerated(Enumerated),
    ExplicitTag(ExplicitTag),
    Integer(Integer),
    Null(Null),
    OctetString(OctetString),
    Sequence(Sequence),
    SetOf(SetOf),
    StructureTag(StructureTag),
}

/// The content octet of a boolean: all ones for true, zero for false.
pub open spec fn bool_octets(b: bool) -> Seq<u8> {
    if b {
        seq![0xffu8]
    } else {
        seq![0u8]
    }
}

/// The generic value that a typed value stands for.
pub open spec fn tag_structure(tag: Tag) -> BerValue
    decreases tag, 0nat,
{
    match tag {
        Tag::Boolean(t) => BerValue {
            class: t.class,
            id: t.id,
            payload: BerPayload::Primitive(bool_octets(t.inner)),
        },
        Tag::Enumerated(t) => BerValue {
            class: t.class,
            id: t.id,
            payload: BerPayload::Primitive(int_octets(t.inner as int)),
        },
        Tag::ExplicitTag(t) => BerValue {
            class: t.class,
            id: t.id,
            payload: BerPayload::Constructed(seq![tag_structure(*t.inner)]),
        },
        Tag::Integer(t) => BerValue {
            class: t.class,
            id: t.id,
            payload: BerPayload::Primitive(int_octets(t.inner as int)),
        },
        Tag::Null(t) => BerValue {
            class: t.class,
            id: t.id,
            payload: BerPayload::Primitive(Seq::empty()),
        },
        Tag::OctetString(t) => BerValue {
            class: t.class,
            id: t.id,
            payload: BerPayload::Primitive(t.inner@),
        },
        Tag::Sequence(t) => BerValue {
            class: t.class,
            id: t.id,
            payload: BerPayload::Constructed(tag_structures(t.inner@)),
        },
        Tag::SetOf(t) => BerValue {
            class: t.class,
            id: t.id,
            payload: BerPayload::Constructed(tag_structures(t.inner@)),
        },
        Tag::StructureTag(t) => t@,
    }
}

/// The generic values that a run of typed values stands for, in order.
pub open spec fn tag_structures(tags: Seq<Tag>) -> Seq<BerValue>
    decreases tags, 1nat,
{
    if tags.len() == 0 {
        Seq::empty()
    } else {
        tag_structures(tags.drop_last()).push(tag_structure(tags.last()))
    }
}

/// `tag_structures` maps each typed value to its generic value.
pub proof fn lemma_tag_structures(tags: Seq<Tag>)
    ensures
        tag_structures(tags).len() == tags.len(),
        forall|i: int| 0 <= i < tags.len() ==> tag_structures(tags)[i] == tag_structure(tags[i]),
    decreases tags.len(),
{
    if tags.len() > 0 {
        lemma_tag_structures(tags.drop_last());
    }
}

/// Reverses a run of values, moving each.
pub fn reversed<T>(items: Vec<T>) -> (out: Vec<T>)
    ensures
        out@ == items@.reverse(),
{
    let ghost given = items@;
    let mut rest = items;
    let mut out: Vec<T> = Vec::new();
    while rest.len() > 0
        invariant
            rest@ == given.subrange(0, rest@.len() as int),
            out@.len() + rest@.len() == given.len(),
            forall|i: int| 0 <= i < out@.len() ==> out@[i] == given[given.len() - 1 - i],
        decreases rest.len(),
    {
        let last = rest.pop().unwrap();
        out.push(last);
    }
    assert(out@ =~= given.reverse());
    out
}

/// Turns a run of typed values into generic ones, in order.
pub fn tags_into_structures(tags: Vec<Tag>) -> (out: Vec<StructureTag>)
    ensures
        views(out@) == tag_structures(tags@),
    decreases tags, 1nat,
{
    let ghost whole = tags;
    let ghost given = tags@;
    let mut rest = tags;
    let mut last_first: Vec<StructureTag> = Vec::new();
    while rest.len() > 0
        invariant
            whole == tags,
            given == whole@,
            rest@ == given.subrange(0, rest@.len() as int),
            last_first@.len() + rest@.len() == given.len(),
            forall|i: int|
                0 <= i < last_first@.len() ==> last_first@[i]@ == tag_structure(
                    given[given.len() - 1 - i],
                ),
        decreases rest.len(),
    {
        let ghost k = rest@.len() - 1;
        let last = rest.pop().unwrap();
        proof {
            assert(last == given[k]);
            assert(decreases_to!(whole => whole@));
            assert(decreases_to!(whole@ => whole@[k]));
        }
        let structure = tag_into_structure(last);
        last_first.push(structure);
    }
    let out = reversed(last_first);
    proof {
        lemma_tag_structures(given);
        assert(views(out@) =~= tag_structures(given));
    }
    out
}

/// Turns a typed value into its generic form.
pub fn tag_into_structure(tag: Tag) -> (r: StructureTag)
    ensures
        r@ == tag_structure(tag),
    decreases tag, 0nat,
{
    match tag {
        Tag::Boolean(t) => {
            let mut octets: Vec<u8> = Vec::new();
            octets.push(if t.inner { 0xff } else { 0 });
            let r = StructureTag { class: t.class, id: t.id, payload: PL::P(octets) };
            proof {
                lemma_view_constructed(r);
                assert(octets@ =~= bool_octets(t.inner));
            }
            r
        },
        Tag::Enumerated(t) => crate::structures::integer::i_e_into_structure(
            t.id,
            t.class,
            t.inner,
        ),
        Tag::ExplicitTag(t) => {
            let inner = tag_into_structure(*t.inner);
            let mut tags: Vec<StructureTag> = Vec::new();
            tags.push(inner);
            let r = StructureTag { class: t.class, id: t.id, payload: PL::C(tags) };
            proof {
                lemma_view_constructed(r);
                assert(views(tags@) =~= seq![inner@]);
            }
            r
        },
        Tag::Integer(t) => crate::structures::integer::i_e_into_structure(
            t.id,
            t.class,
            t.inner,
        ),
        Tag::Null(t) => {
            let r = StructureTag { class: t.class, id: t.id, payload: PL::P(Vec::new()) };
            proof {
                lemma_view_constructed(r);
            }
            r
        },
        Tag::OctetString(t) => {
            let r = StructureTag { class: t.class, id: t.id, payload: PL::P(t.inner) };
            proof {
                lemma_view_constructed(r);
            }
            r
        },
        Tag::Sequence(t) => {
            let tags = tags_into_structures(t.inner);
            let r = StructureTag { class: t.class, id: t.id, payload: PL::C(tags) };
            proof {
                lemma_view_constructed(r);
            }
            r
        },
        Tag::SetOf(t) => {
            let tags = tags_into_structures(t.inner);
            let r = StructureTag { class: t.class, id: t.id, payload: PL::C(tags) };
            proof {
                lemma_view_constructed(r);
            }
            r
        },
        Tag::StructureTag(t) => t,
    }
}

impl ASNTag for Tag {
    open spec fn structure(&self) -> BerValue {
        tag_structure(*self)
    }

    fn into_structure(self) -> (r: StructureTag) {
        tag_into_structure(self)
    }
}

} // verus!
