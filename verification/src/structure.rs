//! The generic tagged value that every BER element reduces to.

use vstd::prelude::*;
use crate::common::TagClass;

verus! {

/// Mathematical content of a tagged value: what the octets on the wire stand for.
pub struct BerValue {
    pub class: TagClass,
    pub id: u64,
    pub payload: BerPayload,
}

/// Mathematical payload: raw octets, or nested values in order.
pub enum BerPayload {
    Primitive(Seq<u8>),
    Constructed(Seq<BerValue>),
}

/// ASN.1 structure prepared for serialization.
#[derive(PartialEq, Debug, Eq)]
pub struct StructureTag {
    pub class: TagClass,
    pub id: u64,
    pub payload: PL,
}

/// Tagged value payload.
#[derive(PartialEq, Debug, Eq)]
pub enum PL {
    /// Primitive value.
    P(Vec<u8>),
    /// Constructed value.
    C(Vec<StructureTag>),
}

/// What a tagged value stands for.
pub open spec fn value_of(tag: StructureTag) -> BerValue
    decreases tag, 0nat,
{
    BerValue {
        class: tag.class,
        id: tag.id,
        payload: match tag.payload {
            PL::P(bytes) => BerPayload::Primitive(bytes@),
            PL::C(tags) => BerPayload::Constructed(values_of(tags@)),
        },
    }
}

/// What a run of tagged values stands for, in order.
pub open spec fn values_of(tags: Seq<StructureTag>) -> Seq<BerValue>
    decreases tags, 1nat,
{
    if tags.len() == 0 {
        Seq::empty()
    } else {
        values_of(tags.drop_last()).push(value_of(tags.last()))
    }
}

impl View for StructureTag {
    type V = BerValue;

    open spec fn view(&self) -> BerValue {
        value_of(*self)
    }
}

/// The views of a run of tagged values, in order.
pub open spec fn views(tags: Seq<StructureTag>) -> Seq<BerValue> {
    Seq::new(tags.len(), |i: int| tags[i]@)
}

/// `values_of` maps each value to its view.
proof fn lemma_values_of(tags: Seq<StructureTag>)
    ensures
        values_of(tags) == views(tags),
    decreases tags.len(),
{
    if tags.len() > 0 {
        lemma_values_of(tags.drop_last());
    }
    assert(values_of(tags) =~= views(tags));
}

/// The view of a constructed value lists the views of its nested values.
pub proof fn lemma_view_constructed(tag: StructureTag)
    ensures
        tag.payload matches PL::C(tags) ==> tag@.payload == BerPayload::Constructed(views(tags@)),
        tag.payload matches PL::P(bytes) ==> tag@.payload == BerPayload::Primitive(bytes@),
{
    if let PL::C(tags) = tag.payload {
        lemma_values_of(tags@);
    }
}

/// A nested value is structurally smaller than the value that holds it.
pub proof fn lemma_nested_decreases(tag: StructureTag, i: int)
    requires
        tag.payload is C,
        0 <= i < tag.payload->C_0@.len(),
    ensures
        decreases_to!(tag => tag.payload->C_0@[i]),
{
    let tags = tag.payload->C_0;
    assert(decreases_to!(tags => tags@));
    assert(decreases_to!(tags@ => tags@[i]));
}

/// Copies the octets at the positions from `from` up to `to`.
pub(crate) fn copy_range(s: &[u8], from: usize, to: usize) -> (out: Vec<u8>)
    requires
        from <= to <= s.len(),
    ensures
        out@ == s@.subrange(from as int, to as int),
{
    let mut out: Vec<u8> = Vec::new();
    let mut i: usize = from;
    while i < to
        invariant
            from <= i <= to <= s.len(),
            out@ == s@.subrange(from as int, i as int),
        decreases to - i,
    {
        out.push(s[i]);
        i += 1;
    }
    out
}

/// Copies a run of octets.
pub fn clone_octets(bytes: &Vec<u8>) -> (r: Vec<u8>)
    ensures
        r@ == bytes@,
{
    let mut out: Vec<u8> = Vec::new();
    let mut i: usize = 0;
    while i < bytes.len()
        invariant
            i <= bytes.len(),
            out@ == bytes@.subrange(0, i as int),
        decreases bytes.len() - i,
    {
        out.push(bytes[i]);
        i += 1;
    }
    out
}

impl Clone for StructureTag {
    fn clone(&self) -> (r: Self)
        ensures
            r@ == self@,
        decreases self,
    {
        let payload = match &self.payload {
            PL::P(bytes) => PL::P(clone_octets(bytes)),
            PL::C(tags) => {
                let mut out: Vec<StructureTag> = Vec::new();
                let mut i: usize = 0;
                while i < tags.len()
                    invariant
                        i <= tags.len(),
                        out@.len() == i,
                        forall|j: int| 0 <= j < i ==> out@[j]@ == tags@[j]@,
                        self.payload == PL::C(*tags),
                    decreases tags.len() - i,
                {
                    proof {
                        lemma_nested_decreases(*self, i as int);
                    }
                    let t = tags[i].clone();
                    out.push(t);
                    i += 1;
                }
                assert(views(out@) =~= views(tags@));
                PL::C(out)
            },
        };
        let r = StructureTag { class: self.class, id: self.id, payload };
        proof {
            lemma_view_constructed(r);
            lemma_view_constructed(*self);
        }
        r
    }
}

impl Clone for PL {
    fn clone(&self) -> (r: Self)
        ensures
            r is P <==> self is P,
            r matches PL::P(b) ==> self matches PL::P(a) && a@ == b@,
            r matches PL::C(b) ==> self matches PL::C(a) && views(a@) == views(b@),
    {
        match self {
            PL::P(bytes) => PL::P(clone_octets(bytes)),
            PL::C(tags) => {
                let mut out: Vec<StructureTag> = Vec::new();
                let mut i: usize = 0;
                while i < tags.len()
                    invariant
                        i <= tags.len(),
                        out@.len() == i,
                        forall|j: int| 0 <= j < i ==> out@[j]@ == tags@[j]@,
                    decreases tags.len() - i,
                {
                    out.push(tags[i].clone());
                    i += 1;
                }
                assert(views(out@) =~= views(tags@));
                PL::C(out)
            },
        }
    }
}

impl StructureTag {
    /// Keeps the value if its class is `class`.
    pub fn match_class(self, class: TagClass) -> (r: Option<Self>)
        ensures
            r == if self.class == class { Some(self) } else { None },
    {
        if self.class == class {
            Some(self)
        } else {
            None
        }
    }

    /// Keeps the value if its tag number is `id`.
    pub fn match_id(self, id: u64) -> (r: Option<Self>)
        ensures
            r == if self.id == id { Some(self) } else { None },
    {
        if self.id == id {
            Some(self)
        } else {
            None
        }
    }

    /// The nested values of a constructed value; nothing for a primitive one.
    pub fn expect_constructed(self) -> (r: Option<Vec<StructureTag>>)
        ensures
            r == match self.payload {
                PL::P(_) => None,
                PL::C(inner) => Some(inner),
            },
            r matches Some(inner) ==> self@.payload == BerPayload::Constructed(views(inner@)),
    {
        proof {
            lemma_view_constructed(self);
        }
        match self.payload {
            PL::P(_) => None,
            PL::C(i) => Some(i),
        }
    }

    /// The octets of a primitive value; nothing for a constructed one.
    pub fn expect_primitive(self) -> (r: Option<Vec<u8>>)
        ensures
            r == match self.payload {
                PL::P(bytes) => Some(bytes),
                PL::C(_) => None,
            },
            r matches Some(bytes) ==> self@.payload == BerPayload::Primitive(bytes@),
    {
        match self.payload {
            PL::P(i) => Some(i),
            PL::C(_) => None,
        }
    }
}

} // verus!
