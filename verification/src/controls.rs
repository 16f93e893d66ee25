//! Controls: parameters that ride along with a request or a response.

use vstd::prelude::*;
use vstd::utf8::encode_utf8;
use crate::common::TagClass;
use crate::filter::{leaf, node, octet_string};
use crate::structure::{
    lemma_view_constructed, views, BerPayload, BerValue, StructureTag, PL,
};
use crate::structures::boolean::{bool_of, decode_boolean};
use crate::structures::reversed;
use crate::text::{lemma_text_round_trip, string_octets, text_of, utf8_string};
use crate::universal;

verus! {

/// Generic control: an object identifier, a criticality and an optional value.
#[derive(Clone, Debug, PartialEq, Eq)]
pub struct RawControl {
    /// OID of the control.
    pub ctype: String,
    /// Criticality, has no meaning on response.
    pub crit: bool,
    /// Raw value of the control, if any.
    pub val: Option<Vec<u8>>,
}

/// Mathematical content of a control.
pub struct ControlModel {
    pub ctype: Seq<char>,
    pub crit: bool,
    pub val: Option<Seq<u8>>,
}

impl View for RawControl {
    type V = ControlModel;

    open spec fn view(&self) -> ControlModel {
        ControlModel {
            ctype: self.ctype@,
            crit: self.crit,
            val: match self.val {
                Some(v) => Some(v@),
                None => None,
            },
        }
    }
}

/// Conversion trait for the values of response controls.
pub trait ControlParser: Sized + View {
    /// The values that are a value of this control.
    spec fn accepts(val: Seq<u8>) -> bool;

    /// What a value stands for.
    spec fn parsed(val: Seq<u8>) -> Self::V;

    /// Convert the raw BER value into a control-specific struct.
    fn parse(val: &[u8]) -> (r: Self)
        requires
            Self::accepts(val@),
        ensures
            r@ == Self::parsed(val@),
    ;
}

impl RawControl {
    /// Parse the generic control into a control-specific struct.
    ///
    /// The value must be present, and one that the control accepts.
    pub fn parse<T: ControlParser>(&self) -> (r: T)
        requires
            self.val.is_some(),
            T::accepts(self.val.unwrap()@),
        ensures
            r@ == T::parsed(self.val.unwrap()@),
    {
        T::parse(self.val.as_ref().unwrap().as_slice())
    }
}

/// The contents of each control.
pub open spec fn control_views(controls: Seq<RawControl>) -> Seq<ControlModel> {
    Seq::new(controls.len(), |i: int| controls[i]@)
}

/// A boolean of the universal class that is true.
pub open spec fn true_value() -> BerValue {
    leaf(TagClass::Universal, universal::BOOLEAN, seq![0xffu8])
}

/// The sequence that a control is written as: its type, its criticality if
/// it is critical, and its value if it has one.
pub open spec fn control_value(c: ControlModel) -> BerValue {
    let crit_part = if c.crit {
        seq![true_value()]
    } else {
        Seq::empty()
    };
    let val_part = match c.val {
        Some(v) => seq![octet_string(v)],
        None => Seq::empty(),
    };
    node(
        TagClass::Universal,
        universal::SEQUENCE,
        seq![octet_string(encode_utf8(c.ctype))] + crit_part + val_part,
    )
}

/// The value under the context tag 0 that carries the controls of a message.
pub open spec fn controls_value(controls: Seq<ControlModel>) -> BerValue {
    node(TagClass::Context, 0, Seq::new(controls.len(), |i: int| control_value(controls[i])))
}

/// Whether a value is an octet string of the universal class.
pub open spec fn is_octet_string(v: BerValue) -> bool {
    v.class == TagClass::Universal && v.id == universal::OCTET_STRING && v.payload is Primitive
}

/// Whether a value is a boolean of the universal class: one octet.
pub open spec fn is_boolean(v: BerValue) -> bool {
    v.class == TagClass::Universal && v.id == universal::BOOLEAN && v.payload is Primitive
        && bool_of(v.payload->Primitive_0).is_some()
}

/// The control that a value stands for, if it has the shape of a control.
/// A boolean is true if its octet is not zero.
pub open spec fn control_of(v: BerValue) -> Option<ControlModel> {
    if v.payload is Constructed {
        let parts = v.payload->Constructed_0;
        if 1 <= parts.len() <= 3 && is_octet_string(parts[0]) && text_of(
            parts[0].payload->Primitive_0,
        ).is_some() {
            let ctype = text_of(parts[0].payload->Primitive_0).unwrap();
            if parts.len() == 1 {
                Some(ControlModel { ctype, crit: false, val: None })
            } else if parts.len() == 2 && is_boolean(parts[1]) {
                Some(ControlModel { ctype, crit: parts[1].payload->Primitive_0[0] != 0, val: None })
            } else if parts.len() == 2 && is_octet_string(parts[1]) {
                Some(ControlModel { ctype, crit: false, val: Some(parts[1].payload->Primitive_0) })
            } else if parts.len() == 3 && is_boolean(parts[1]) && is_octet_string(parts[2]) {
                Some(
                    ControlModel {
                        ctype,
                        crit: parts[1].payload->Primitive_0[0] != 0,
                        val: Some(parts[2].payload->Primitive_0),
                    },
                )
            } else {
                None
            }
        } else {
            None
        }
    } else {
        None
    }
}

/// The controls that the values stand for, if each has the shape of a control.
pub open spec fn controls_of(values: Seq<BerValue>) -> Option<Seq<ControlModel>> {
    if forall|i: int| 0 <= i < values.len() ==> control_of(#[trigger] values[i]).is_some() {
        Some(Seq::new(values.len(), |i: int| control_of(values[i]).unwrap()))
    } else {
        None
    }
}

/// A control that was written is read back unchanged.
pub proof fn lemma_control_round_trip(c: ControlModel)
    ensures
        control_of(control_value(c)) == Some(c),
{
    lemma_text_round_trip(c.ctype);
    let parts = control_value(c).payload->Constructed_0;
    assert(parts[0] == octet_string(encode_utf8(c.ctype)));
    if c.crit {
        assert(parts[1] == true_value());
        if c.val.is_some() {
            assert(parts[2] == octet_string(c.val.unwrap()));
        }
    } else if c.val.is_some() {
        assert(parts[1] == octet_string(c.val.unwrap()));
    }
}

/// The controls that were written into a message are read back unchanged.
pub proof fn lemma_controls_round_trip(controls: Seq<ControlModel>)
    ensures
        controls_of(controls_value(controls).payload->Constructed_0) == Some(controls),
{
    let values = controls_value(controls).payload->Constructed_0;
    assert forall|i: int| 0 <= i < values.len() implies control_of(#[trigger] values[i])
        == Some(controls[i]) by {
        lemma_control_round_trip(controls[i]);
    }
    assert(controls_of(values).unwrap() =~= controls);
}

fn universal_octets(octets: Vec<u8>) -> (r: StructureTag)
    ensures
        r@ == octet_string(octets@),
{
    let r = StructureTag {
        class: TagClass::Universal,
        id: universal::OCTET_STRING,
        payload: PL::P(octets),
    };
    proof {
        lemma_view_constructed(r);
    }
    r
}

/// Builds the sequence that carries one control.
pub fn build_tag(rc: RawControl) -> (r: StructureTag)
    ensures
        r@ == control_value(rc@),
{
    let mut parts: Vec<StructureTag> = Vec::new();
    parts.push(universal_octets(string_octets(rc.ctype.as_str())));
    if rc.crit {
        let mut octet: Vec<u8> = Vec::new();
        octet.push(0xff);
        let truth = StructureTag {
            class: TagClass::Universal,
            id: universal::BOOLEAN,
            payload: PL::P(octet),
        };
        proof {
            lemma_view_constructed(truth);
            assert(octet@ =~= seq![0xffu8]);
        }
        parts.push(truth);
    }
    match rc.val {
        Some(v) => {
            parts.push(universal_octets(v));
        },
        None => {},
    }
    let r = StructureTag {
        class: TagClass::Universal,
        id: universal::SEQUENCE,
        payload: PL::C(parts),
    };
    proof {
        lemma_view_constructed(r);
        assert(views(parts@) =~= control_value(rc@).payload->Constructed_0);
    }
    r
}

/// Builds the value under the context tag 0 that carries the controls of a message.
pub fn build_controls(controls: Vec<RawControl>) -> (r: StructureTag)
    ensures
        r@ == controls_value(control_views(controls@)),
{
    let ghost models = control_views(controls@);
    let count = controls.len();
    let mut last_first = reversed(controls);
    let mut parts: Vec<StructureTag> = Vec::new();
    while last_first.len() > 0
        invariant
            count == models.len(),
            parts@.len() + last_first@.len() == count,
            forall|k: int|
                0 <= k < last_first@.len() ==> (#[trigger] last_first@[k])@ == models[count - 1
                    - k],
            forall|k: int| 0 <= k < parts@.len() ==> (#[trigger] parts@[k])@ == control_value(
                models[k],
            ),
        decreases last_first.len(),
    {
        let control = last_first.pop().unwrap();
        parts.push(build_tag(control));
    }
    let r = StructureTag { class: TagClass::Context, id: 0, payload: PL::C(parts) };
    proof {
        lemma_view_constructed(r);
        assert(views(parts@) =~= controls_value(models).payload->Constructed_0);
    }
    r
}

fn octet_string_content(tag: StructureTag) -> (r: Option<Vec<u8>>)
    ensures
        r.is_some() == is_octet_string(tag@),
        r matches Some(octets) ==> tag@.payload == BerPayload::Primitive(octets@),
{
    proof {
        lemma_view_constructed(tag);
    }
    if tag.class == TagClass::Universal && tag.id == universal::OCTET_STRING {
        tag.expect_primitive()
    } else {
        None
    }
}

fn boolean_content(tag: &StructureTag) -> (r: Option<bool>)
    ensures
        r.is_some() == is_boolean(tag@),
        r matches Some(b) ==> b == (tag@.payload->Primitive_0[0] != 0),
{
    proof {
        lemma_view_constructed(*tag);
    }
    if tag.class == TagClass::Universal && tag.id == universal::BOOLEAN {
        match &tag.payload {
            PL::P(octets) => decode_boolean(octets.as_slice()),
            PL::C(_) => None,
        }
    } else {
        None
    }
}

/// Reads one control from the sequence that carries it.
pub fn parse_control(tag: StructureTag) -> (r: Option<RawControl>)
    ensures
        match control_of(tag@) {
            Some(c) => r matches Some(rc) && rc@ == c,
            None => r.is_none(),
        },
{
    let ghost value = tag@;
    let parts = match tag.expect_constructed() {
        Some(parts) => parts,
        None => {
            return None;
        },
    };
    let count = parts.len();
    if count < 1 || count > 3 {
        return None;
    }
    let ghost models = views(parts@);
    assert(value.payload == BerPayload::Constructed(models));
    let mut last_first = reversed(parts);
    let first = last_first.pop().unwrap();
    assert(first@ == models[0]);
    let ctype = match octet_string_content(first) {
        Some(octets) => match utf8_string(octets) {
            Some(text) => text,
            None => {
                return None;
            },
        },
        None => {
            return None;
        },
    };
    if count == 1 {
        return Some(RawControl { ctype, crit: false, val: None });
    }
    let second = last_first.pop().unwrap();
    assert(second@ == models[1]);
    match boolean_content(&second) {
        Some(crit) => {
            if count == 2 {
                Some(RawControl { ctype, crit, val: None })
            } else {
                let third = last_first.pop().unwrap();
                assert(third@ == models[2]);
                match octet_string_content(third) {
                    Some(v) => Some(RawControl { ctype, crit, val: Some(v) }),
                    None => None,
                }
            }
        },
        None => {
            if count == 2 {
                match octet_string_content(second) {
                    Some(v) => Some(RawControl { ctype, crit: false, val: Some(v) }),
                    None => None,
                }
            } else {
                None
            }
        },
    }
}

/// Reads the controls of a message from the values that carry them.
pub fn parse_controls(tags: Vec<StructureTag>) -> (r: Option<Vec<RawControl>>)
    ensures
        match controls_of(views(tags@)) {
            Some(cs) => r matches Some(list) && control_views(list@) == cs,
            None => r.is_none(),
        },
{
    let ghost models = views(tags@);
    let count = tags.len();
    let mut last_first = reversed(tags);
    let mut controls: Vec<RawControl> = Vec::new();
    while last_first.len() > 0
        invariant
            models == views(tags@),
            count == models.len(),
            controls@.len() + last_first@.len() == count,
            forall|k: int|
                0 <= k < last_first@.len() ==> (#[trigger] last_first@[k])@ == models[count - 1
                    - k],
            forall|k: int|
                0 <= k < controls@.len() ==> control_of(#[trigger] models[k]) == Some(
                    controls@[k]@,
                ),
        decreases last_first.len(),
    {
        let ghost at = controls@.len() as int;
        let tag = last_first.pop().unwrap();
        assert(tag@ == models[at]);
        match parse_control(tag) {
            Some(control) => {
                controls.push(control);
            },
            None => {
                assert(control_of(models[at]).is_none());
                return None;
            },
        }
    }
    proof {
        assert forall|i: int| 0 <= i < models.len() implies control_of(
            #[trigger] models[i],
        ).is_some() by {
            assert(control_of(models[i]) == Some(controls@[i]@));
        }
        assert(control_views(controls@) =~= controls_of(models).unwrap());
    }
    Some(controls)
}

} // verus!
