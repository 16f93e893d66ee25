//! The messages of the protocol: the requests that a client writes, the
//! envelope that carries them, and the responses that it reads.

use vstd::prelude::*;
use vstd::utf8::encode_utf8;
use crate::common::TagClass;
use crate::content::primitive_text;
use crate::controls::{
    build_controls, control_views, controls_of, controls_value, lemma_controls_round_trip,
    parse_controls, ControlModel, RawControl,
};
use crate::exop_impl::{construct_exop, Exop, ExopModel};
use crate::filter::{chunk_views, leaf, node, octet_string};
use crate::result::{
    is_universal, parse_result_parts, result_of, result_rest, LdapError, LdapResult, ResultModel,
};
use crate::search::{boolean, enumerated, integer, Attribute};
use crate::structure::{
    clone_octets, lemma_view_constructed, views, BerValue, StructureTag, PL,
};
use crate::structures::boolean::Boolean;
use crate::structures::integer::{
    decode_integer, int_octets, integer_of, lemma_integer_round_trip, Enumerated, Integer,
};
use crate::structures::null::Null;
use crate::structures::octetstring::OctetString;
use crate::structures::sequence::{Sequence, SetOf};
use crate::structures::{
    lemma_tag_structures, reversed, tag_into_structure, tag_structure, tag_structures, Tag,
};
use crate::text::{string_octets, text_of};
use crate::universal;
use crate::write::encode;

verus! {

pub const BIND_REQUEST: u64 = 0;

pub const BIND_RESPONSE: u64 = 1;

pub const UNBIND_REQUEST: u64 = 2;

pub const MODIFY_REQUEST: u64 = 6;

pub const ADD_REQUEST: u64 = 8;

pub const DELETE_REQUEST: u64 = 10;

pub const MODIFY_DN_REQUEST: u64 = 12;

pub const COMPARE_REQUEST: u64 = 14;

pub const ABANDON_REQUEST: u64 = 16;

pub const EXTENDED_REQUEST: u64 = 23;

pub const EXTENDED_RESPONSE: u64 = 24;

/// The version of the protocol that a bind request names.
pub const PROTOCOL_VERSION: i64 = 3;

/// The context tag of the name in an extended response.
pub const RESPONSE_NAME: u64 = 10;

/// The context tag of the value in an extended response.
pub const RESPONSE_VALUE: u64 = 11;

fn octets_tag(class: TagClass, id: u64, octets: Vec<u8>) -> (r: Tag)
    ensures
        tag_structure(r) == leaf(class, id, octets@),
{
    Tag::OctetString(OctetString { id, class, inner: octets })
}

fn text_tag(text: &str) -> (r: Tag)
    ensures
        tag_structure(r) == octet_string(encode_utf8(text@)),
{
    octets_tag(TagClass::Universal, universal::OCTET_STRING, string_octets(text))
}

fn pair_tag(class: TagClass, id: u64, first: Tag, second: Tag) -> (r: Tag)
    ensures
        tag_structure(r) == node(class, id, seq![tag_structure(first), tag_structure(second)]),
{
    let ghost want = seq![tag_structure(first), tag_structure(second)];
    let mut inner: Vec<Tag> = Vec::new();
    inner.push(first);
    inner.push(second);
    proof {
        lemma_tag_structures(inner@);
        assert(tag_structures(inner@) =~= want);
    }
    Tag::Sequence(Sequence { id, class, inner })
}

/// The request of a simple bind: version 3, the name, and the password
/// under the context tag 0.
pub open spec fn simple_bind_value(dn: Seq<char>, password: Seq<char>) -> BerValue {
    node(
        TagClass::Application,
        BIND_REQUEST,
        seq![
            integer(PROTOCOL_VERSION as int),
            octet_string(encode_utf8(dn)),
            leaf(TagClass::Context, 0, encode_utf8(password)),
        ],
    )
}

/// Builds the request of a simple bind.
pub fn simple_bind_request(dn: &str, password: &str) -> (r: Tag)
    ensures
        tag_structure(r) == simple_bind_value(dn@, password@),
{
    let mut inner: Vec<Tag> = Vec::new();
    inner.push(
        Tag::Integer(
            Integer {
                id: universal::INTEGER,
                class: TagClass::Universal,
                inner: PROTOCOL_VERSION,
            },
        ),
    );
    inner.push(text_tag(dn));
    inner.push(octets_tag(TagClass::Context, 0, string_octets(password)));
    proof {
        lemma_tag_structures(inner@);
        assert(tag_structures(inner@) =~= simple_bind_value(dn@, password@).payload->Constructed_0);
    }
    Tag::Sequence(Sequence { id: BIND_REQUEST, class: TagClass::Application, inner })
}

/// Builds the request that ends the session: primitive, without content.
pub fn unbind_request() -> (r: Tag)
    ensures
        tag_structure(r) == leaf(TagClass::Application, UNBIND_REQUEST, Seq::empty()),
{
    Tag::Null(Null { id: UNBIND_REQUEST, class: TagClass::Application, inner: () })
}

/// Builds the request that abandons the operation `msgid`: primitive, with
/// the identifier as its content.
pub fn abandon_request(msgid: i32) -> (r: Tag)
    ensures
        tag_structure(r) == leaf(TagClass::Application, ABANDON_REQUEST, int_octets(msgid as int)),
{
    Tag::Integer(Integer { id: ABANDON_REQUEST, class: TagClass::Application, inner: msgid as i64 })
}

/// The extended request: the name under the context tag 0 and the value,
/// if there is one, under the context tag 1.
pub open spec fn extended_value(exop: ExopModel) -> BerValue {
    node(
        TagClass::Application,
        EXTENDED_REQUEST,
        seq![leaf(TagClass::Context, 0, encode_utf8(exop.name.unwrap()))] + (match exop.val {
            Some(v) => seq![leaf(TagClass::Context, 1, v)],
            None => Seq::empty(),
        }),
    )
}

/// Builds an extended request.
pub fn extended_request(exop: Exop) -> (r: Tag)
    requires
        exop.name.is_some(),
    ensures
        tag_structure(r) == extended_value(exop@),
{
    let inner = construct_exop(exop);
    proof {
        lemma_tag_structures(inner@);
        assert(tag_structures(inner@) =~= extended_value(exop@).payload->Constructed_0);
    }
    Tag::Sequence(Sequence { id: EXTENDED_REQUEST, class: TagClass::Application, inner })
}

/// Builds the request that deletes an entry: primitive, with the name as its content.
pub fn delete_request(dn: &str) -> (r: Tag)
    ensures
        tag_structure(r) == leaf(TagClass::Application, DELETE_REQUEST, encode_utf8(dn@)),
{
    octets_tag(TagClass::Application, DELETE_REQUEST, string_octets(dn))
}

/// The request that compares an attribute of an entry with a value.
pub open spec fn compare_value(dn: Seq<char>, attr: Seq<char>, value: Seq<u8>) -> BerValue {
    node(
        TagClass::Application,
        COMPARE_REQUEST,
        seq![
            octet_string(encode_utf8(dn)),
            node(
                TagClass::Universal,
                universal::SEQUENCE,
                seq![octet_string(encode_utf8(attr)), octet_string(value)],
            ),
        ],
    )
}

/// Builds the request that compares an attribute of an entry with a value.
pub fn compare_request(dn: &str, attr: &str, value: Vec<u8>) -> (r: Tag)
    ensures
        tag_structure(r) == compare_value(dn@, attr@, value@),
{
    let assertion = pair_tag(
        TagClass::Universal,
        universal::SEQUENCE,
        text_tag(attr),
        octets_tag(TagClass::Universal, universal::OCTET_STRING, value),
    );
    pair_tag(TagClass::Application, COMPARE_REQUEST, text_tag(dn), assertion)
}

/// The request that renames an entry: the name, the new relative name,
/// whether the old one is deleted and, if given, the new parent under the
/// context tag 0.
pub open spec fn modify_dn_value(
    dn: Seq<char>,
    rdn: Seq<char>,
    delete_old: bool,
    new_sup: Option<Seq<char>>,
) -> BerValue {
    node(
        TagClass::Application,
        MODIFY_DN_REQUEST,
        seq![octet_string(encode_utf8(dn)), octet_string(encode_utf8(rdn)), boolean(delete_old)]
            + (match new_sup {
            Some(parent) => seq![leaf(TagClass::Context, 0, encode_utf8(parent))],
            None => Seq::empty(),
        }),
    )
}

/// The characters of an optional text.
pub open spec fn optional_text(text: Option<&str>) -> Option<Seq<char>> {
    match text {
        Some(t) => Some(t@),
        None => None,
    }
}

/// Builds the request that renames an entry.
pub fn modify_dn_request(dn: &str, rdn: &str, delete_old: bool, new_sup: Option<&str>) -> (r: Tag)
    ensures
        tag_structure(r) == modify_dn_value(dn@, rdn@, delete_old, optional_text(new_sup)),
{
    let mut inner: Vec<Tag> = Vec::new();
    inner.push(text_tag(dn));
    inner.push(text_tag(rdn));
    inner.push(
        Tag::Boolean(
            Boolean { id: universal::BOOLEAN, class: TagClass::Universal, inner: delete_old },
        ),
    );
    match new_sup {
        Some(parent) => {
            inner.push(octets_tag(TagClass::Context, 0, string_octets(parent)));
        },
        None => {},
    }
    proof {
        lemma_tag_structures(inner@);
        assert(tag_structures(inner@) =~= modify_dn_value(
            dn@,
            rdn@,
            delete_old,
            optional_text(new_sup),
        ).payload->Constructed_0);
    }
    Tag::Sequence(Sequence { id: MODIFY_DN_REQUEST, class: TagClass::Application, inner })
}

/// An attribute with its values: the description, and the set of the values.
pub open spec fn attribute_value(name: Seq<char>, values: Seq<Seq<u8>>) -> BerValue {
    node(
        TagClass::Universal,
        universal::SEQUENCE,
        seq![
            octet_string(encode_utf8(name)),
            node(
                TagClass::Universal,
                universal::SET,
                Seq::new(values.len(), |i: int| octet_string(values[i])),
            ),
        ],
    )
}

fn attribute_tag(attr: &Attribute) -> (r: Tag)
    ensures
        tag_structure(r) == attribute_value(attr.name@, chunk_views(attr.values@)),
{
    let mut vals: Vec<Tag> = Vec::new();
    let mut i: usize = 0;
    while i < attr.values.len()
        invariant
            i <= attr.values@.len(),
            vals@.len() == i,
            forall|k: int|
                0 <= k < i ==> tag_structure(#[trigger] vals@[k]) == octet_string(
                    attr.values@[k]@,
                ),
        decreases attr.values.len() - i,
    {
        vals.push(
            octets_tag(TagClass::Universal, universal::OCTET_STRING, clone_octets(&attr.values[i])),
        );
        i += 1;
    }
    proof {
        lemma_tag_structures(vals@);
        assert(tag_structures(vals@) =~= Seq::new(
            attr.values@.len(),
            |i: int| octet_string(chunk_views(attr.values@)[i]),
        ));
    }
    let set = Tag::SetOf(SetOf { id: universal::SET, class: TagClass::Universal, inner: vals });
    pair_tag(TagClass::Universal, universal::SEQUENCE, text_tag(attr.name.as_str()), set)
}

/// The request that adds an entry with the given attributes.
pub open spec fn add_value(dn: Seq<char>, attrs: Seq<Attribute>) -> BerValue {
    node(
        TagClass::Application,
        ADD_REQUEST,
        seq![
            octet_string(encode_utf8(dn)),
            node(
                TagClass::Universal,
                universal::SEQUENCE,
                Seq::new(
                    attrs.len(),
                    |i: int| attribute_value(attrs[i].name@, chunk_views(attrs[i].values@)),
                ),
            ),
        ],
    )
}

/// Builds the request that adds an entry.
pub fn add_request(dn: &str, attrs: &Vec<Attribute>) -> (r: Tag)
    ensures
        tag_structure(r) == add_value(dn@, attrs@),
{
    let mut list: Vec<Tag> = Vec::new();
    let mut i: usize = 0;
    while i < attrs.len()
        invariant
            i <= attrs@.len(),
            list@.len() == i,
            forall|k: int|
                0 <= k < i ==> tag_structure(#[trigger] list@[k]) == attribute_value(
                    attrs@[k].name@,
                    chunk_views(attrs@[k].values@),
                ),
        decreases attrs.len() - i,
    {
        list.push(attribute_tag(&attrs[i]));
        i += 1;
    }
    proof {
        lemma_tag_structures(list@);
        assert(tag_structures(list@) =~= Seq::new(
            attrs@.len(),
            |i: int| attribute_value(attrs@[i].name@, chunk_views(attrs@[i].values@)),
        ));
    }
    let all = Tag::Sequence(
        Sequence { id: universal::SEQUENCE, class: TagClass::Universal, inner: list },
    );
    pair_tag(TagClass::Application, ADD_REQUEST, text_tag(dn), all)
}

/// A change to one attribute of an entry.
#[derive(Clone, Debug, PartialEq, Eq)]
pub enum Mod {
    /// Add the values to the attribute.
    Add(Attribute),
    /// Delete the values from the attribute, or the attribute if no value is given.
    Delete(Attribute),
    /// Replace the values of the attribute.
    Replace(Attribute),
}

impl Mod {
    /// The number that stands for the kind of change in a request.
    pub open spec fn code(self) -> int {
        match self {
            Mod::Add(_) => 0,
            Mod::Delete(_) => 1,
            Mod::Replace(_) => 2,
        }
    }

    /// The attribute that is changed.
    pub open spec fn attribute(self) -> Attribute {
        match self {
            Mod::Add(a) => a,
            Mod::Delete(a) => a,
            Mod::Replace(a) => a,
        }
    }
}

/// One change: the kind, and the attribute with the values.
pub open spec fn mod_value(m: Mod) -> BerValue {
    node(
        TagClass::Universal,
        universal::SEQUENCE,
        seq![
            enumerated(m.code()),
            attribute_value(m.attribute().name@, chunk_views(m.attribute().values@)),
        ],
    )
}

/// The request that changes attributes of an entry.
pub open spec fn modify_value(dn: Seq<char>, mods: Seq<Mod>) -> BerValue {
    node(
        TagClass::Application,
        MODIFY_REQUEST,
        seq![
            octet_string(encode_utf8(dn)),
            node(
                TagClass::Universal,
                universal::SEQUENCE,
                Seq::new(mods.len(), |i: int| mod_value(mods[i])),
            ),
        ],
    )
}

fn mod_tag(m: &Mod) -> (r: Tag)
    ensures
        tag_structure(r) == mod_value(*m),
{
    let (code, attr): (i64, &Attribute) = match m {
        Mod::Add(a) => (0, a),
        Mod::Delete(a) => (1, a),
        Mod::Replace(a) => (2, a),
    };
    let kind = Tag::Enumerated(
        Enumerated { id: universal::ENUMERATED, class: TagClass::Universal, inner: code },
    );
    pair_tag(TagClass::Universal, universal::SEQUENCE, kind, attribute_tag(attr))
}

/// Builds the request that changes attributes of an entry.
pub fn modify_request(dn: &str, mods: &Vec<Mod>) -> (r: Tag)
    ensures
        tag_structure(r) == modify_value(dn@, mods@),
{
    let mut list: Vec<Tag> = Vec::new();
    let mut i: usize = 0;
    while i < mods.len()
        invariant
            i <= mods@.len(),
            list@.len() == i,
            forall|k: int| 0 <= k < i ==> tag_structure(#[trigger] list@[k]) == mod_value(mods@[k]),
        decreases mods.len() - i,
    {
        list.push(mod_tag(&mods[i]));
        i += 1;
    }
    proof {
        lemma_tag_structures(list@);
        assert(tag_structures(list@) =~= Seq::new(mods@.len(), |i: int| mod_value(mods@[i])));
    }
    let all = Tag::Sequence(
        Sequence { id: universal::SEQUENCE, class: TagClass::Universal, inner: list },
    );
    pair_tag(TagClass::Application, MODIFY_REQUEST, text_tag(dn), all)
}

/// The envelope of a message: the identifier, the operation and, if given,
/// the controls under the context tag 0.
pub open spec fn message_value(
    msgid: int,
    op: BerValue,
    controls: Option<Seq<ControlModel>>,
) -> BerValue {
    node(
        TagClass::Universal,
        universal::SEQUENCE,
        seq![integer(msgid), op] + (match controls {
            Some(cs) => seq![controls_value(cs)],
            None => Seq::empty(),
        }),
    )
}

/// The contents of optional controls.
pub open spec fn optional_controls(controls: Option<Vec<RawControl>>) -> Option<
    Seq<ControlModel>,
> {
    match controls {
        Some(cs) => Some(control_views(cs@)),
        None => None,
    }
}

/// Wraps an operation into the envelope of a message.
pub fn ldap_message(msgid: i32, op: Tag, controls: Option<Vec<RawControl>>) -> (r: StructureTag)
    ensures
        r@ == message_value(msgid as int, tag_structure(op), optional_controls(controls)),
{
    let ghost want = message_value(msgid as int, tag_structure(op), optional_controls(controls));
    let mut parts: Vec<StructureTag> = Vec::new();
    parts.push(
        tag_into_structure(
            Tag::Integer(
                Integer {
                    id: universal::INTEGER,
                    class: TagClass::Universal,
                    inner: msgid as i64,
                },
            ),
        ),
    );
    parts.push(tag_into_structure(op));
    match controls {
        Some(cs) => {
            parts.push(build_controls(cs));
        },
        None => {},
    }
    let r = StructureTag {
        class: TagClass::Universal,
        id: universal::SEQUENCE,
        payload: PL::C(parts),
    };
    proof {
        lemma_view_constructed(r);
        assert(views(parts@) =~= want.payload->Constructed_0);
    }
    r
}

/// The octets of a message: the envelope of the operation, encoded.
pub fn encode_message(msgid: i32, op: Tag, controls: Option<Vec<RawControl>>) -> (out: Vec<u8>)
    ensures
        out@ == crate::write::encoding(
            message_value(msgid as int, tag_structure(op), optional_controls(controls)),
        ),
{
    let message = ldap_message(msgid, op, controls);
    encode(&message)
}

/// A message as it was read: the identifier, the operation and the controls.
#[derive(Debug, PartialEq, Eq)]
pub struct Message {
    pub msgid: i32,
    pub op: StructureTag,
    pub controls: Vec<RawControl>,
}

/// Mathematical content of a message that was read.
pub struct MessageModel {
    pub msgid: int,
    pub op: BerValue,
    pub controls: Seq<ControlModel>,
}

impl View for Message {
    type V = MessageModel;

    open spec fn view(&self) -> MessageModel {
        MessageModel {
            msgid: self.msgid as int,
            op: self.op@,
            controls: control_views(self.controls@),
        }
    }
}

/// Whether the value at `i` carries controls: under the context tag 0.
pub open spec fn is_controls(parts: Seq<BerValue>, i: int) -> bool {
    i < parts.len() && parts[i].class == TagClass::Context && parts[i].id == 0
}

/// The message that a value stands for, if it has the shape of one: a
/// sequence of an identifier between 0 and the largest, an operation of the
/// application class and, at most, controls.
pub open spec fn message_of(v: BerValue) -> Option<MessageModel> {
    if v.class == TagClass::Universal && v.id == universal::SEQUENCE && v.payload is Constructed {
        let parts = v.payload->Constructed_0;
        if 2 <= parts.len() <= 3 && is_universal(parts[0], universal::INTEGER)
            && parts[1].class == TagClass::Application {
            let msgid = integer_of(parts[0].payload->Primitive_0);
            let controls = if parts.len() == 3 {
                if is_controls(parts, 2) && parts[2].payload is Constructed {
                    controls_of(parts[2].payload->Constructed_0)
                } else {
                    None
                }
            } else {
                Some(Seq::empty())
            };
            if msgid.is_some() && 0 <= msgid.unwrap() <= i32::MAX && controls.is_some() {
                Some(
                    MessageModel {
                        msgid: msgid.unwrap(),
                        op: parts[1],
                        controls: controls.unwrap(),
                    },
                )
            } else {
                None
            }
        } else {
            None
        }
    } else {
        None
    }
}

/// Reads the envelope of a message. A value that has not the shape of a
/// message is a codec error.
pub fn parse_message(tag: StructureTag) -> (r: Result<Message, LdapError>)
    ensures
        match message_of(tag@) {
            Some(model) => r matches Ok(message) && message@ == model,
            None => r matches Err(LdapError::Codec),
        },
{
    let ghost value = tag@;
    if tag.class != TagClass::Universal || tag.id != universal::SEQUENCE {
        return Err(LdapError::Codec);
    }
    let parts = match tag.expect_constructed() {
        Some(parts) => parts,
        None => {
            return Err(LdapError::Codec);
        },
    };
    let count = parts.len();
    if count < 2 || count > 3 {
        return Err(LdapError::Codec);
    }
    let ghost models = views(parts@);
    let mut last_first = reversed(parts);
    let first = last_first.pop().unwrap();
    let op = last_first.pop().unwrap();
    assert(first@ == models[0] && op@ == models[1]);
    proof {
        lemma_view_constructed(first);
    }
    if first.class != TagClass::Universal || first.id != universal::INTEGER {
        return Err(LdapError::Codec);
    }
    let msgid = match first.expect_primitive() {
        Some(octets) => match decode_integer(octets.as_slice()) {
            Some(v) => {
                if 0 <= v && v <= 0x7fff_ffff {
                    v as i32
                } else {
                    return Err(LdapError::Codec);
                }
            },
            None => {
                return Err(LdapError::Codec);
            },
        },
        None => {
            return Err(LdapError::Codec);
        },
    };
    if op.class != TagClass::Application {
        return Err(LdapError::Codec);
    }
    let controls = if count == 3 {
        let third = last_first.pop().unwrap();
        assert(third@ == models[2]);
        proof {
            lemma_view_constructed(third);
        }
        if third.class != TagClass::Context || third.id != 0 {
            return Err(LdapError::Codec);
        }
        match third.expect_constructed() {
            Some(inner) => match parse_controls(inner) {
                Some(controls) => controls,
                None => {
                    return Err(LdapError::Codec);
                },
            },
            None => {
                return Err(LdapError::Codec);
            },
        }
    } else {
        let none: Vec<RawControl> = Vec::new();
        proof {
            assert(control_views(none@) =~= Seq::<ControlModel>::empty());
        }
        none
    };
    Ok(Message { msgid, op, controls })
}

/// A message that was written is read back: the identifier, the operation
/// and the controls are those that went into the envelope.
pub proof fn lemma_message_round_trip(msgid: int, op: BerValue, controls: Option<Seq<ControlModel>>)
    requires
        0 <= msgid <= i32::MAX,
        op.class == TagClass::Application,
    ensures
        message_of(message_value(msgid, op, controls)) == Some(
            MessageModel {
                msgid,
                op,
                controls: match controls {
                    Some(cs) => cs,
                    None => Seq::empty(),
                },
            },
        ),
{
    lemma_integer_round_trip(msgid);
    let parts = message_value(msgid, op, controls).payload->Constructed_0;
    assert(parts[0] == integer(msgid));
    assert(parts[1] == op);
    match controls {
        Some(cs) => {
            assert(parts[2] == controls_value(cs));
            lemma_controls_round_trip(cs);
        },
        None => {},
    }
}

/// The name and the value that the components behind the result of an
/// extended response hold: the name, if it comes first under the context
/// tag 10, and the value, if it comes next under the context tag 11.
pub open spec fn exop_of(rest: Seq<BerValue>) -> Option<ExopModel> {
    let named = rest.len() > 0 && rest[0].class == TagClass::Context && rest[0].id
        == RESPONSE_NAME;
    let at: int = if named { 1 } else { 0 };
    let valued = rest.len() > at && rest[at].class == TagClass::Context && rest[at].id
        == RESPONSE_VALUE;
    if named && !(rest[0].payload is Primitive && text_of(
        rest[0].payload->Primitive_0,
    ).is_some()) {
        None
    } else if valued && !(rest[at].payload is Primitive) {
        None
    } else {
        Some(
            ExopModel {
                name: if named {
                    text_of(rest[0].payload->Primitive_0)
                } else {
                    None
                },
                val: if valued {
                    Some(rest[at].payload->Primitive_0)
                } else {
                    None
                },
            },
        )
    }
}

/// What a response says: its result and, for an extended response, the name
/// and the value.
pub open spec fn response_of(op: BerValue) -> Option<(ResultModel, ExopModel)> {
    if op.payload is Constructed {
        let parts = op.payload->Constructed_0;
        match (result_of(parts), exop_of(result_rest(parts))) {
            (Some(result), Some(exop)) => Some((result, exop)),
            _ => None,
        }
    } else {
        None
    }
}

/// Reads the result of a response, and the name and the value of an
/// extended one. A response that has not the shape of one is a codec error.
pub fn parse_response(op: StructureTag) -> (r: Result<(LdapResult, Exop), LdapError>)
    ensures
        match response_of(op@) {
            Some(model) => r matches Ok(found) && found.0@ == model.0 && found.1@ == model.1,
            None => r matches Err(LdapError::Codec),
        },
{
    let parts = match op.expect_constructed() {
        Some(parts) => parts,
        None => {
            return Err(LdapError::Codec);
        },
    };
    let ghost models = views(parts@);
    let (result, rest) = match parse_result_parts(parts) {
        Some(found) => found,
        None => {
            return Err(LdapError::Codec);
        },
    };
    let ghost behind = views(rest@);
    let total = rest.len();
    let mut last_first = reversed(rest);
    let named = total > 0 && last_first[total - 1].class == TagClass::Context
        && last_first[total - 1].id == RESPONSE_NAME;
    proof {
        if total > 0 {
            assert(last_first@[total - 1]@ == behind[0]);
        }
    }
    let name = if named {
        let first = last_first.pop().unwrap();
        assert(first@ == behind[0]);
        match primitive_text(first) {
            Some(text) => Some(text),
            None => {
                return Err(LdapError::Codec);
            },
        }
    } else {
        None
    };
    let ghost at: int = if named { 1 } else { 0 };
    let left = last_first.len();
    let valued = left > 0 && last_first[left - 1].class == TagClass::Context && last_first[left
        - 1].id == RESPONSE_VALUE;
    proof {
        if left > 0 {
            assert(last_first@[left - 1]@ == behind[at]);
        }
    }
    let val = if valued {
        let next = last_first.pop().unwrap();
        assert(next@ == behind[at]);
        proof {
            lemma_view_constructed(next);
        }
        match next.expect_primitive() {
            Some(octets) => Some(octets),
            None => {
                return Err(LdapError::Codec);
            },
        }
    } else {
        None
    };
    Ok((result, Exop { name, val }))
}

} // verus!
