//! Extended operations: requests and responses that an object identifier names.

use vstd::prelude::*;
use vstd::utf8::{decode_utf8, encode_utf8, valid_utf8};
use crate::common::TagClass;
use crate::filter::{leaf, node};
use crate::parse::{decode, parse, Decoded};
use crate::result::{LdapError, LdapResult, RC_SUCCESS};
use crate::structure::{lemma_view_constructed, views, BerValue, StructureTag, PL};
use crate::structures::octetstring::OctetString;
use crate::structures::Tag;
use crate::text::{string_octets, text_of, utf8_string};
use crate::universal;
use crate::write::{encode, encoding};

verus! {

/// Object identifier of the request to start TLS.
pub const STARTTLS_OID: &'static str = "1.3.6.1.4.1.1466.20037";

/// Object identifier of the "Who Am I?" operation.
pub const WHOAMI_OID: &'static str = "1.3.6.1.4.1.4203.1.11.3";

/// Object identifier of the Password Modify operation.
pub const PASSMOD_OID: &'static str = "1.3.6.1.4.1.4203.1.11.1";

/// Object identifier of the notice by which a server announces that it
/// closes the connection.
pub const DISCONNECT_OID: &'static str = "1.3.6.1.4.1.1466.20036";

/// Generic extended operation.
///
/// Since the same struct can be used both for requests and responses,
/// both fields must be declared as optional; when sending an extended
/// request, `name` must not be `None`.
#[derive(Clone, Debug, PartialEq, Eq)]
pub struct Exop {
    /// OID of the operation. It may be absent in the response.
    pub name: Option<String>,
    /// Request or response value. It may be absent in both cases.
    pub val: Option<Vec<u8>>,
}

/// Mathematical content of an extended operation.
pub struct ExopModel {
    pub name: Option<Seq<char>>,
    pub val: Option<Seq<u8>>,
}

impl View for Exop {
    type V = ExopModel;

    open spec fn view(&self) -> ExopModel {
        ExopModel {
            name: match self.name {
                Some(n) => Some(n@),
                None => None,
            },
            val: match self.val {
                Some(v) => Some(v@),
                None => None,
            },
        }
    }
}

/// Conversion trait for Extended response values.
pub trait ExopParser: Sized + View {
    /// The values that are a response of this operation.
    spec fn accepts(val: Seq<u8>) -> bool;

    /// What a response value stands for.
    spec fn parsed(val: Seq<u8>) -> Self::V;

    /// Convert the raw BER value into an exop-specific struct.
    fn parse(val: &[u8]) -> (r: Self)
        requires
            Self::accepts(val@),
        ensures
            r@ == Self::parsed(val@),
    ;
}

impl Exop {
    /// Parse the generic exop into a exop-specific struct.
    ///
    /// The value must be present, and one that the operation accepts.
    pub fn parse<T: ExopParser>(&self) -> (r: T)
        requires
            self.val.is_some(),
            T::accepts(self.val.unwrap()@),
        ensures
            r@ == T::parsed(self.val.unwrap()@),
    {
        T::parse(self.val.as_ref().unwrap().as_slice())
    }
}

/// Builds the components of an extended request: the name under the
/// context tag 0 and, if there is one, the value under the context tag 1.
pub fn construct_exop(exop: Exop) -> (seq: Vec<Tag>)
    requires
        exop.name.is_some(),
    ensures
        seq@.len() == (if exop.val.is_some() { 2int } else { 1int }),
        seq@[0] matches Tag::OctetString(name) && name.id == 0 && name.class == TagClass::Context
            && name.inner@ == encode_utf8(exop.name.unwrap()@),
        exop.val matches Some(v) ==> seq@[1] matches Tag::OctetString(val) && val.id == 1
            && val.class == TagClass::Context && val.inner@ == v@,
{
    let name = exop.name.unwrap();
    let mut seq: Vec<Tag> = Vec::new();
    seq.push(
        Tag::OctetString(
            OctetString { id: 0, class: TagClass::Context, inner: string_octets(name.as_str()) },
        ),
    );
    if let Some(val) = exop.val {
        seq.push(Tag::OctetString(OctetString { id: 1, class: TagClass::Context, inner: val }));
    }
    seq
}

/// StartTLS extended operation.
#[derive(Clone, Copy, Debug)]
pub struct StartTLS;

/// Who Am I? extended operation.
#[derive(Clone, Copy, Debug)]
pub struct WhoAmI;

/// Who Am I? response: the authorization identity of the connection.
#[derive(Clone, Debug)]
pub struct WhoAmIResp {
    /// Authorization Id. Empty for an anonymous connection.
    pub authzid: String,
}

impl StartTLS {
    /// The request that asks the server to start TLS.
    pub fn into_exop(self) -> (r: Exop)
        ensures
            r@ == (ExopModel { name: Some(STARTTLS_OID@), val: None }),
    {
        Exop { name: Some(STARTTLS_OID.to_owned()), val: None }
    }
}

impl StartTLS {
    /// Whether the server consented to start TLS: any result but success
    /// fails the upgrade.
    pub fn consent(result: &LdapResult) -> (r: Result<(), LdapError>)
        ensures
            r == if result.rc == RC_SUCCESS {
                Ok::<(), LdapError>(())
            } else {
                Err::<(), LdapError>(LdapError::Tls)
            },
    {
        if result.rc == RC_SUCCESS {
            Ok(())
        } else {
            Err(LdapError::Tls)
        }
    }
}

impl WhoAmI {
    /// The request that asks the server for the identity of the connection.
    pub fn into_exop(self) -> (r: Exop)
        ensures
            r@ == (ExopModel { name: Some(WHOAMI_OID@), val: None }),
    {
        Exop { name: Some(WHOAMI_OID.to_owned()), val: None }
    }
}

impl View for WhoAmIResp {
    type V = Seq<char>;

    open spec fn view(&self) -> Seq<char> {
        self.authzid@
    }
}

impl ExopParser for WhoAmIResp {
    open spec fn accepts(val: Seq<u8>) -> bool {
        valid_utf8(val)
    }

    open spec fn parsed(val: Seq<u8>) -> Seq<char> {
        decode_utf8(val)
    }

    fn parse(val: &[u8]) -> (r: WhoAmIResp) {
        WhoAmIResp { authzid: utf8_string(vstd::slice::slice_to_vec(val)).unwrap() }
    }
}

/// Password Modify extended operation.
#[derive(Clone, Copy, Debug)]
pub struct PasswordModify<'a> {
    /// Identity for the operation; the identity of the connection if absent.
    pub user_id: Option<&'a str>,
    /// Old password, if the server asks for it.
    pub old_pass: Option<&'a str>,
    /// New password; the server makes one up if absent.
    pub new_pass: Option<&'a str>,
}

/// Password Modify response: the password that the server made up.
#[derive(Clone, Debug)]
pub struct PasswordModifyResp {
    pub gen_pass: String,
}

/// The octets of an optional text under a context tag, if the text is given.
pub open spec fn optional_part(id: u64, text: Option<&str>) -> Seq<BerValue> {
    match text {
        Some(t) => seq![leaf(TagClass::Context, id, encode_utf8(t@))],
        None => Seq::empty(),
    }
}

/// The value of a Password Modify request: a sequence of the identity under
/// the context tag 0, the old password under 1 and the new one under 2,
/// each only if given.
pub open spec fn passmod_value(pm: PasswordModify) -> BerValue {
    node(
        TagClass::Universal,
        universal::SEQUENCE,
        optional_part(0, pm.user_id) + optional_part(1, pm.old_pass) + optional_part(
            2,
            pm.new_pass,
        ),
    )
}

fn push_optional(parts: &mut Vec<StructureTag>, id: u64, text: Option<&str>)
    ensures
        views(final(parts)@) == views(old(parts)@) + optional_part(id, text),
{
    let ghost before = views(parts@);
    match text {
        Some(t) => {
            let part = StructureTag {
                class: TagClass::Context,
                id,
                payload: PL::P(string_octets(t)),
            };
            proof {
                lemma_view_constructed(part);
            }
            parts.push(part);
        },
        None => {},
    }
    assert(views(parts@) =~= before + optional_part(id, text));
}

impl<'a> PasswordModify<'a> {
    /// The request that asks the server to change a password.
    pub fn into_exop(self) -> (r: Exop)
        ensures
            r@ == (ExopModel { name: Some(PASSMOD_OID@), val: Some(encoding(passmod_value(self))) }),
    {
        let mut parts: Vec<StructureTag> = Vec::new();
        assert(views(parts@) =~= Seq::<BerValue>::empty());
        push_optional(&mut parts, 0, self.user_id);
        push_optional(&mut parts, 1, self.old_pass);
        push_optional(&mut parts, 2, self.new_pass);
        let value = StructureTag {
            class: TagClass::Universal,
            id: universal::SEQUENCE,
            payload: PL::C(parts),
        };
        proof {
            lemma_view_constructed(value);
            assert(views(parts@) =~= passmod_value(self).payload->Constructed_0);
        }
        Exop { name: Some(PASSMOD_OID.to_owned()), val: Some(encode(&value)) }
    }
}

impl View for PasswordModifyResp {
    type V = Seq<char>;

    open spec fn view(&self) -> Seq<char> {
        self.gen_pass@
    }
}

/// The password in a value that was decoded: a sequence that holds exactly
/// one primitive value under the context tag 0, in UTF-8.
pub open spec fn gen_pass_of(v: BerValue) -> Option<Seq<char>> {
    if v.class == TagClass::Universal && v.id == universal::SEQUENCE && v.payload is Constructed
        && v.payload->Constructed_0.len() == 1 {
        let part = v.payload->Constructed_0[0];
        if part.class == TagClass::Context && part.id == 0 && part.payload is Primitive {
            text_of(part.payload->Primitive_0)
        } else {
            None
        }
    } else {
        None
    }
}

/// The password in the octets of a response value, if they are exactly one
/// value of the right shape.
pub open spec fn gen_pass_in(val: Seq<u8>) -> Option<Seq<char>> {
    match parse(val, false) {
        Decoded::Done { value, end } => if end == val.len() {
            gen_pass_of(value)
        } else {
            None
        },
        _ => None,
    }
}

/// Reads the password that the server made up from the value of a response.
pub fn parse_gen_pass(val: &[u8]) -> (r: Option<String>)
    ensures
        match gen_pass_in(val@) {
            Some(text) => r matches Some(s) && s@ == text,
            None => r.is_none(),
        },
{
    let (tag, used) = match decode(val, false) {
        Ok(found) => found,
        Err(_) => {
            return None;
        },
    };
    if used != val.len() || tag.class != TagClass::Universal || tag.id != universal::SEQUENCE {
        return None;
    }
    let mut parts = match tag.expect_constructed() {
        Some(parts) => parts,
        None => {
            return None;
        },
    };
    if parts.len() != 1 {
        return None;
    }
    let ghost models = views(parts@);
    let part = parts.pop().unwrap();
    assert(part@ == models[0]);
    proof {
        lemma_view_constructed(part);
    }
    if part.class != TagClass::Context || part.id != 0 {
        return None;
    }
    match part.expect_primitive() {
        Some(octets) => utf8_string(octets),
        None => None,
    }
}

impl ExopParser for PasswordModifyResp {
    open spec fn accepts(val: Seq<u8>) -> bool {
        gen_pass_in(val).is_some()
    }

    open spec fn parsed(val: Seq<u8>) -> Seq<char> {
        gen_pass_in(val).unwrap()
    }

    fn parse(val: &[u8]) -> (r: PasswordModifyResp) {
        PasswordModifyResp { gen_pass: parse_gen_pass(val).unwrap() }
    }
}

} // verus!
