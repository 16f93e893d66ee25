//! Outcomes of operations, as the server reports them and as the client sees them.

use vstd::prelude::*;
use crate::common::TagClass;
use crate::content::{text_contents, text_values};
use crate::filter::ParseError;
use crate::structure::{lemma_view_constructed, views, BerPayload, BerValue, StructureTag};
use crate::structures::integer::{decode_integer, integer_of};
use crate::structures::reversed;
use crate::text::text_of;
use crate::universal;

verus! {

/// The code of a successful operation.
pub const RC_SUCCESS: u32 = 0;

/// The code with which a server refers the client elsewhere.
pub const RC_REFERRAL: u32 = 10;

/// The code that the client gives a search whose deadline passed.
pub const RC_TIMEOUT: u32 = 85;

/// The code that the client gives a search that it abandoned.
pub const RC_ABANDONED: u32 = 88;

/// What a server says of a finished operation.
#[derive(Debug, PartialEq, Eq)]
pub struct LdapResult {
    /// Result code.
    pub rc: u32,
    /// Matched name.
    pub matched: String,
    /// Diagnostic message.
    pub text: String,
    /// Referral addresses.
    pub refs: Vec<String>,
}

/// Mathematical content of a result.
pub struct ResultModel {
    pub rc: u32,
    pub matched: Seq<char>,
    pub text: Seq<char>,
    pub refs: Seq<Seq<char>>,
}

/// The characters of each text.
pub open spec fn texts(items: Seq<String>) -> Seq<Seq<char>> {
    Seq::new(items.len(), |i: int| items[i]@)
}

impl View for LdapResult {
    type V = ResultModel;

    open spec fn view(&self) -> ResultModel {
        ResultModel {
            rc: self.rc,
            matched: self.matched@,
            text: self.text@,
            refs: texts(self.refs@),
        }
    }
}

/// The ways in which an operation fails.
#[derive(Debug, PartialEq, Eq)]
pub enum LdapError {
    /// The transport failed to read or write.
    Io,
    /// The octets are not BER, or the value has not the shape that the protocol asks for.
    Codec,
    /// The filter text is no filter.
    FilterParse(ParseError),
    /// The server sent a well-formed value that was not expected.
    Protocol,
    /// The server reported a failure.
    Result(LdapResult),
    /// The deadline of the operation passed.
    Timeout,
    /// The operation was abandoned by the client.
    Cancelled,
    /// The server announced that it closes the connection.
    ServerDisconnect,
    /// The secure channel could not be set up.
    Tls,
}

impl LdapResult {
    /// Passes a successful result on and turns any other into an error.
    pub fn success(self) -> (r: Result<LdapResult, LdapError>)
        ensures
            r == if self.rc == RC_SUCCESS {
                Ok::<LdapResult, LdapError>(self)
            } else {
                Err::<LdapResult, LdapError>(LdapError::Result(self))
            },
    {
        if self.rc == RC_SUCCESS {
            Ok(self)
        } else {
            Err(LdapError::Result(self))
        }
    }

    /// Passes a successful result or a referral on and turns any other into an error.
    pub fn non_error(self) -> (r: Result<LdapResult, LdapError>)
        ensures
            r == if self.rc == RC_SUCCESS || self.rc == RC_REFERRAL {
                Ok::<LdapResult, LdapError>(self)
            } else {
                Err::<LdapResult, LdapError>(LdapError::Result(self))
            },
    {
        if self.rc == RC_SUCCESS || self.rc == RC_REFERRAL {
            Ok(self)
        } else {
            Err(LdapError::Result(self))
        }
    }
}

/// The context tag under which a result carries its referral.
pub const REFERRAL: u64 = 3;

/// Whether a value is a primitive one of the universal class with the tag number `id`.
pub open spec fn is_universal(v: BerValue, id: u64) -> bool {
    v.class == TagClass::Universal && v.id == id && v.payload is Primitive
}

/// Whether the value at `i` is a referral: constructed, under the context tag 3.
pub open spec fn is_referral(parts: Seq<BerValue>, i: int) -> bool {
    i < parts.len() && parts[i].class == TagClass::Context && parts[i].id == REFERRAL
}

/// The result that the components of a response stand for: an enumerated
/// code that fits 32 bits, the matched name and the diagnostic message as
/// octet strings in UTF-8 and, if it follows, the referral. Whatever
/// comes behind these belongs to the operation.
pub open spec fn result_of(parts: Seq<BerValue>) -> Option<ResultModel> {
    if parts.len() >= 3 && is_universal(parts[0], universal::ENUMERATED) && is_universal(
        parts[1],
        universal::OCTET_STRING,
    ) && is_universal(parts[2], universal::OCTET_STRING) {
        let rc = integer_of(parts[0].payload->Primitive_0);
        let matched = text_of(parts[1].payload->Primitive_0);
        let text = text_of(parts[2].payload->Primitive_0);
        let refs = if is_referral(parts, 3) {
            if parts[3].payload is Constructed {
                text_contents(parts[3].payload->Constructed_0)
            } else {
                None
            }
        } else {
            Some(Seq::empty())
        };
        if rc.is_some() && 0 <= rc.unwrap() <= u32::MAX && matched.is_some() && text.is_some()
            && refs.is_some() {
            Some(
                ResultModel {
                    rc: rc.unwrap() as u32,
                    matched: matched.unwrap(),
                    text: text.unwrap(),
                    refs: refs.unwrap(),
                },
            )
        } else {
            None
        }
    } else {
        None
    }
}

/// The components that follow the result.
pub open spec fn result_rest(parts: Seq<BerValue>) -> Seq<BerValue> {
    if is_referral(parts, 3) {
        parts.subrange(4, parts.len() as int)
    } else {
        parts.subrange(3, parts.len() as int)
    }
}

fn universal_primitive(tag: StructureTag, id: u64) -> (r: Option<Vec<u8>>)
    ensures
        r.is_some() == is_universal(tag@, id),
        r matches Some(octets) ==> tag@.payload == BerPayload::Primitive(octets@),
{
    proof {
        lemma_view_constructed(tag);
    }
    if tag.class == TagClass::Universal && tag.id == id {
        tag.expect_primitive()
    } else {
        None
    }
}

/// Reads a result from the components of a response. The components that
/// follow the result come back with it, in order.
pub fn parse_result_parts(tags: Vec<StructureTag>) -> (r: Option<(LdapResult, Vec<StructureTag>)>)
    ensures
        match result_of(views(tags@)) {
            Some(model) => r matches Some(found) && found.0@ == model && views(found.1@)
                == result_rest(views(tags@)),
            None => r.is_none(),
        },
{
    let ghost models = views(tags@);
    let count = tags.len();
    if count < 3 {
        return None;
    }
    let mut last_first = reversed(tags);
    let first = last_first.pop().unwrap();
    let second = last_first.pop().unwrap();
    let third = last_first.pop().unwrap();
    assert(first@ == models[0] && second@ == models[1] && third@ == models[2]);
    let code = universal_primitive(first, universal::ENUMERATED);
    let matched = universal_primitive(second, universal::OCTET_STRING);
    let text = universal_primitive(third, universal::OCTET_STRING);
    let (code, matched, text) = match (code, matched, text) {
        (Some(code), Some(matched), Some(text)) => (code, matched, text),
        _ => {
            return None;
        },
    };
    let has_referral = last_first.len() > 0 && last_first[last_first.len() - 1].class
        == TagClass::Context && last_first[last_first.len() - 1].id == REFERRAL;
    assert(has_referral == is_referral(models, 3)) by {
        if last_first@.len() > 0 {
            assert(last_first@[last_first@.len() - 1]@ == models[3]);
        }
    }
    let refs = if has_referral {
        let referral = last_first.pop().unwrap();
        assert(referral@ == models[3]);
        proof {
            lemma_view_constructed(referral);
        }
        match referral.expect_constructed() {
            Some(uris) => text_values(uris),
            None => None,
        }
    } else {
        Some(Vec::new())
    };
    let rc = match decode_integer(code.as_slice()) {
        Some(v) => {
            if 0 <= v && v <= 0xffff_ffff {
                Some(v as u32)
            } else {
                None
            }
        },
        None => None,
    };
    let matched = crate::text::utf8_string(matched);
    let text = crate::text::utf8_string(text);
    match (rc, matched, text, refs) {
        (Some(rc), Some(matched), Some(text), Some(refs)) => {
            let rest = reversed(last_first);
            proof {
                assert(texts(refs@) =~= result_of(models).unwrap().refs);
                assert(views(rest@) =~= result_rest(models));
            }
            Some((LdapResult { rc, matched, text, refs }, rest))
        },
        _ => None,
    }
}

} // verus!
