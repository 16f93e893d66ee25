//! The control by which a search is answered a page at a time.

use vstd::prelude::*;
use crate::common::TagClass;
use crate::controls::{ControlModel, ControlParser, RawControl};
use crate::filter::{node, octet_string};
use crate::parse::{decode, parse, Decoded};
use crate::result::is_universal;
use crate::round_trip::lemma_round_trip;
use crate::search::integer;
use crate::structure::{lemma_view_constructed, views, BerValue, StructureTag, PL};
use crate::structures::integer::{
    decode_integer, i_e_into_structure, integer_of, lemma_integer_round_trip,
};
use crate::universal;
use crate::write::{encode, encoding};

verus! {

pub const PAGED_RESULTS_OID: &'static str = "1.2.840.113556.1.4.319";

/// Paged Results control ([RFC 2696](https://tools.ietf.org/html/rfc2696)).
///
/// In a request, `size` is the desired size of a page and `cookie` is empty
/// for the first page and else what the server returned with the last one.
/// In a response, `size` is the estimate of the size of the whole result and
/// an empty `cookie` says that the last page was returned.
#[derive(Clone, Debug, PartialEq, Eq)]
pub struct PagedResults {
    pub size: i32,
    pub cookie: Vec<u8>,
}

/// Mathematical content of the control.
pub struct PagedModel {
    pub size: int,
    pub cookie: Seq<u8>,
}

impl View for PagedResults {
    type V = PagedModel;

    open spec fn view(&self) -> PagedModel {
        PagedModel { size: self.size as int, cookie: self.cookie@ }
    }
}

/// The value of the control: a sequence of the size and the cookie.
pub open spec fn paged_value(p: PagedModel) -> BerValue {
    node(TagClass::Universal, universal::SEQUENCE, seq![integer(p.size), octet_string(p.cookie)])
}

/// The control that asks for, or announces, a page: not critical, with the
/// encoded value.
pub open spec fn paged_control(p: PagedModel) -> ControlModel {
    ControlModel { ctype: PAGED_RESULTS_OID@, crit: false, val: Some(encoding(paged_value(p))) }
}

impl From<PagedResults> for RawControl {
    fn from(pr: PagedResults) -> (r: RawControl)
        ensures
            r@ == paged_control(pr@),
    {
        let size = i_e_into_structure(universal::INTEGER, TagClass::Universal, pr.size as i64);
        let cookie = StructureTag {
            class: TagClass::Universal,
            id: universal::OCTET_STRING,
            payload: PL::P(pr.cookie),
        };
        proof {
            lemma_view_constructed(cookie);
        }
        let mut parts: Vec<StructureTag> = Vec::new();
        parts.push(size);
        parts.push(cookie);
        let value = StructureTag {
            class: TagClass::Universal,
            id: universal::SEQUENCE,
            payload: PL::C(parts),
        };
        proof {
            lemma_view_constructed(value);
            assert(views(parts@) =~= paged_value(pr@).payload->Constructed_0);
        }
        RawControl { ctype: PAGED_RESULTS_OID.to_owned(), crit: false, val: Some(encode(&value)) }
    }
}

impl vstd::std_specs::convert::FromSpecImpl<PagedResults> for RawControl {
    open spec fn obeys_from_spec() -> bool {
        false
    }

    open spec fn from_spec(pr: PagedResults) -> RawControl {
        arbitrary()
    }
}

/// The size and the cookie in a value that was decoded: a sequence of an
/// integer that fits 32 bits and is not negative, and an octet string.
pub open spec fn paged_of(v: BerValue) -> Option<PagedModel> {
    if v.class == TagClass::Universal && v.id == universal::SEQUENCE && v.payload is Constructed
        && v.payload->Constructed_0.len() == 2 {
        let size = v.payload->Constructed_0[0];
        let cookie = v.payload->Constructed_0[1];
        if is_universal(size, universal::INTEGER) && is_universal(cookie, universal::OCTET_STRING)
            && integer_of(size.payload->Primitive_0).is_some() && 0 <= integer_of(
            size.payload->Primitive_0,
        ).unwrap() <= i32::MAX {
            Some(
                PagedModel {
                    size: integer_of(size.payload->Primitive_0).unwrap(),
                    cookie: cookie.payload->Primitive_0,
                },
            )
        } else {
            None
        }
    } else {
        None
    }
}

/// The size and the cookie in the octets of a control value, if they are
/// exactly one value of the right shape.
pub open spec fn paged_in(val: Seq<u8>) -> Option<PagedModel> {
    match parse(val, false) {
        Decoded::Done { value, end } => if end == val.len() {
            paged_of(value)
        } else {
            None
        },
        _ => None,
    }
}

/// Reads the size and the cookie from the value of the control.
pub fn parse_paged(val: &[u8]) -> (r: Option<PagedResults>)
    ensures
        match paged_in(val@) {
            Some(model) => r matches Some(found) && found@ == model,
            None => r.is_none(),
        },
{
    let (tag, used) = match decode(val, false) {
        Ok(found) => found,
        Err(_) => {
            return None;
        },
    };
    if used != val.len() || tag.class != TagClass::Universal || tag.id != universal::SEQUENCE {
        return None;
    }
    let mut parts = match tag.expect_constructed() {
        Some(parts) => parts,
        None => {
            return None;
        },
    };
    if parts.len() != 2 {
        return None;
    }
    let ghost models = views(parts@);
    let cookie = parts.pop().unwrap();
    let size = parts.pop().unwrap();
    assert(cookie@ == models[1] && size@ == models[0]);
    proof {
        lemma_view_constructed(cookie);
        lemma_view_constructed(size);
    }
    if size.class != TagClass::Universal || size.id != universal::INTEGER || cookie.class
        != TagClass::Universal || cookie.id != universal::OCTET_STRING {
        return None;
    }
    let (size, cookie) = match (size.expect_primitive(), cookie.expect_primitive()) {
        (Some(size), Some(cookie)) => (size, cookie),
        _ => {
            return None;
        },
    };
    match decode_integer(size.as_slice()) {
        Some(v) => {
            if 0 <= v && v <= 0x7fff_ffff {
                Some(PagedResults { size: v as i32, cookie })
            } else {
                None
            }
        },
        None => None,
    }
}

impl ControlParser for PagedResults {
    open spec fn accepts(val: Seq<u8>) -> bool {
        paged_in(val).is_some()
    }

    open spec fn parsed(val: Seq<u8>) -> PagedModel {
        paged_in(val).unwrap()
    }

    fn parse(val: &[u8]) -> (r: PagedResults) {
        parse_paged(val).unwrap()
    }
}

/// The value of a control that was written is read back unchanged.
pub proof fn lemma_paged_round_trip(p: PagedModel)
    requires
        0 <= p.size <= i32::MAX,
        encoding(paged_value(p)).len() <= usize::MAX,
    ensures
        paged_in(encoding(paged_value(p))) == Some(p),
{
    let value = paged_value(p);
    lemma_round_trip(value, Seq::empty(), false);
    assert(encoding(value) + Seq::<u8>::empty() =~= encoding(value));
    lemma_integer_round_trip(p.size);
    assert(value.payload->Constructed_0[0] == integer(p.size));
    assert(value.payload->Constructed_0[1] == octet_string(p.cookie));
}

} // verus!
