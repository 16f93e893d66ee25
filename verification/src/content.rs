//! What primitive values hold: octets, and text in UTF-8.

use vstd::prelude::*;
use crate::filter::chunk_views;
use crate::result::texts;
use crate::structure::{lemma_view_constructed, views, BerPayload, BerValue, StructureTag};
use crate::structures::reversed;
use crate::text::{text_of, utf8_string};

verus! {

/// The octets of each value, if all the values are primitive.
pub open spec fn primitive_contents(values: Seq<BerValue>) -> Option<Seq<Seq<u8>>> {
    if forall|i: int| 0 <= i < values.len() ==> (#[trigger] values[i]).payload is Primitive {
        Some(Seq::new(values.len(), |i: int| values[i].payload->Primitive_0))
    } else {
        None
    }
}

/// The texts of the values, if all the values are primitive and hold UTF-8.
pub open spec fn text_contents(values: Seq<BerValue>) -> Option<Seq<Seq<char>>> {
    if forall|i: int|
        0 <= i < values.len() ==> (#[trigger] values[i]).payload is Primitive && text_of(
            values[i].payload->Primitive_0,
        ).is_some() {
        Some(Seq::new(values.len(), |i: int| text_of(values[i].payload->Primitive_0).unwrap()))
    } else {
        None
    }
}

/// Reads the octets of each value, moving them out.
pub fn primitive_values(tags: Vec<StructureTag>) -> (r: Option<Vec<Vec<u8>>>)
    ensures
        match primitive_contents(views(tags@)) {
            Some(contents) => r matches Some(list) && chunk_views(list@) == contents,
            None => r.is_none(),
        },
{
    let ghost models = views(tags@);
    let count = tags.len();
    let mut last_first = reversed(tags);
    let mut out: Vec<Vec<u8>> = Vec::new();
    while last_first.len() > 0
        invariant
            models == views(tags@),
            count == models.len(),
            out@.len() + last_first@.len() == count,
            forall|k: int|
                0 <= k < last_first@.len() ==> (#[trigger] last_first@[k])@ == models[count - 1
                    - k],
            forall|k: int|
                0 <= k < out@.len() ==> (#[trigger] models[k]).payload == BerPayload::Primitive(
                    out@[k]@,
                ),
        decreases last_first.len(),
    {
        let ghost at = out@.len() as int;
        let tag = last_first.pop().unwrap();
        assert(tag@ == models[at]);
        match tag.expect_primitive() {
            Some(octets) => {
                out.push(octets);
            },
            None => {
                proof {
                    lemma_view_constructed(tag);
                    assert(!(models[at].payload is Primitive));
                }
                return None;
            },
        }
    }
    proof {
        assert(chunk_views(out@) =~= primitive_contents(models).unwrap());
    }
    Some(out)
}

/// Reads each value as UTF-8 text, moving the octets out.
pub fn text_values(tags: Vec<StructureTag>) -> (r: Option<Vec<String>>)
    ensures
        match text_contents(views(tags@)) {
            Some(contents) => r matches Some(list) && texts(list@) == contents,
            None => r.is_none(),
        },
{
    let ghost models = views(tags@);
    let count = tags.len();
    let mut last_first = reversed(tags);
    let mut out: Vec<String> = Vec::new();
    while last_first.len() > 0
        invariant
            models == views(tags@),
            count == models.len(),
            out@.len() + last_first@.len() == count,
            forall|k: int|
                0 <= k < last_first@.len() ==> (#[trigger] last_first@[k])@ == models[count - 1
                    - k],
            forall|k: int|
                0 <= k < out@.len() ==> (#[trigger] models[k]).payload is Primitive && text_of(
                    models[k].payload->Primitive_0,
                ) == Some(out@[k]@),
        decreases last_first.len(),
    {
        let ghost at = out@.len() as int;
        let tag = last_first.pop().unwrap();
        assert(tag@ == models[at]);
        proof {
            lemma_view_constructed(tag);
        }
        let text = match tag.expect_primitive() {
            Some(octets) => utf8_string(octets),
            None => None,
        };
        match text {
            Some(text) => {
                out.push(text);
            },
            None => {
                assert(!(models[at].payload is Primitive && text_of(
                    models[at].payload->Primitive_0,
                ).is_some()));
                return None;
            },
        }
    }
    proof {
        assert(texts(out@) =~= text_contents(models).unwrap());
    }
    Some(out)
}

/// Reads a primitive value as UTF-8 text.
pub fn primitive_text(tag: StructureTag) -> (r: Option<String>)
    ensures
        match tag@.payload {
            BerPayload::Primitive(octets) => match text_of(octets) {
                Some(text) => r matches Some(s) && s@ == text,
                None => r.is_none(),
            },
            BerPayload::Constructed(_) => r.is_none(),
        },
{
    proof {
        lemma_view_constructed(tag);
    }
    match tag.expect_primitive() {
        Some(octets) => utf8_string(octets),
        None => None,
    }
}

} // verus!
