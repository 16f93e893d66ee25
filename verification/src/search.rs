//! Search: the request, and the entries, references and result that answer it.

use vstd::prelude::*;
use vstd::utf8::encode_utf8;
use crate::common::TagClass;
use crate::filter::{
    chunk_views, filter_of, leaf, node, octet_string, universal_octets, Parse, ParseError,
};
use crate::protocol::{SEARCH_DONE, SEARCH_ENTRY, SEARCH_REFERENCE};
use crate::content::{
    primitive_contents, primitive_text, primitive_values, text_contents, text_values,
};
use crate::result::{parse_result_parts, result_of, texts, LdapError, LdapResult, ResultModel};
use crate::structure::{lemma_view_constructed, views, BerValue, StructureTag};
use crate::structures::boolean::Boolean;
use crate::structures::integer::{int_octets, Enumerated, Integer};
use crate::structures::sequence::Sequence;
use crate::structures::{
    bool_octets, lemma_tag_structures, reversed, tag_into_structure, tag_structure,
    tag_structures, Tag,
};
use crate::text::{string_octets, text_of};
use crate::universal;

verus! {

/// Tag number of a search request.
pub const SEARCH_REQUEST: u64 = 3;

/// Possible values for search scope.
#[derive(Clone, Copy, Debug, PartialEq, Eq, Structural)]
pub enum Scope {
    /// Base object; search only the object named in the base DN.
    Base,
    /// Search the objects immediately below the base DN.
    OneLevel,
    /// Search the object named in the base DN and the whole subtree below it.
    Subtree,
}

impl Scope {
    /// The number that stands for the scope in a request.
    pub open spec fn code(self) -> int {
        match self {
            Scope::Base => 0,
            Scope::OneLevel => 1,
            Scope::Subtree => 2,
        }
    }

    /// The number that stands for the scope in a request.
    pub fn number(self) -> (r: i64)
        ensures
            r == self.code(),
    {
        match self {
            Scope::Base => 0,
            Scope::OneLevel => 1,
            Scope::Subtree => 2,
        }
    }
}

/// Possible values for alias dereferencing during search.
#[derive(Clone, Copy, Debug, PartialEq, Eq, Structural)]
pub enum DerefAliases {
    /// Never dereference.
    Never,
    /// Dereference while retrieving objects according to search scope.
    InSearch,
    /// Dereference while finding the base object.
    FindingBaseObject,
    /// Always dereference.
    Always,
}

impl DerefAliases {
    /// The number that stands for the policy in a request.
    pub open spec fn code(self) -> int {
        match self {
            DerefAliases::Never => 0,
            DerefAliases::InSearch => 1,
            DerefAliases::FindingBaseObject => 2,
            DerefAliases::Always => 3,
        }
    }

    /// The number that stands for the policy in a request.
    pub fn number(self) -> (r: i64)
        ensures
            r == self.code(),
    {
        match self {
            DerefAliases::Never => 0,
            DerefAliases::InSearch => 1,
            DerefAliases::FindingBaseObject => 2,
            DerefAliases::Always => 3,
        }
    }
}

/// Additional parameters for the Search operation.
#[derive(Clone, Copy, Debug, PartialEq, Eq, Structural)]
pub struct SearchOptions {
    pub deref: DerefAliases,
    pub typesonly: bool,
    /// Seconds that the server may spend; zero for no limit.
    pub timelimit: u32,
    /// Entries that the server may return; zero for no limit.
    pub sizelimit: u32,
}

impl SearchOptions {
    /// Options that ask for nothing special: aliases are never followed,
    /// values are returned, and there is no limit.
    pub fn new() -> (r: SearchOptions)
        ensures
            r == (SearchOptions {
                deref: DerefAliases::Never,
                typesonly: false,
                timelimit: 0,
                sizelimit: 0,
            }),
    {
        SearchOptions { deref: DerefAliases::Never, typesonly: false, timelimit: 0, sizelimit: 0 }
    }

    /// Set the method for dereferencing aliases.
    pub fn deref(self, d: DerefAliases) -> (r: SearchOptions)
        ensures
            r == (SearchOptions { deref: d, ..self }),
    {
        SearchOptions { deref: d, ..self }
    }

    /// Set the indicator of returning just attribute names (`true`) vs. names and values (`false`).
    pub fn typesonly(self, typesonly: bool) -> (r: SearchOptions)
        ensures
            r == (SearchOptions { typesonly, ..self }),
    {
        SearchOptions { typesonly, ..self }
    }

    /// Set the time limit, in seconds, for the whole search operation.
    pub fn timelimit(self, timelimit: u32) -> (r: SearchOptions)
        ensures
            r == (SearchOptions { timelimit, ..self }),
    {
        SearchOptions { timelimit, ..self }
    }

    /// Set the size limit, in entries, for the whole search operation.
    pub fn sizelimit(self, sizelimit: u32) -> (r: SearchOptions)
        ensures
            r == (SearchOptions { sizelimit, ..self }),
    {
        SearchOptions { sizelimit, ..self }
    }
}

/// An enumerated value of the universal class.
pub open spec fn enumerated(i: int) -> BerValue {
    leaf(TagClass::Universal, universal::ENUMERATED, int_octets(i))
}

/// An integer of the universal class.
pub open spec fn integer(i: int) -> BerValue {
    leaf(TagClass::Universal, universal::INTEGER, int_octets(i))
}

/// A boolean of the universal class.
pub open spec fn boolean(b: bool) -> BerValue {
    leaf(TagClass::Universal, universal::BOOLEAN, bool_octets(b))
}

/// The names of the attributes that a search asks for, each as an octet string.
pub open spec fn attribute_list(attrs: Seq<Seq<char>>) -> BerValue {
    node(
        TagClass::Universal,
        universal::SEQUENCE,
        Seq::new(attrs.len(), |i: int| octet_string(encode_utf8(attrs[i]))),
    )
}

/// The search request: base, scope, alias policy, size limit, time limit,
/// types-only mark, filter and attribute list, under the application tag 3.
pub open spec fn search_request_value(
    base: Seq<char>,
    scope: Scope,
    opts: SearchOptions,
    filter: BerValue,
    attrs: Seq<Seq<char>>,
) -> BerValue {
    node(
        TagClass::Application,
        SEARCH_REQUEST,
        seq![
            octet_string(encode_utf8(base)),
            enumerated(scope.code()),
            enumerated(opts.deref.code()),
            integer(opts.sizelimit as int),
            integer(opts.timelimit as int),
            boolean(opts.typesonly),
            filter,
            attribute_list(attrs),
        ],
    )
}

fn build_attribute_list(attrs: &Vec<String>) -> (r: Tag)
    ensures
        tag_structure(r) == attribute_list(texts(attrs@)),
{
    let mut inner: Vec<Tag> = Vec::new();
    let mut i: usize = 0;
    while i < attrs.len()
        invariant
            i <= attrs@.len(),
            inner@.len() == i,
            forall|k: int|
                0 <= k < i ==> tag_structure(#[trigger] inner@[k]) == octet_string(
                    encode_utf8(attrs@[k]@),
                ),
        decreases attrs.len() - i,
    {
        inner.push(universal_octets(string_octets(attrs[i].as_str())));
        i += 1;
    }
    proof {
        lemma_tag_structures(inner@);
        assert(tag_structures(inner@) =~= attribute_list(texts(attrs@)).payload->Constructed_0);
    }
    Tag::Sequence(Sequence { id: universal::SEQUENCE, class: TagClass::Universal, inner })
}

/// Builds a search request. The filter is given as text; the request is
/// built exactly if the text is a filter.
pub fn search_request(
    base: &str,
    scope: Scope,
    opts: SearchOptions,
    filter: &str,
    attrs: &Vec<String>,
) -> (r: Result<Tag, ParseError>)
    ensures
        match filter_of(encode_utf8(filter@)) {
            Parse::Read { value, .. } => r matches Ok(tag) && tag_structure(tag)
                == search_request_value(base@, scope, opts, value, texts(attrs@)),
            Parse::Fail { position, reason } => r matches Err(e) && e.position == position
                && e.reason == reason,
        },
{
    let filter_tag = match crate::filter::parse(filter) {
        Ok(tag) => tag,
        Err(e) => {
            return Err(e);
        },
    };
    let ghost filter_value = tag_structure(filter_tag);
    let mut inner: Vec<Tag> = Vec::new();
    inner.push(universal_octets(string_octets(base)));
    inner.push(
        Tag::Enumerated(
            Enumerated {
                id: universal::ENUMERATED,
                class: TagClass::Universal,
                inner: scope.number(),
            },
        ),
    );
    inner.push(
        Tag::Enumerated(
            Enumerated {
                id: universal::ENUMERATED,
                class: TagClass::Universal,
                inner: opts.deref.number(),
            },
        ),
    );
    inner.push(
        Tag::Integer(
            Integer {
                id: universal::INTEGER,
                class: TagClass::Universal,
                inner: opts.sizelimit as i64,
            },
        ),
    );
    inner.push(
        Tag::Integer(
            Integer {
                id: universal::INTEGER,
                class: TagClass::Universal,
                inner: opts.timelimit as i64,
            },
        ),
    );
    inner.push(
        Tag::Boolean(
            Boolean { id: universal::BOOLEAN, class: TagClass::Universal, inner: opts.typesonly },
        ),
    );
    inner.push(filter_tag);
    inner.push(build_attribute_list(attrs));
    proof {
        lemma_tag_structures(inner@);
        assert(tag_structures(inner@) =~= search_request_value(
            base@,
            scope,
            opts,
            filter_value,
            texts(attrs@),
        ).payload->Constructed_0);
    }
    Ok(Tag::Sequence(Sequence { id: SEARCH_REQUEST, class: TagClass::Application, inner }))
}

/// One attribute of an entry: its description and its values, in order.
#[derive(Clone, Debug, PartialEq, Eq)]
pub struct Attribute {
    pub name: String,
    pub values: Vec<Vec<u8>>,
}

/// What a search returns, item by item.
#[derive(Debug, PartialEq, Eq)]
pub enum SearchEntry {
    /// Addresses at which the search may be continued.
    Reference(Vec<String>),
    /// An entry: its name and its attributes, no attribute description twice.
    Object { object_name: String, attributes: Vec<Attribute> },
    /// The result that ends the search.
    Done(LdapResult),
}

/// Mathematical content of an item of a search.
pub enum EntryModel {
    Reference(Seq<Seq<char>>),
    Object { object_name: Seq<char>, attributes: Map<Seq<char>, Seq<Seq<u8>>> },
    Done(ResultModel),
}

/// The attributes of a list, by description; of two with one description
/// the later counts.
pub open spec fn attribute_map(attrs: Seq<Attribute>) -> Map<Seq<char>, Seq<Seq<u8>>>
    decreases attrs.len(),
{
    if attrs.len() == 0 {
        Map::empty()
    } else {
        attribute_map(attrs.drop_last()).insert(
            attrs.last().name@,
            chunk_views(attrs.last().values@),
        )
    }
}

/// No attribute description occurs twice.
pub open spec fn distinct_names(attrs: Seq<Attribute>) -> bool {
    forall|i: int, j: int| 0 <= i < j < attrs.len() ==> attrs[i].name@ != attrs[j].name@
}

/// The values of the attribute `name` in a list, if it occurs there; of two
/// with one description the later counts.
pub open spec fn values_in(attrs: Seq<Attribute>, name: Seq<char>) -> Option<Seq<Seq<u8>>> {
    if attribute_map(attrs).dom().contains(name) {
        Some(attribute_map(attrs)[name])
    } else {
        None
    }
}

/// Looks an attribute up by its description.
pub fn find_attribute<'a>(attrs: &'a Vec<Attribute>, name: &str) -> (r: Option<&'a Vec<Vec<u8>>>)
    ensures
        match values_in(attrs@, name@) {
            Some(values) => r matches Some(found) && chunk_views(found@) == values,
            None => r.is_none(),
        },
{
    let wanted = name.to_owned();
    let mut i: usize = attrs.len();
    assert(attrs@.subrange(0, i as int) =~= attrs@);
    while i > 0
        invariant
            i <= attrs@.len(),
            wanted@ == name@,
            values_in(attrs@, name@) == values_in(attrs@.subrange(0, i as int), name@),
        decreases i,
    {
        let ghost upto = attrs@.subrange(0, i as int);
        proof {
            assert(upto.drop_last() =~= attrs@.subrange(0, i - 1));
            assert(upto.last() == attrs@[i - 1]);
        }
        i -= 1;
        if attrs[i].name == wanted {
            return Some(&attrs[i].values);
        }
    }
    None
}

impl SearchEntry {
    /// An entry holds no attribute description twice.
    pub open spec fn well_formed(&self) -> bool {
        self matches SearchEntry::Object { attributes, .. } ==> distinct_names(attributes@)
    }
}

impl View for SearchEntry {
    type V = EntryModel;

    open spec fn view(&self) -> EntryModel {
        match self {
            SearchEntry::Reference(uris) => EntryModel::Reference(texts(uris@)),
            SearchEntry::Object { object_name, attributes } => EntryModel::Object {
                object_name: object_name@,
                attributes: attribute_map(attributes@),
            },
            SearchEntry::Done(result) => EntryModel::Done(result@),
        }
    }
}

/// The description and the values of one attribute, if the value has the
/// shape of one: a constructed value of a primitive description in UTF-8
/// and a constructed value of primitive values.
pub open spec fn attribute_of(v: BerValue) -> Option<(Seq<char>, Seq<Seq<u8>>)> {
    if v.payload is Constructed && v.payload->Constructed_0.len() == 2 {
        let name = v.payload->Constructed_0[0];
        let vals = v.payload->Constructed_0[1];
        if name.payload is Primitive && text_of(name.payload->Primitive_0).is_some()
            && vals.payload is Constructed && primitive_contents(
            vals.payload->Constructed_0,
        ).is_some() {
            Some(
                (
                    text_of(name.payload->Primitive_0).unwrap(),
                    primitive_contents(vals.payload->Constructed_0).unwrap(),
                ),
            )
        } else {
            None
        }
    } else {
        None
    }
}

/// The attributes that the first `n` values stand for, by description, if
/// each has the shape of an attribute.
pub open spec fn attributes_of(values: Seq<BerValue>, n: int) -> Option<
    Map<Seq<char>, Seq<Seq<u8>>>,
>
    decreases n,
{
    if n <= 0 {
        Some(Map::empty())
    } else {
        match (attributes_of(values, n - 1), attribute_of(values[n - 1])) {
            (Some(earlier), Some(pair)) => Some(earlier.insert(pair.0, pair.1)),
            _ => None,
        }
    }
}

/// Why a value is no item of a search.
pub enum EntryError {
    /// The value is not one that answers a search.
    Protocol,
    /// The value has not the shape that its tag promises.
    Codec,
}

/// The item of a search that a value stands for: under the application tag
/// 4 an entry, under 19 a reference, under 5 the result that ends the search.
pub open spec fn entry_of(v: BerValue) -> Result<EntryModel, EntryError> {
    if v.class != TagClass::Application {
        Err(EntryError::Protocol)
    } else if v.id == SEARCH_ENTRY {
        if v.payload is Constructed && v.payload->Constructed_0.len() == 2 {
            let name = v.payload->Constructed_0[0];
            let attrs = v.payload->Constructed_0[1];
            if name.payload is Primitive && text_of(name.payload->Primitive_0).is_some()
                && attrs.payload is Constructed && attributes_of(
                attrs.payload->Constructed_0,
                attrs.payload->Constructed_0.len() as int,
            ).is_some() {
                Ok(
                    EntryModel::Object {
                        object_name: text_of(name.payload->Primitive_0).unwrap(),
                        attributes: attributes_of(
                            attrs.payload->Constructed_0,
                            attrs.payload->Constructed_0.len() as int,
                        ).unwrap(),
                    },
                )
            } else {
                Err(EntryError::Codec)
            }
        } else {
            Err(EntryError::Codec)
        }
    } else if v.id == SEARCH_REFERENCE {
        if v.payload is Constructed && text_contents(v.payload->Constructed_0).is_some() {
            Ok(EntryModel::Reference(text_contents(v.payload->Constructed_0).unwrap()))
        } else {
            Err(EntryError::Codec)
        }
    } else if v.id == SEARCH_DONE {
        if v.payload is Constructed && result_of(v.payload->Constructed_0).is_some() {
            Ok(EntryModel::Done(result_of(v.payload->Constructed_0).unwrap()))
        } else {
            Err(EntryError::Codec)
        }
    } else {
        Err(EntryError::Protocol)
    }
}

/// Replacing the values of the attribute at `i` is inserting them under its description.
proof fn lemma_attribute_map_update(attrs: Seq<Attribute>, i: int, fresh: Attribute)
    requires
        distinct_names(attrs),
        0 <= i < attrs.len(),
        fresh.name@ == attrs[i].name@,
    ensures
        attribute_map(attrs.update(i, fresh)) == attribute_map(attrs).insert(
            fresh.name@,
            chunk_views(fresh.values@),
        ),
        distinct_names(attrs.update(i, fresh)),
    decreases attrs.len(),
{
    let updated = attrs.update(i, fresh);
    assert forall|a: int, b: int| 0 <= a < b < updated.len() implies updated[a].name@
        != updated[b].name@ by {
        assert(updated[a].name@ == attrs[a].name@ && updated[b].name@ == attrs[b].name@);
    }
    if i == attrs.len() - 1 {
        assert(updated.drop_last() =~= attrs.drop_last());
        assert(attribute_map(updated) =~= attribute_map(attrs).insert(
            fresh.name@,
            chunk_views(fresh.values@),
        ));
    } else {
        let shorter = attrs.drop_last();
        assert forall|a: int, b: int| 0 <= a < b < shorter.len() implies shorter[a].name@
            != shorter[b].name@ by {
            assert(shorter[a] == attrs[a] && shorter[b] == attrs[b]);
        }
        lemma_attribute_map_update(shorter, i, fresh);
        assert(updated.drop_last() =~= shorter.update(i, fresh));
        assert(updated.last() == attrs.last());
        assert(attrs[i].name@ != attrs.last().name@);
        assert(attribute_map(updated) =~= attribute_map(attrs).insert(
            fresh.name@,
            chunk_views(fresh.values@),
        ));
    }
}

fn put_attribute(attrs: &mut Vec<Attribute>, name: String, values: Vec<Vec<u8>>)
    requires
        distinct_names(old(attrs)@),
    ensures
        distinct_names(final(attrs)@),
        attribute_map(final(attrs)@) == attribute_map(old(attrs)@).insert(
            name@,
            chunk_views(values@),
        ),
{
    let mut i: usize = 0;
    while i < attrs.len()
        invariant
            i <= attrs@.len(),
            attrs@ == old(attrs)@,
            distinct_names(attrs@),
            forall|k: int| 0 <= k < i ==> (#[trigger] attrs@[k]).name@ != name@,
        decreases attrs.len() - i,
    {
        if attrs[i].name == name {
            let fresh = Attribute { name, values };
            proof {
                lemma_attribute_map_update(attrs@, i as int, fresh);
            }
            attrs.set(i, fresh);
            return ;
        }
        i += 1;
    }
    let ghost before = attrs@;
    attrs.push(Attribute { name, values });
    proof {
        assert(attrs@.drop_last() =~= before);
        assert forall|a: int, b: int| 0 <= a < b < attrs@.len() implies attrs@[a].name@
            != attrs@[b].name@ by {
            if b < before.len() {
                assert(attrs@[a] == before[a] && attrs@[b] == before[b]);
            } else {
                assert(attrs@[a] == before[a]);
            }
        }
    }
}

fn construct_attribute(tag: StructureTag) -> (r: Option<(String, Vec<Vec<u8>>)>)
    ensures
        match attribute_of(tag@) {
            Some(pair) => r matches Some(found) && found.0@ == pair.0 && chunk_views(found.1@)
                == pair.1,
            None => r.is_none(),
        },
{
    let ghost value = tag@;
    let inner = match tag.expect_constructed() {
        Some(inner) => inner,
        None => {
            return None;
        },
    };
    if inner.len() != 2 {
        return None;
    }
    let ghost models = views(inner@);
    let mut inner = inner;
    let values = inner.pop().unwrap();
    let key = inner.pop().unwrap();
    assert(values@ == models[1] && key@ == models[0]);
    let keystr = match primitive_text(key) {
        Some(text) => text,
        None => {
            return None;
        },
    };
    proof {
        lemma_view_constructed(values);
    }
    let valuev = match values.expect_constructed() {
        Some(items) => match primitive_values(items) {
            Some(list) => list,
            None => {
                return None;
            },
        },
        None => {
            return None;
        },
    };
    Some((keystr, valuev))
}

/// Reads the attributes of an entry. Nothing is read unless every value has
/// the shape of an attribute. Of two attributes with one description the
/// later replaces the earlier.
pub fn construct_attributes(tags: Vec<StructureTag>) -> (r: Option<Vec<Attribute>>)
    ensures
        match attributes_of(views(tags@), tags@.len() as int) {
            Some(map) => r matches Some(attrs) && distinct_names(attrs@) && attribute_map(attrs@)
                == map,
            None => r.is_none(),
        },
{
    let ghost models = views(tags@);
    let count = tags.len();
    let mut last_first = reversed(tags);
    let mut attrs: Vec<Attribute> = Vec::new();
    let mut done: usize = 0;
    while last_first.len() > 0
        invariant
            models == views(tags@),
            count == models.len(),
            done + last_first@.len() == count,
            forall|k: int|
                0 <= k < last_first@.len() ==> (#[trigger] last_first@[k])@ == models[count - 1
                    - k],
            distinct_names(attrs@),
            attributes_of(models, done as int) == Some(attribute_map(attrs@)),
        decreases last_first.len(),
    {
        let tag = last_first.pop().unwrap();
        assert(tag@ == models[done as int]);
        match construct_attribute(tag) {
            Some((name, values)) => {
                put_attribute(&mut attrs, name, values);
                done += 1;
            },
            None => {
                proof {
                    lemma_attributes_fail(models, done as int, count as int);
                }
                return None;
            },
        }
    }
    Some(attrs)
}

/// Once a value is no attribute, no longer run of the values is a run of attributes.
proof fn lemma_attributes_fail(values: Seq<BerValue>, at: int, n: int)
    requires
        0 <= at < n,
        attribute_of(values[at]).is_none(),
    ensures
        attributes_of(values, n).is_none(),
    decreases n,
{
    if at < n - 1 {
        lemma_attributes_fail(values, at, n - 1);
    }
}

/// Whether what was constructed is what the value stands for: an item, or
/// the error that says why it is none.
pub open spec fn constructed_as(
    r: Result<SearchEntry, LdapError>,
    want: Result<EntryModel, EntryError>,
) -> bool {
    match want {
        Ok(model) => r matches Ok(entry) && entry@ == model,
        Err(EntryError::Protocol) => r matches Err(LdapError::Protocol),
        Err(EntryError::Codec) => r matches Err(LdapError::Codec),
    }
}

impl SearchEntry {
    /// Interprets a response to a search. A value that does not answer a
    /// search is a protocol error; one that has not the shape that its tag
    /// promises is a codec error.
    pub fn construct(tag: Tag) -> (r: Result<SearchEntry, LdapError>)
        ensures
            constructed_as(r, entry_of(tag_structure(tag))),
            r matches Ok(entry) ==> entry.well_formed(),
    {
        let t = tag_into_structure(tag);
        let ghost value = t@;
        if t.class != TagClass::Application {
            return Err(LdapError::Protocol);
        }
        let id = t.id;
        if id != SEARCH_ENTRY && id != SEARCH_REFERENCE && id != SEARCH_DONE {
            return Err(LdapError::Protocol);
        }
        let tags = match t.expect_constructed() {
            Some(tags) => tags,
            None => {
                return Err(LdapError::Codec);
            },
        };
        let ghost models = views(tags@);
        if id == SEARCH_ENTRY {
            if tags.len() != 2 {
                return Err(LdapError::Codec);
            }
            let mut tags = tags;
            let attributes = tags.pop().unwrap();
            let object_name = tags.pop().unwrap();
            assert(attributes@ == models[1] && object_name@ == models[0]);
            let object_name = match primitive_text(object_name) {
                Some(text) => text,
                None => {
                    return Err(LdapError::Codec);
                },
            };
            proof {
                lemma_view_constructed(attributes);
            }
            let attributes = match attributes.expect_constructed() {
                Some(inner) => match construct_attributes(inner) {
                    Some(attrs) => attrs,
                    None => {
                        return Err(LdapError::Codec);
                    },
                },
                None => {
                    return Err(LdapError::Codec);
                },
            };
            Ok(SearchEntry::Object { object_name, attributes })
        } else if id == SEARCH_REFERENCE {
            match text_values(tags) {
                Some(uris) => Ok(SearchEntry::Reference(uris)),
                None => Err(LdapError::Codec),
            }
        } else {
            match parse_result_parts(tags) {
                Some(found) => Ok(SearchEntry::Done(found.0)),
                None => Err(LdapError::Codec),
            }
        }
    }
}

} // verus!
