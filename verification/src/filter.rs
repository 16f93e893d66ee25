//! The textual search filter and the tree of tagged values that it denotes.
//!
//! A filter is written as
//!
//! ```text
//! filter  = "(" ( "&" 1*filter / "|" 1*filter / "!" filter / item ) ")"
//! item    = attr "=" value                      ; equality
//!         / attr "=*"                           ; presence
//!         / attr "=" [value] 1*( "*" [value] )  ; substrings
//!         / attr ( "~=" / ">=" / "<=" ) value   ; approximate, ordering
//!         / [attr] [":dn"] [":" rule] ":=" value; extensible, with attr or rule
//! attr    = ( ALPHA / DIGIT ) *( ALPHA / DIGIT / "-" / "." / ";" )
//! rule    = attr
//! value   = *( octet / "\" HEX HEX )
//! ```
//!
//! where an `octet` of a value is any octet but NUL, `(`, `)`, `*` and `\`.
//! At the top level a lone item may stand without its parentheses.

use vstd::prelude::*;
use vstd::string::StringSliceAdditionalSpecFns;
use crate::common::TagClass;
use crate::structure::{copy_range, BerPayload, BerValue};
use crate::structures::explicit::ExplicitTag;
use crate::structures::octetstring::OctetString;
use crate::structures::sequence::Sequence;
use crate::structures::{lemma_tag_structures, reversed, tag_structure, tag_structures, Tag};

verus! {

pub const OPEN: u8 = 0x28;

pub const CLOSE: u8 = 0x29;

pub const STAR: u8 = 0x2a;

pub const BACKSLASH: u8 = 0x5c;

pub const AMPERSAND: u8 = 0x26;

pub const BAR: u8 = 0x7c;

pub const BANG: u8 = 0x21;

pub const EQUALS: u8 = 0x3d;

pub const TILDE: u8 = 0x7e;

pub const GREATER: u8 = 0x3e;

pub const LESS: u8 = 0x3c;

pub const COLON: u8 = 0x3a;

pub const LOWER_D: u8 = 0x64;

pub const LOWER_N: u8 = 0x6e;

/// Tag numbers of the filter alternatives, all of the context class.
pub const AND_FILT: u64 = 0;

pub const OR_FILT: u64 = 1;

pub const NOT_FILT: u64 = 2;

pub const EQ_MATCH: u64 = 3;

pub const SUBSTR_MATCH: u64 = 4;

pub const GTE_MATCH: u64 = 5;

pub const LTE_MATCH: u64 = 6;

pub const PRES_MATCH: u64 = 7;

pub const APPROX_MATCH: u64 = 8;

pub const EXT_MATCH: u64 = 9;

/// Tag numbers inside a substring filter.
pub const SUB_INITIAL: u64 = 0;

pub const SUB_ANY: u64 = 1;

pub const SUB_FINAL: u64 = 2;

/// Tag numbers inside an extensible match.
pub const EXT_RULE: u64 = 1;

pub const EXT_TYPE: u64 = 2;

pub const EXT_VALUE: u64 = 3;

pub const EXT_DN: u64 = 4;

/// Why a text is no filter.
#[derive(Clone, Copy, PartialEq, Eq, Debug, Structural)]
pub enum Reason {
    /// The text ends where the filter goes on.
    UnexpectedEnd,
    /// A filter must begin with `(` here.
    ExpectedOpen,
    /// A filter must end with `)` here.
    ExpectedClose,
    /// No attribute description or matching rule stands here.
    BadAttribute,
    /// No comparison operator stands here.
    BadOperator,
    /// A backslash is not followed by two hexadecimal digits.
    BadEscape,
    /// A reserved octet stands unescaped in a value.
    Reserved,
    /// Text follows the end of the filter.
    Trailing,
}

/// Where and why parsing stopped.
#[derive(Clone, Copy, PartialEq, Eq, Debug, Structural)]
pub struct ParseError {
    pub position: usize,
    pub reason: Reason,
}

/// Outcome of reading one piece of a filter at a position of the text.
pub enum Parse<T> {
    Read { value: T, next: int },
    Fail { position: int, reason: Reason },
}

pub open spec fn is_alpha(c: u8) -> bool {
    (0x41 <= c <= 0x5a) || (0x61 <= c <= 0x7a)
}

pub open spec fn is_digit(c: u8) -> bool {
    0x30 <= c <= 0x39
}

/// Octets with which an attribute description may begin.
pub open spec fn is_attr_start(c: u8) -> bool {
    is_alpha(c) || is_digit(c)
}

/// Octets of which an attribute description is made: letters, digits,
/// hyphen, dot and semicolon.
pub open spec fn is_attr_char(c: u8) -> bool {
    is_alpha(c) || is_digit(c) || c == 0x2d || c == 0x2e || c == 0x3b
}

pub open spec fn is_hex(c: u8) -> bool {
    is_digit(c) || (0x41 <= c <= 0x46) || (0x61 <= c <= 0x66)
}

/// The number that a hexadecimal digit stands for.
pub open spec fn hex_value(c: u8) -> int {
    if is_digit(c) {
        c - 0x30
    } else if 0x41 <= c <= 0x46 {
        c - 0x41 + 10
    } else {
        c - 0x61 + 10
    }
}

/// The position behind the attribute octets that begin at `i`.
pub open spec fn attr_end(s: Seq<u8>, i: int) -> int
    decreases s.len() - i,
{
    if 0 <= i < s.len() && is_attr_char(s[i]) {
        attr_end(s, i + 1)
    } else {
        i
    }
}

/// A primitive value.
pub open spec fn leaf(class: TagClass, id: u64, octets: Seq<u8>) -> BerValue {
    BerValue { class, id, payload: BerPayload::Primitive(octets) }
}

/// A constructed value.
pub open spec fn node(class: TagClass, id: u64, values: Seq<BerValue>) -> BerValue {
    BerValue { class, id, payload: BerPayload::Constructed(values) }
}

/// An octet string of the universal class.
pub open spec fn octet_string(octets: Seq<u8>) -> BerValue {
    leaf(TagClass::Universal, crate::universal::OCTET_STRING, octets)
}

/// Reads value octets from `i`, behind the octets `acc`, up to the next
/// `)` or `*` or the end of the text, undoing the escapes.
pub open spec fn chunk_at(s: Seq<u8>, i: int, acc: Seq<u8>) -> Parse<Seq<u8>>
    decreases s.len() - i,
{
    if i < 0 || i >= s.len() {
        Parse::Read { value: acc, next: i }
    } else if s[i] == CLOSE || s[i] == STAR {
        Parse::Read { value: acc, next: i }
    } else if s[i] == OPEN || s[i] == 0 {
        Parse::Fail { position: i, reason: Reason::Reserved }
    } else if s[i] == BACKSLASH {
        if i + 2 < s.len() && is_hex(s[i + 1]) && is_hex(s[i + 2]) {
            chunk_at(s, i + 3, acc.push((hex_value(s[i + 1]) * 16 + hex_value(s[i + 2])) as u8))
        } else {
            Parse::Fail { position: i, reason: Reason::BadEscape }
        }
    } else {
        chunk_at(s, i + 1, acc.push(s[i]))
    }
}

/// Reads the runs of value octets that the stars from `i` on separate.
pub open spec fn chunks_at(s: Seq<u8>, i: int) -> Parse<Seq<Seq<u8>>>
    decreases s.len() - i,
{
    match chunk_at(s, i, Seq::empty()) {
        Parse::Fail { position, reason } => Parse::Fail { position, reason },
        Parse::Read { value, next } => if i <= next < s.len() && s[next] == STAR {
            match chunks_at(s, next + 1) {
                Parse::Fail { position, reason } => Parse::Fail { position, reason },
                Parse::Read { value: rest, next: end } => Parse::Read {
                    value: seq![value] + rest,
                    next: end,
                },
            }
        } else {
            Parse::Read { value: seq![value], next }
        },
    }
}

/// A value that must hold no star: for every comparison but `=`.
pub open spec fn plain_value_at(s: Seq<u8>, i: int) -> Parse<Seq<u8>> {
    match chunk_at(s, i, Seq::empty()) {
        Parse::Fail { position, reason } => Parse::Fail { position, reason },
        Parse::Read { value, next } => if 0 <= next < s.len() && s[next] == STAR {
            Parse::Fail { position: next, reason: Reason::Reserved }
        } else {
            Parse::Read { value, next }
        },
    }
}

/// A comparison of an attribute with a value.
pub open spec fn comparison(id: u64, attr: Seq<u8>, value: Seq<u8>) -> BerValue {
    node(TagClass::Context, id, seq![octet_string(attr), octet_string(value)])
}

/// The middle runs, each as an `any` part.
pub open spec fn any_parts(chunks: Seq<Seq<u8>>) -> Seq<BerValue> {
    Seq::new(
        (chunks.len() - 2) as nat,
        |k: int| leaf(TagClass::Context, SUB_ANY, chunks[k + 1]),
    )
}

/// The parts of a substring filter: the first run, if it is not empty, as
/// `initial`, the middle runs as `any`, the last, if not empty, as `final`.
pub open spec fn substring_parts(chunks: Seq<Seq<u8>>) -> Seq<BerValue> {
    let first = chunks[0];
    let last = chunks[chunks.len() - 1];
    let head = if first.len() > 0 {
        seq![leaf(TagClass::Context, SUB_INITIAL, first)]
    } else {
        Seq::empty()
    };
    let tail = if last.len() > 0 {
        seq![leaf(TagClass::Context, SUB_FINAL, last)]
    } else {
        Seq::empty()
    };
    head + any_parts(chunks) + tail
}

/// What `attr=...` denotes, by the runs that the stars separate: without a
/// star an equality, with a lone star a presence test, else a substring filter.
pub open spec fn equality_like(attr: Seq<u8>, chunks: Seq<Seq<u8>>) -> BerValue {
    if chunks.len() == 1 {
        comparison(EQ_MATCH, attr, chunks[0])
    } else if chunks.len() == 2 && chunks[0].len() == 0 && chunks[1].len() == 0 {
        leaf(TagClass::Context, PRES_MATCH, attr)
    } else {
        node(
            TagClass::Context,
            SUBSTR_MATCH,
            seq![
                octet_string(attr),
                node(TagClass::Universal, crate::universal::SEQUENCE, substring_parts(chunks)),
            ],
        )
    }
}

/// An extensible match: the rule, the attribute, the value and the mark that
/// the attributes of the name take part, the optional ones only if given.
pub open spec fn extensible(
    rule: Option<Seq<u8>>,
    attr: Seq<u8>,
    value: Seq<u8>,
    dn: bool,
) -> BerValue {
    let rule_part = match rule {
        Some(r) => seq![leaf(TagClass::Context, EXT_RULE, r)],
        None => Seq::empty(),
    };
    let attr_part = if attr.len() > 0 {
        seq![leaf(TagClass::Context, EXT_TYPE, attr)]
    } else {
        Seq::empty()
    };
    let dn_part = if dn {
        seq![leaf(TagClass::Context, EXT_DN, seq![0xffu8])]
    } else {
        Seq::empty()
    };
    node(
        TagClass::Context,
        EXT_MATCH,
        rule_part + attr_part + seq![leaf(TagClass::Context, EXT_VALUE, value)] + dn_part,
    )
}

/// Whether `:dn:` stands at `i`.
pub open spec fn dn_mark_at(s: Seq<u8>, i: int) -> bool {
    i + 3 < s.len() && s[i] == COLON && s[i + 1] == LOWER_D && s[i + 2] == LOWER_N && s[i + 3]
        == COLON
}

/// Reads the rest of an extensible match from the colon at `i`.
pub open spec fn extensible_at(s: Seq<u8>, i: int, attr: Seq<u8>) -> Parse<BerValue> {
    let dn = dn_mark_at(s, i);
    let at = if dn { i + 3 } else { i };
    if at + 1 < s.len() && s[at + 1] == EQUALS {
        if attr.len() == 0 {
            Parse::Fail { position: at, reason: Reason::BadAttribute }
        } else {
            match plain_value_at(s, at + 2) {
                Parse::Fail { position, reason } => Parse::Fail { position, reason },
                Parse::Read { value, next } => Parse::Read {
                    value: extensible(None, attr, value, dn),
                    next,
                },
            }
        }
    } else if at + 1 < s.len() && is_attr_start(s[at + 1]) {
        let rule_end = attr_end(s, at + 1);
        if rule_end + 1 < s.len() && s[rule_end] == COLON && s[rule_end + 1] == EQUALS {
            match plain_value_at(s, rule_end + 2) {
                Parse::Fail { position, reason } => Parse::Fail { position, reason },
                Parse::Read { value, next } => Parse::Read {
                    value: extensible(Some(s.subrange(at + 1, rule_end)), attr, value, dn),
                    next,
                },
            }
        } else {
            Parse::Fail { position: rule_end, reason: Reason::BadOperator }
        }
    } else {
        Parse::Fail { position: at + 1, reason: Reason::BadAttribute }
    }
}

/// Reads an item at `i`.
pub open spec fn item_at(s: Seq<u8>, i: int) -> Parse<BerValue> {
    let end = if 0 <= i < s.len() && is_attr_start(s[i]) {
        attr_end(s, i)
    } else {
        i
    };
    let attr = s.subrange(i, end);
    if end >= s.len() {
        Parse::Fail { position: end, reason: Reason::UnexpectedEnd }
    } else if s[end] == COLON {
        extensible_at(s, end, attr)
    } else if end == i {
        Parse::Fail { position: i, reason: Reason::BadAttribute }
    } else if s[end] == EQUALS {
        match chunks_at(s, end + 1) {
            Parse::Fail { position, reason } => Parse::Fail { position, reason },
            Parse::Read { value, next } => Parse::Read { value: equality_like(attr, value), next },
        }
    } else if (s[end] == TILDE || s[end] == GREATER || s[end] == LESS) && end + 1 < s.len()
        && s[end + 1] == EQUALS {
        let id = if s[end] == TILDE {
            APPROX_MATCH
        } else if s[end] == GREATER {
            GTE_MATCH
        } else {
            LTE_MATCH
        };
        match plain_value_at(s, end + 2) {
            Parse::Fail { position, reason } => Parse::Fail { position, reason },
            Parse::Read { value, next } => Parse::Read { value: comparison(id, attr, value), next },
        }
    } else {
        Parse::Fail { position: end, reason: Reason::BadOperator }
    }
}

/// Reads a parenthesized filter at `i`.
pub open spec fn filter_at(s: Seq<u8>, i: int) -> Parse<BerValue>
    decreases s.len() - i, 0nat,
{
    if i < 0 || i >= s.len() {
        Parse::Fail { position: i, reason: Reason::UnexpectedEnd }
    } else if s[i] != OPEN {
        Parse::Fail { position: i, reason: Reason::ExpectedOpen }
    } else {
        let inner = if i + 1 < s.len() && (s[i + 1] == AMPERSAND || s[i + 1] == BAR) {
            match list_at(s, i + 2) {
                Parse::Fail { position, reason } => Parse::Fail { position, reason },
                Parse::Read { value, next } => Parse::Read {
                    value: node(
                        TagClass::Context,
                        if s[i + 1] == AMPERSAND {
                            AND_FILT
                        } else {
                            OR_FILT
                        },
                        value,
                    ),
                    next,
                },
            }
        } else if i + 1 < s.len() && s[i + 1] == BANG {
            match filter_at(s, i + 2) {
                Parse::Fail { position, reason } => Parse::Fail { position, reason },
                Parse::Read { value, next } => Parse::Read {
                    value: node(TagClass::Context, NOT_FILT, seq![value]),
                    next,
                },
            }
        } else {
            item_at(s, i + 1)
        };
        match inner {
            Parse::Fail { position, reason } => Parse::Fail { position, reason },
            Parse::Read { value, next } => if next >= s.len() {
                Parse::Fail { position: next, reason: Reason::UnexpectedEnd }
            } else if s[next] != CLOSE {
                Parse::Fail { position: next, reason: Reason::ExpectedClose }
            } else {
                Parse::Read { value, next: next + 1 }
            },
        }
    }
}

/// Reads one filter at `i` and those that follow it without a gap.
pub open spec fn list_at(s: Seq<u8>, i: int) -> Parse<Seq<BerValue>>
    decreases s.len() - i, 1nat,
{
    match filter_at(s, i) {
        Parse::Fail { position, reason } => Parse::Fail { position, reason },
        Parse::Read { value, next } => if i < next < s.len() && s[next] == OPEN {
            match list_at(s, next) {
                Parse::Fail { position, reason } => Parse::Fail { position, reason },
                Parse::Read { value: rest, next: end } => Parse::Read {
                    value: seq![value] + rest,
                    next: end,
                },
            }
        } else {
            Parse::Read { value: seq![value], next }
        },
    }
}

/// What a whole text denotes: a parenthesized filter, or a lone item, and
/// nothing behind it.
pub open spec fn filter_of(s: Seq<u8>) -> Parse<BerValue> {
    let whole = if s.len() > 0 && s[0] == OPEN {
        filter_at(s, 0)
    } else {
        item_at(s, 0)
    };
    match whole {
        Parse::Fail { position, reason } => Parse::Fail { position, reason },
        Parse::Read { value, next } => if next == s.len() {
            Parse::Read { value, next }
        } else {
            Parse::Fail { position: next, reason: Reason::Trailing }
        },
    }
}

/// The octets of each run.
pub open spec fn chunk_views(chunks: Seq<Vec<u8>>) -> Seq<Seq<u8>> {
    Seq::new(chunks.len(), |k: int| chunks[k]@)
}

/// Whether a reader of octets returned what the text reads as.
pub open spec fn read_octets(r: Result<(Vec<u8>, usize), ParseError>, p: Parse<Seq<u8>>) -> bool {
    match p {
        Parse::Read { value, next } => r matches Ok(found) && found.0@ == value && found.1
            == next,
        Parse::Fail { position, reason } => r matches Err(e) && e.position == position
            && e.reason == reason,
    }
}

/// Whether a reader of runs returned what the text reads as.
pub open spec fn read_runs(
    r: Result<(Vec<Vec<u8>>, usize), ParseError>,
    p: Parse<Seq<Seq<u8>>>,
) -> bool {
    match p {
        Parse::Read { value, next } => r matches Ok(found) && chunk_views(found.0@) == value
            && found.1 == next,
        Parse::Fail { position, reason } => r matches Err(e) && e.position == position
            && e.reason == reason,
    }
}

/// Whether a reader of one filter returned what the text reads as.
pub open spec fn read_tag(r: Result<(Tag, usize), ParseError>, p: Parse<BerValue>) -> bool {
    match p {
        Parse::Read { value, next } => r matches Ok(found) && tag_structure(found.0) == value
            && found.1 == next,
        Parse::Fail { position, reason } => r matches Err(e) && e.position == position
            && e.reason == reason,
    }
}

/// Whether a reader of a list of filters returned what the text reads as.
pub open spec fn read_tags(r: Result<(Vec<Tag>, usize), ParseError>, p: Parse<Seq<BerValue>>) -> bool {
    match p {
        Parse::Read { value, next } => r matches Ok(found) && tag_structures(found.0@) == value
            && found.1 == next,
        Parse::Fail { position, reason } => r matches Err(e) && e.position == position
            && e.reason == reason,
    }
}

/// Whether the reader stayed between `from` and the end of the text.
pub open spec fn within<T>(r: Result<(T, usize), ParseError>, from: usize, len: usize) -> bool {
    match r {
        Ok(found) => from <= found.1 <= len,
        Err(e) => from <= e.position <= len,
    }
}

fn attr_start(c: u8) -> (r: bool)
    ensures
        r == is_attr_start(c),
{
    (0x41 <= c && c <= 0x5a) || (0x61 <= c && c <= 0x7a) || (0x30 <= c && c <= 0x39)
}

fn attr_char(c: u8) -> (r: bool)
    ensures
        r == is_attr_char(c),
{
    attr_start(c) || c == 0x2d || c == 0x2e || c == 0x3b
}

/// The number that a hexadecimal digit stands for.
pub fn hex_digit(c: u8) -> (r: Option<u8>)
    ensures
        r.is_some() == is_hex(c),
        r matches Some(v) ==> v == hex_value(c) && v < 16,
{
    if 0x30 <= c && c <= 0x39 {
        Some(c - 0x30)
    } else if 0x41 <= c && c <= 0x46 {
        Some(c - 0x41 + 10)
    } else if 0x61 <= c && c <= 0x66 {
        Some(c - 0x61 + 10)
    } else {
        None
    }
}

fn read_attr_end(s: &[u8], i: usize) -> (end: usize)
    requires
        i <= s.len(),
    ensures
        end == attr_end(s@, i as int),
        i <= end <= s.len(),
{
    let mut k: usize = i;
    while k < s.len() && attr_char(s[k])
        invariant
            i <= k <= s.len(),
            attr_end(s@, i as int) == attr_end(s@, k as int),
        decreases s.len() - k,
    {
        k += 1;
    }
    k
}

fn read_chunk(s: &[u8], i: usize) -> (r: Result<(Vec<u8>, usize), ParseError>)
    requires
        i <= s.len(),
    ensures
        read_octets(r, chunk_at(s@, i as int, Seq::empty())),
        within(r, i, s.len()),
{
    let mut acc: Vec<u8> = Vec::new();
    let mut k: usize = i;
    while k < s.len()
        invariant
            i <= k <= s.len(),
            chunk_at(s@, i as int, Seq::empty()) == chunk_at(s@, k as int, acc@),
        decreases s.len() - k,
    {
        let c = s[k];
        if c == CLOSE || c == STAR {
            return Ok((acc, k));
        }
        if c == OPEN || c == 0 {
            return Err(ParseError { position: k, reason: Reason::Reserved });
        }
        if c == BACKSLASH {
            if s.len() - k <= 2 {
                return Err(ParseError { position: k, reason: Reason::BadEscape });
            }
            match (hex_digit(s[k + 1]), hex_digit(s[k + 2])) {
                (Some(high), Some(low)) => {
                    acc.push(high * 16 + low);
                    k += 3;
                },
                _ => {
                    return Err(ParseError { position: k, reason: Reason::BadEscape });
                },
            }
        } else {
            acc.push(c);
            k += 1;
        }
    }
    Ok((acc, k))
}

/// The outcome of reading the rest of the runs, with the runs read before it in front.
pub open spec fn behind_runs(front: Seq<Seq<u8>>, p: Parse<Seq<Seq<u8>>>) -> Parse<Seq<Seq<u8>>> {
    match p {
        Parse::Read { value, next } => Parse::Read { value: front + value, next },
        Parse::Fail { position, reason } => Parse::Fail { position, reason },
    }
}

fn read_chunks(s: &[u8], i: usize) -> (r: Result<(Vec<Vec<u8>>, usize), ParseError>)
    requires
        i <= s.len(),
    ensures
        read_runs(r, chunks_at(s@, i as int)),
        within(r, i, s.len()),
        r matches Ok(found) ==> found.0@.len() >= 1,
{
    let mut runs: Vec<Vec<u8>> = Vec::new();
    let mut k: usize = i;
    loop
        invariant
            i <= k <= s.len(),
            chunks_at(s@, i as int) == behind_runs(chunk_views(runs@), chunks_at(s@, k as int)),
        decreases s.len() - k,
    {
        let (run, next) = match read_chunk(s, k) {
            Ok(found) => found,
            Err(e) => {
                return Err(e);
            },
        };
        let ghost before = chunk_views(runs@);
        runs.push(run);
        proof {
            assert(chunk_views(runs@) =~= before + seq![run@]);
        }
        if next < s.len() && s[next] == STAR {
            proof {
                match chunks_at(s@, next + 1) {
                    Parse::Read { value: rest, next: end } => {
                        assert(before + (seq![run@] + rest) =~= chunk_views(runs@) + rest);
                    },
                    Parse::Fail { .. } => {},
                }
            }
            k = next + 1;
        } else {
            return Ok((runs, next));
        }
    }
}

fn read_plain_value(s: &[u8], i: usize) -> (r: Result<(Vec<u8>, usize), ParseError>)
    requires
        i <= s.len(),
    ensures
        read_octets(r, plain_value_at(s@, i as int)),
        within(r, i, s.len()),
{
    let (value, next) = match read_chunk(s, i) {
        Ok(found) => found,
        Err(e) => {
            return Err(e);
        },
    };
    if next < s.len() && s[next] == STAR {
        Err(ParseError { position: next, reason: Reason::Reserved })
    } else {
        Ok((value, next))
    }
}

/// An octet string of the universal class.
pub fn universal_octets(octets: Vec<u8>) -> (r: Tag)
    ensures
        tag_structure(r) == octet_string(octets@),
{
    Tag::OctetString(
        OctetString {
            id: crate::universal::OCTET_STRING,
            class: TagClass::Universal,
            inner: octets,
        },
    )
}

/// A primitive value of the context class.
pub fn context_octets(id: u64, octets: Vec<u8>) -> (r: Tag)
    ensures
        tag_structure(r) == leaf(TagClass::Context, id, octets@),
{
    Tag::OctetString(OctetString { id, class: TagClass::Context, inner: octets })
}

fn build_comparison(id: u64, attr: Vec<u8>, value: Vec<u8>) -> (r: Tag)
    ensures
        tag_structure(r) == comparison(id, attr@, value@),
{
    let mut inner: Vec<Tag> = Vec::new();
    inner.push(universal_octets(attr));
    inner.push(universal_octets(value));
    proof {
        lemma_tag_structures(inner@);
        assert(tag_structures(inner@) =~= seq![octet_string(attr@), octet_string(value@)]);
    }
    Tag::Sequence(Sequence { id, class: TagClass::Context, inner })
}

fn build_substring_parts(chunks: Vec<Vec<u8>>) -> (parts: Vec<Tag>)
    requires
        chunks@.len() >= 2,
    ensures
        tag_structures(parts@) == substring_parts(chunk_views(chunks@)),
{
    let ghost runs = chunk_views(chunks@);
    let count = chunks.len();
    let mut last_first = reversed(chunks);
    let mut parts: Vec<Tag> = Vec::new();
    let first = last_first.pop().unwrap();
    assert(first@ == runs[0]);
    if first.len() > 0 {
        parts.push(context_octets(SUB_INITIAL, first));
    }
    let ghost head = parts@.len();
    let mut done: usize = 0;
    while last_first.len() > 1
        invariant
            count == runs.len(),
            count >= 2,
            done + 1 + last_first@.len() == count,
            last_first@.len() >= 1,
            head <= 1,
            head == (if runs[0].len() > 0 { 1nat } else { 0nat }),
            parts@.len() == head + done,
            head == 1 ==> tag_structure(parts@[0]) == leaf(TagClass::Context, SUB_INITIAL, runs[0]),
            forall|k: int|
                0 <= k < done ==> tag_structure(#[trigger] parts@[head + k]) == leaf(
                    TagClass::Context,
                    SUB_ANY,
                    runs[k + 1],
                ),
            forall|k: int|
                0 <= k < last_first@.len() ==> (#[trigger] last_first@[k])@ == runs[count - 1 - k],
        decreases last_first.len(),
    {
        let ghost at = last_first@.len() - 1;
        let middle = last_first.pop().unwrap();
        assert(middle@ == runs[count - 1 - at]);
        parts.push(context_octets(SUB_ANY, middle));
        done += 1;
    }
    let last = last_first.pop().unwrap();
    assert(last@ == runs[count - 1]);
    let ghost before = parts@;
    if last.len() > 0 {
        parts.push(context_octets(SUB_FINAL, last));
    }
    proof {
        lemma_tag_structures(parts@);
        let want = substring_parts(runs);
        assert(any_parts(runs).len() == done);
        assert(want.len() == parts@.len());
        assert forall|k: int| 0 <= k < want.len() implies tag_structures(parts@)[k] == want[k] by {
            if k < head {
                assert(parts@[k] == before[k]);
            } else if k < head + done {
                assert(parts@[k] == before[head + (k - head)]);
                assert(want[k] == any_parts(runs)[k - head]);
            } else {
            }
        }
        assert(tag_structures(parts@) =~= want);
    }
    parts
}

fn build_equality_like(attr: Vec<u8>, chunks: Vec<Vec<u8>>) -> (r: Tag)
    requires
        chunks@.len() >= 1,
    ensures
        tag_structure(r) == equality_like(attr@, chunk_views(chunks@)),
{
    let mut chunks = chunks;
    let ghost runs = chunk_views(chunks@);
    if chunks.len() == 1 {
        let value = chunks.pop().unwrap();
        assert(value@ == runs[0]);
        build_comparison(EQ_MATCH, attr, value)
    } else if chunks.len() == 2 && chunks[0].len() == 0 && chunks[1].len() == 0 {
        assert(runs[0] == chunks@[0]@ && runs[1] == chunks@[1]@);
        context_octets(PRES_MATCH, attr)
    } else {
        assert(runs[0] == chunks@[0]@ && runs[1] == chunks@[1]@);
        let parts = build_substring_parts(chunks);
        let mut inner: Vec<Tag> = Vec::new();
        inner.push(universal_octets(attr));
        inner.push(
            Tag::Sequence(
                Sequence {
                    id: crate::universal::SEQUENCE,
                    class: TagClass::Universal,
                    inner: parts,
                },
            ),
        );
        proof {
            lemma_tag_structures(inner@);
            assert(tag_structures(inner@) =~= seq![
                octet_string(attr@),
                node(TagClass::Universal, crate::universal::SEQUENCE, substring_parts(runs)),
            ]);
        }
        Tag::Sequence(Sequence { id: SUBSTR_MATCH, class: TagClass::Context, inner })
    }
}

/// The octets of an optional run.
pub open spec fn optional_octets(octets: Option<Vec<u8>>) -> Option<Seq<u8>> {
    match octets {
        Some(v) => Some(v@),
        None => None,
    }
}

fn build_extensible(rule: Option<Vec<u8>>, attr: Vec<u8>, value: Vec<u8>, dn: bool) -> (r: Tag)
    ensures
        tag_structure(r) == extensible(optional_octets(rule), attr@, value@, dn),
{
    let ghost rule_octets = optional_octets(rule);
    let mut inner: Vec<Tag> = Vec::new();
    match rule {
        Some(octets) => {
            inner.push(context_octets(EXT_RULE, octets));
        },
        None => {},
    }
    if attr.len() > 0 {
        inner.push(context_octets(EXT_TYPE, attr));
    }
    inner.push(context_octets(EXT_VALUE, value));
    if dn {
        let mut mark: Vec<u8> = Vec::new();
        mark.push(0xff);
        assert(mark@ =~= seq![0xffu8]);
        inner.push(context_octets(EXT_DN, mark));
    }
    let r = Tag::Sequence(Sequence { id: EXT_MATCH, class: TagClass::Context, inner });
    proof {
        lemma_tag_structures(inner@);
        let want = extensible(rule_octets, attr@, value@, dn);
        assert(tag_structures(inner@) =~= want.payload->Constructed_0);
    }
    r
}

fn dn_mark(s: &[u8], i: usize) -> (r: bool)
    requires
        i < s.len(),
    ensures
        r == dn_mark_at(s@, i as int),
{
    s.len() - i > 3 && s[i] == COLON && s[i + 1] == LOWER_D && s[i + 2] == LOWER_N && s[i + 3]
        == COLON
}

fn read_extensible(s: &[u8], i: usize, attr: Vec<u8>) -> (r: Result<(Tag, usize), ParseError>)
    requires
        i < s.len(),
    ensures
        read_tag(r, extensible_at(s@, i as int, attr@)),
        within(r, i, s.len()),
{
    let dn = dn_mark(s, i);
    let at: usize = if dn { i + 3 } else { i };
    if s.len() - at > 1 && s[at + 1] == EQUALS {
        if attr.len() == 0 {
            return Err(ParseError { position: at, reason: Reason::BadAttribute });
        }
        match read_plain_value(s, at + 2) {
            Ok((value, next)) => Ok((build_extensible(None, attr, value, dn), next)),
            Err(e) => Err(e),
        }
    } else if s.len() - at > 1 && attr_start(s[at + 1]) {
        let rule_end = read_attr_end(s, at + 1);
        if s.len() - rule_end > 1 && s[rule_end] == COLON && s[rule_end + 1] == EQUALS {
            let rule = copy_range(s, at + 1, rule_end);
            match read_plain_value(s, rule_end + 2) {
                Ok((value, next)) => Ok((build_extensible(Some(rule), attr, value, dn), next)),
                Err(e) => Err(e),
            }
        } else {
            Err(ParseError { position: rule_end, reason: Reason::BadOperator })
        }
    } else {
        Err(ParseError { position: at + 1, reason: Reason::BadAttribute })
    }
}

fn read_item(s: &[u8], i: usize) -> (r: Result<(Tag, usize), ParseError>)
    requires
        i <= s.len(),
    ensures
        read_tag(r, item_at(s@, i as int)),
        within(r, i, s.len()),
{
    let end: usize = if i < s.len() && attr_start(s[i]) {
        read_attr_end(s, i)
    } else {
        i
    };
    if end >= s.len() {
        return Err(ParseError { position: end, reason: Reason::UnexpectedEnd });
    }
    let attr = copy_range(s, i, end);
    let c = s[end];
    if c == COLON {
        read_extensible(s, end, attr)
    } else if end == i {
        Err(ParseError { position: i, reason: Reason::BadAttribute })
    } else if c == EQUALS {
        match read_chunks(s, end + 1) {
            Ok((chunks, next)) => Ok((build_equality_like(attr, chunks), next)),
            Err(e) => Err(e),
        }
    } else if (c == TILDE || c == GREATER || c == LESS) && s.len() - end > 1 && s[end + 1]
        == EQUALS {
        let id = if c == TILDE {
            APPROX_MATCH
        } else if c == GREATER {
            GTE_MATCH
        } else {
            LTE_MATCH
        };
        match read_plain_value(s, end + 2) {
            Ok((value, next)) => Ok((build_comparison(id, attr, value), next)),
            Err(e) => Err(e),
        }
    } else {
        Err(ParseError { position: end, reason: Reason::BadOperator })
    }
}

fn read_filter(s: &[u8], i: usize) -> (r: Result<(Tag, usize), ParseError>)
    requires
        i <= s.len(),
    ensures
        read_tag(r, filter_at(s@, i as int)),
        within(r, i, s.len()),
        r matches Ok(found) ==> i < found.1,
    decreases s.len() - i, 0nat,
{
    if i >= s.len() {
        return Err(ParseError { position: i, reason: Reason::UnexpectedEnd });
    }
    if s[i] != OPEN {
        return Err(ParseError { position: i, reason: Reason::ExpectedOpen });
    }
    let inner = if s.len() - i > 1 && (s[i + 1] == AMPERSAND || s[i + 1] == BAR) {
        match read_list(s, i + 2) {
            Ok((filters, next)) => {
                let id = if s[i + 1] == AMPERSAND {
                    AND_FILT
                } else {
                    OR_FILT
                };
                Ok((Tag::Sequence(Sequence { id, class: TagClass::Context, inner: filters }), next))
            },
            Err(e) => Err(e),
        }
    } else if s.len() - i > 1 && s[i + 1] == BANG {
        match read_filter(s, i + 2) {
            Ok((filter, next)) => Ok(
                (
                    Tag::ExplicitTag(
                        ExplicitTag {
                            id: NOT_FILT,
                            class: TagClass::Context,
                            inner: Box::new(filter),
                        },
                    ),
                    next,
                ),
            ),
            Err(e) => Err(e),
        }
    } else {
        read_item(s, i + 1)
    };
    match inner {
        Ok((filter, next)) => {
            if next >= s.len() {
                Err(ParseError { position: next, reason: Reason::UnexpectedEnd })
            } else if s[next] != CLOSE {
                Err(ParseError { position: next, reason: Reason::ExpectedClose })
            } else {
                Ok((filter, next + 1))
            }
        },
        Err(e) => Err(e),
    }
}

/// The outcome of reading the rest of a list, with the filters read before it in front.
pub open spec fn behind_filters(front: Seq<BerValue>, p: Parse<Seq<BerValue>>) -> Parse<
    Seq<BerValue>,
> {
    match p {
        Parse::Read { value, next } => Parse::Read { value: front + value, next },
        Parse::Fail { position, reason } => Parse::Fail { position, reason },
    }
}

fn read_list(s: &[u8], i: usize) -> (r: Result<(Vec<Tag>, usize), ParseError>)
    requires
        i <= s.len(),
    ensures
        read_tags(r, list_at(s@, i as int)),
        within(r, i, s.len()),
    decreases s.len() - i, 1nat,
{
    let mut filters: Vec<Tag> = Vec::new();
    let mut k: usize = i;
    loop
        invariant
            i <= k <= s.len(),
            list_at(s@, i as int) == behind_filters(
                tag_structures(filters@),
                list_at(s@, k as int),
            ),
        decreases s.len() - k,
    {
        let (filter, next) = match read_filter(s, k) {
            Ok(found) => found,
            Err(e) => {
                return Err(e);
            },
        };
        let ghost earlier = filters@;
        let ghost before = tag_structures(filters@);
        filters.push(filter);
        proof {
            assert(filters@.drop_last() =~= earlier);
            assert(tag_structures(filters@) =~= before + seq![tag_structure(filter)]);
        }
        if next < s.len() && s[next] == OPEN {
            proof {
                match list_at(s@, next as int) {
                    Parse::Read { value: rest, next: end } => {
                        assert(before + (seq![tag_structure(filter)] + rest) =~= tag_structures(
                            filters@,
                        ) + rest);
                    },
                    Parse::Fail { .. } => {},
                }
            }
            k = next;
        } else {
            return Ok((filters, next));
        }
    }
}

/// Parses the octets of a filter text.
pub fn parse_octets(s: &[u8]) -> (r: Result<Tag, ParseError>)
    ensures
        match filter_of(s@) {
            Parse::Read { value, .. } => r matches Ok(tag) && tag_structure(tag) == value,
            Parse::Fail { position, reason } => r matches Err(e) && e.position == position
                && e.reason == reason,
        },
{
    let whole = if s.len() > 0 && s[0] == OPEN {
        read_filter(s, 0)
    } else {
        read_item(s, 0)
    };
    match whole {
        Ok((tag, next)) => {
            if next == s.len() {
                Ok(tag)
            } else {
                Err(ParseError { position: next, reason: Reason::Trailing })
            }
        },
        Err(e) => Err(e),
    }
}

/// Parses a filter text into the tree of tagged values that it denotes.
pub fn parse(input: &str) -> (r: Result<Tag, ParseError>)
    ensures
        match filter_of(input.spec_bytes()) {
            Parse::Read { value, .. } => r matches Ok(tag) && tag_structure(tag) == value,
            Parse::Fail { position, reason } => r matches Err(e) && e.position == position
                && e.reason == reason,
        },
{
    parse_octets(input.as_bytes())
}

/// Octets that cannot stand for themselves in a value.
pub open spec fn is_reserved(c: u8) -> bool {
    c == 0 || c == OPEN || c == CLOSE || c == STAR || c == BACKSLASH
}

/// The hexadecimal digit, in lower case, of a number below sixteen.
pub open spec fn hex_char(n: int) -> u8 {
    if n < 10 {
        (0x30 + n) as u8
    } else {
        (0x61 + n - 10) as u8
    }
}

/// What one octet of a value is written as: itself, or a backslash and its
/// two hexadecimal digits if it is reserved.
pub open spec fn escaped_octet(c: u8) -> Seq<u8> {
    if is_reserved(c) {
        seq![BACKSLASH, hex_char(c as int / 16), hex_char(c as int % 16)]
    } else {
        seq![c]
    }
}

/// What a value is written as in a filter.
pub open spec fn escaped(value: Seq<u8>) -> Seq<u8>
    decreases value.len(),
{
    if value.len() == 0 {
        Seq::empty()
    } else {
        escaped_octet(value[0]) + escaped(value.drop_first())
    }
}

fn hex_of(n: u8) -> (r: u8)
    requires
        n < 16,
    ensures
        r == hex_char(n as int),
{
    if n < 10 {
        0x30 + n
    } else {
        0x61 + n - 10
    }
}

/// Writes a value as it must stand in a filter: every reserved octet
/// becomes a backslash and two hexadecimal digits.
pub fn ldap_escape(value: &[u8]) -> (out: Vec<u8>)
    ensures
        out@ == escaped(value@),
{
    let mut out: Vec<u8> = Vec::new();
    let mut i: usize = 0;
    assert(value@.skip(0) =~= value@);
    while i < value.len()
        invariant
            i <= value@.len(),
            escaped(value@) == out@ + escaped(value@.skip(i as int)),
        decreases value.len() - i,
    {
        let c = value[i];
        let ghost before = out@;
        proof {
            let rest = value@.skip(i as int);
            assert(rest[0] == c);
            assert(rest.drop_first() =~= value@.skip(i + 1));
        }
        if c == 0 || c == OPEN || c == CLOSE || c == STAR || c == BACKSLASH {
            out.push(BACKSLASH);
            out.push(hex_of(c / 16));
            out.push(hex_of(c % 16));
            assert(out@ =~= before + escaped_octet(c));
        } else {
            out.push(c);
            assert(out@ =~= before + escaped_octet(c));
        }
        proof {
            assert(before + (escaped_octet(c) + escaped(value@.skip(i + 1))) =~= out@ + escaped(
                value@.skip(i + 1),
            ));
        }
        i += 1;
    }
    assert(escaped(value@.skip(i as int)) =~= Seq::<u8>::empty());
    assert(out@ + Seq::<u8>::empty() =~= out@);
    out
}

/// The two digits that an octet is written as are hexadecimal digits and
/// stand for the octet.
proof fn lemma_hex_round_trip(c: u8)
    ensures
        is_hex(hex_char(c as int / 16)),
        is_hex(hex_char(c as int % 16)),
        hex_value(hex_char(c as int / 16)) * 16 + hex_value(hex_char(c as int % 16)) == c,
{
}

/// Where a value stands escaped in a text, up to the end of the text or to
/// a `)` or a `*`, the value is read back.
pub proof fn lemma_chunk_reads_escaped(s: Seq<u8>, i: int, acc: Seq<u8>, value: Seq<u8>)
    requires
        0 <= i,
        i + escaped(value).len() <= s.len(),
        s.subrange(i, i + escaped(value).len()) == escaped(value),
        i + escaped(value).len() < s.len() ==> s[i + escaped(value).len()] == CLOSE || s[i
            + escaped(value).len()] == STAR,
    ensures
        chunk_at(s, i, acc) == (Parse::Read { value: acc + value, next: i + escaped(value).len() }),
    decreases value.len(),
{
    if value.len() == 0 {
        assert(acc + value =~= acc);
    } else {
        let c = value[0];
        let rest = value.drop_first();
        let head = escaped_octet(c);
        let all = escaped(value);
        assert(all =~= head + escaped(rest));
        assert(s[i] == all[0]);
        lemma_hex_round_trip(c);
        if is_reserved(c) {
            assert(s[i + 1] == all[1] && s[i + 2] == all[2]);
        }
        let step = head.len() as int;
        assert(s.subrange(i + step, i + all.len()) =~= all.subrange(step, all.len() as int));
        assert(all.subrange(step, all.len() as int) =~= escaped(rest));
        lemma_chunk_reads_escaped(s, i + step, acc.push(c), rest);
        assert(acc.push(c) + rest =~= acc + value);
    }
}

/// Where the octets of an attribute description stand in a text and no such
/// octet follows them, the description ends behind them.
proof fn lemma_attr_end(s: Seq<u8>, i: int, n: int)
    requires
        0 <= i,
        0 <= n,
        i + n <= s.len(),
        forall|k: int| i <= k < i + n ==> is_attr_char(#[trigger] s[k]),
        i + n < s.len() ==> !is_attr_char(s[i + n]),
    ensures
        attr_end(s, i) == i + n,
    decreases n,
{
    if n > 0 {
        assert(is_attr_char(s[i]));
        lemma_attr_end(s, i + 1, n - 1);
    }
}

/// The text of an equality filter: the attribute, `=` and the escaped
/// value, in parentheses.
pub open spec fn equality_text(attr: Seq<u8>, value: Seq<u8>) -> Seq<u8> {
    seq![OPEN] + attr + seq![EQUALS] + escaped(value) + seq![CLOSE]
}

/// An equality filter that is written with its value escaped is parsed as
/// the comparison of the attribute with that value, whatever octets the
/// value holds.
pub proof fn lemma_equality_round_trip(attr: Seq<u8>, value: Seq<u8>)
    requires
        attr.len() > 0,
        is_attr_start(attr[0]),
        forall|k: int| 0 <= k < attr.len() ==> is_attr_char(#[trigger] attr[k]),
    ensures
        filter_of(equality_text(attr, value)) == (Parse::Read {
            value: comparison(EQ_MATCH, attr, value),
            next: equality_text(attr, value).len() as int,
        }),
{
    let s = equality_text(attr, value);
    let n = attr.len() as int;
    let m = escaped(value).len() as int;
    assert(s.len() == n + m + 3);
    assert(s[0] == OPEN);
    assert forall|k: int| 1 <= k < 1 + n implies is_attr_char(#[trigger] s[k]) by {
        assert(s[k] == attr[k - 1]);
    }
    assert(s[1] == attr[0]);
    assert(s[1 + n] == EQUALS);
    assert(s[n + m + 2] == CLOSE);
    lemma_attr_end(s, 1, n);
    assert(s.subrange(1, 1 + n) =~= attr);
    assert(s.subrange(n + 2, n + 2 + m) =~= escaped(value));
    lemma_chunk_reads_escaped(s, n + 2, Seq::empty(), value);
    assert(Seq::<u8>::empty() + value =~= value);
    let chunks = seq![value];
    assert(chunks_at(s, n + 2) == (Parse::Read { value: chunks, next: n + 2 + m }));
    assert(equality_like(attr, chunks) == comparison(EQ_MATCH, attr, value));
    assert(item_at(s, 1) == (Parse::Read {
        value: comparison(EQ_MATCH, attr, value),
        next: n + 2 + m,
    }));
}

} // verus!
