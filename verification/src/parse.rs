//! Reading tagged values back from BER octets.

use vstd::prelude::*;
use crate::common::TagClass;
use crate::structure::{
    copy_range, lemma_view_constructed, views, BerPayload, BerValue, StructureTag, PL,
};

verus! {

/// Outcome of reading one piece of a header from a window of octets.
pub enum Scan<T> {
    /// The piece was read; `next` is the position behind it.
    Found { value: T, next: int },
    /// The window ends inside the piece.
    Short,
    /// The octets cannot be a piece of a header.
    Bad,
}

/// What the identifier octets say.
pub struct Identifier {
    pub class: TagClass,
    pub constructed: bool,
    pub id: u64,
}

/// Outcome of reading one value from a window of octets.
pub enum Decoded {
    /// A whole value lies at the start of the window and ends before `end`.
    Done { value: BerValue, end: int },
    /// The window ends before the value does: it takes more octets to tell
    /// what stands there.
    Incomplete,
    /// The octets are no value, and none that follow can make them one.
    Invalid,
}

/// Why no value was decoded.
#[derive(Clone, Copy, PartialEq, Eq, Debug, Structural)]
pub enum DecodeError {
    /// More octets are needed.
    Incomplete,
    /// The octets are not BER.
    Invalid,
}

/// The class that two class bits name.
pub open spec fn class_of(code: int) -> TagClass {
    if code == 0 {
        TagClass::Universal
    } else if code == 1 {
        TagClass::Application
    } else if code == 2 {
        TagClass::Context
    } else {
        TagClass::Private
    }
}

/// Reads a tag number in the long form from position `i`, with `acc` read so far.
pub open spec fn scan_number(b: Seq<u8>, i: int, end: int, acc: nat) -> Scan<u64>
    decreases end - i,
{
    if i >= end {
        Scan::Short
    } else {
        let next = acc * 128 + b[i] % 128;
        if next > u64::MAX {
            Scan::Bad
        } else if b[i] < 128 {
            Scan::Found { value: next as u64, next: i + 1 }
        } else {
            scan_number(b, i + 1, end, next as nat)
        }
    }
}

/// Reads the identifier octets at position `start`.
pub open spec fn scan_identifier(b: Seq<u8>, start: int, end: int) -> Scan<Identifier> {
    if start >= end {
        Scan::Short
    } else {
        let first = b[start];
        let class = class_of(first as int / 64);
        let constructed = (first as int / 32) % 2 == 1;
        if first % 32 < 31 {
            Scan::Found {
                value: Identifier { class, constructed, id: (first % 32) as u64 },
                next: start + 1,
            }
        } else {
            match scan_number(b, start + 1, end, 0) {
                Scan::Found { value, next } => Scan::Found {
                    value: Identifier { class, constructed, id: value },
                    next,
                },
                Scan::Short => Scan::Short,
                Scan::Bad => Scan::Bad,
            }
        }
    }
}

/// The number that octets stand for, most significant first.
pub open spec fn be_value(s: Seq<u8>) -> nat
    decreases s.len(),
{
    if s.len() == 0 {
        0
    } else {
        be_value(s.drop_last()) * 256 + s.last() as nat
    }
}

/// Reads the length octets at position `i`. The indefinite form and the
/// reserved first octet are refused, and so is a length beyond `usize`.
/// In strict mode the long form must be the shortest one.
pub open spec fn scan_length(b: Seq<u8>, i: int, end: int, strict: bool) -> Scan<usize> {
    if i >= end {
        Scan::Short
    } else if b[i] < 128 {
        Scan::Found { value: b[i] as usize, next: i + 1 }
    } else {
        let count = b[i] - 128;
        if count == 0 || count == 127 {
            Scan::Bad
        } else if i + 1 + count > end {
            Scan::Short
        } else {
            let value = be_value(b.subrange(i + 1, i + 1 + count));
            if value > usize::MAX {
                Scan::Bad
            } else if strict && (value < 128 || b[i + 1] == 0) {
                Scan::Bad
            } else {
                Scan::Found { value: value as usize, next: i + 1 + count }
            }
        }
    }
}

/// Reads one value from the window `start..end` of `b`.
pub open spec fn parse_value(b: Seq<u8>, start: int, end: int, strict: bool) -> Decoded
    decreases end - start, 0nat,
{
    match scan_identifier(b, start, end) {
        Scan::Short => Decoded::Incomplete,
        Scan::Bad => Decoded::Invalid,
        Scan::Found { value: ident, next: at_length } => match scan_length(
            b,
            at_length,
            end,
            strict,
        ) {
            Scan::Short => Decoded::Incomplete,
            Scan::Bad => Decoded::Invalid,
            Scan::Found { value: length, next: at_content } => {
                let stop = at_content + length;
                if stop > end {
                    Decoded::Incomplete
                } else if !ident.constructed {
                    Decoded::Done {
                        value: BerValue {
                            class: ident.class,
                            id: ident.id,
                            payload: BerPayload::Primitive(b.subrange(at_content, stop)),
                        },
                        end: stop,
                    }
                } else if start < at_content {
                    match parse_all(b, at_content, stop, strict) {
                        Some(values) => Decoded::Done {
                            value: BerValue {
                                class: ident.class,
                                id: ident.id,
                                payload: BerPayload::Constructed(values),
                            },
                            end: stop,
                        },
                        None => Decoded::Invalid,
                    }
                } else {
                    Decoded::Invalid
                }
            },
        },
    }
}

/// Reads values from the window `start..end` of `b` until they fill it
/// exactly. Nothing is read if a value is cut short or runs over.
pub open spec fn parse_all(b: Seq<u8>, start: int, end: int, strict: bool) -> Option<
    Seq<BerValue>,
>
    decreases end - start, 1nat,
{
    if start >= end {
        Some(Seq::empty())
    } else {
        match parse_value(b, start, end, strict) {
            Decoded::Done { value, end: next } => if start < next <= end {
                match parse_all(b, next, end, strict) {
                    Some(rest) => Some(seq![value] + rest),
                    None => None,
                }
            } else {
                None
            },
            _ => None,
        }
    }
}

/// Reads one value from the start of `b`.
pub open spec fn parse(b: Seq<u8>, strict: bool) -> Decoded {
    parse_value(b, 0, b.len() as int, strict)
}

/// Whether what a reader returned is what the header piece reads as.
pub open spec fn scanned<T>(r: Result<(T, usize), DecodeError>, s: Scan<T>) -> bool {
    match s {
        Scan::Found { value, next } => r matches Ok(p) && p.0 == value && p.1 == next,
        Scan::Short => r == Err::<(T, usize), DecodeError>(DecodeError::Incomplete),
        Scan::Bad => r == Err::<(T, usize), DecodeError>(DecodeError::Invalid),
    }
}

/// Whether what the decoder returned is what the octets read as.
pub open spec fn decoded(r: Result<(StructureTag, usize), DecodeError>, d: Decoded) -> bool {
    match d {
        Decoded::Done { value, end } => r matches Ok(p) && p.0@ == value && p.1 == end,
        Decoded::Incomplete => r == Err::<(StructureTag, usize), DecodeError>(
            DecodeError::Incomplete,
        ),
        Decoded::Invalid => r == Err::<(StructureTag, usize), DecodeError>(DecodeError::Invalid),
    }
}

/// The value of the first octets never exceeds the value of them all.
proof fn lemma_be_value_prefix(s: Seq<u8>, j: int)
    requires
        0 <= j <= s.len(),
    ensures
        be_value(s.subrange(0, j)) <= be_value(s),
    decreases s.len(),
{
    if j == s.len() {
        assert(s.subrange(0, j) =~= s);
    } else {
        lemma_be_value_prefix(s.drop_last(), j);
        assert(s.drop_last().subrange(0, j) =~= s.subrange(0, j));
    }
}

/// A tag number that was read ends inside the window, behind where it began.
pub proof fn lemma_scan_number_bounds(b: Seq<u8>, i: int, end: int, acc: nat)
    ensures
        scan_number(b, i, end, acc) matches Scan::Found { next, .. } ==> i < next <= end,
    decreases end - i,
{
    if i < end {
        let next = acc * 128 + b[i] % 128;
        if next <= u64::MAX && b[i] >= 128 {
            lemma_scan_number_bounds(b, i + 1, end, next as nat);
        }
    }
}

/// A header that was read ends inside the window, behind where it began.
pub proof fn lemma_scan_bounds(b: Seq<u8>, start: int, end: int, strict: bool)
    ensures
        scan_identifier(b, start, end) matches Scan::Found { next, .. } ==> start < next <= end,
        scan_length(b, start, end, strict) matches Scan::Found { next, .. } ==> start < next
            <= end,
{
    lemma_scan_number_bounds(b, start + 1, end, 0);
}

fn read_number(b: &[u8], start: usize, end: usize) -> (r: Result<(u64, usize), DecodeError>)
    requires
        start <= end <= b.len(),
    ensures
        scanned(r, scan_number(b@, start as int, end as int, 0)),
{
    let mut i: usize = start;
    let mut acc: u64 = 0;
    while i < end
        invariant
            start <= i <= end <= b.len(),
            scan_number(b@, start as int, end as int, 0) == scan_number(
                b@,
                i as int,
                end as int,
                acc as nat,
            ),
        decreases end - i,
    {
        let group: u8 = b[i] % 128;
        if acc > (u64::MAX - group as u64) / 128 {
            return Err(DecodeError::Invalid);
        }
        acc = acc * 128 + group as u64;
        if b[i] < 128 {
            return Ok((acc, i + 1));
        }
        i += 1;
    }
    Err(DecodeError::Incomplete)
}

fn read_identifier(b: &[u8], start: usize, end: usize) -> (r: Result<
    (Identifier, usize),
    DecodeError,
>)
    requires
        start <= end <= b.len(),
    ensures
        scanned(r, scan_identifier(b@, start as int, end as int)),
{
    if start >= end {
        return Err(DecodeError::Incomplete);
    }
    let first: u8 = b[start];
    let class = match first / 64 {
        0 => TagClass::Universal,
        1 => TagClass::Application,
        2 => TagClass::Context,
        _ => TagClass::Private,
    };
    let constructed = (first / 32) % 2 == 1;
    if first % 32 < 31 {
        Ok((Identifier { class, constructed, id: (first % 32) as u64 }, start + 1))
    } else {
        match read_number(b, start + 1, end) {
            Ok((id, next)) => Ok((Identifier { class, constructed, id }, next)),
            Err(e) => Err(e),
        }
    }
}

fn read_length(b: &[u8], i: usize, end: usize, strict: bool) -> (r: Result<
    (usize, usize),
    DecodeError,
>)
    requires
        i <= end <= b.len(),
    ensures
        scanned(r, scan_length(b@, i as int, end as int, strict)),
{
    if i >= end {
        return Err(DecodeError::Incomplete);
    }
    if b[i] < 128 {
        return Ok((b[i] as usize, i + 1));
    }
    let count: usize = (b[i] - 128) as usize;
    if count == 0 || count == 127 {
        return Err(DecodeError::Invalid);
    }
    if count > end - i - 1 {
        return Err(DecodeError::Incomplete);
    }
    let ghost octets = b@.subrange(i + 1, i + 1 + count);
    let mut value: usize = 0;
    let mut k: usize = 0;
    while k < count
        invariant
            k <= count,
            i + 1 + count <= end <= b.len(),
            b@[i as int] >= 128,
            count == b@[i as int] - 128,
            count != 0 && count != 127,
            octets == b@.subrange(i + 1, i + 1 + count),
            value == be_value(octets.subrange(0, k as int)),
        decreases count - k,
    {
        proof {
            let longer = octets.subrange(0, k + 1);
            assert(longer.drop_last() =~= octets.subrange(0, k as int));
            assert(longer.last() == b@[i + 1 + k]);
            assert(be_value(longer) == be_value(longer.drop_last()) * 256 + longer.last());
            lemma_be_value_prefix(octets, k + 1);
        }
        let shifted = match value.checked_mul(256) {
            Some(v) => v,
            None => {
                return Err(DecodeError::Invalid);
            },
        };
        value = match shifted.checked_add(b[i + 1 + k] as usize) {
            Some(v) => v,
            None => {
                return Err(DecodeError::Invalid);
            },
        };
        k += 1;
    }
    assert(octets.subrange(0, count as int) =~= octets);
    if strict && (value < 128 || b[i + 1] == 0) {
        return Err(DecodeError::Invalid);
    }
    Ok((value, i + 1 + count))
}

fn decode_value(b: &[u8], start: usize, end: usize, strict: bool) -> (r: Result<
    (StructureTag, usize),
    DecodeError,
>)
    requires
        start <= end <= b.len(),
    ensures
        decoded(r, parse_value(b@, start as int, end as int, strict)),
    decreases end - start, 0nat,
{
    proof {
        lemma_scan_bounds(b@, start as int, end as int, strict);
    }
    let (ident, at_length) = match read_identifier(b, start, end) {
        Ok(found) => found,
        Err(e) => {
            return Err(e);
        },
    };
    proof {
        lemma_scan_bounds(b@, at_length as int, end as int, strict);
    }
    let (length, at_content) = match read_length(b, at_length, end, strict) {
        Ok(found) => found,
        Err(e) => {
            return Err(e);
        },
    };
    if length > end - at_content {
        return Err(DecodeError::Incomplete);
    }
    let stop = at_content + length;
    if !ident.constructed {
        let bytes = copy_range(b, at_content, stop);
        let tag = StructureTag { class: ident.class, id: ident.id, payload: PL::P(bytes) };
        proof {
            lemma_view_constructed(tag);
        }
        Ok((tag, stop))
    } else {
        match decode_all(b, at_content, stop, strict) {
            Some(tags) => {
                let tag = StructureTag { class: ident.class, id: ident.id, payload: PL::C(tags) };
                proof {
                    lemma_view_constructed(tag);
                }
                Ok((tag, stop))
            },
            None => Err(DecodeError::Invalid),
        }
    }
}

fn decode_all(b: &[u8], start: usize, end: usize, strict: bool) -> (r: Option<Vec<StructureTag>>)
    requires
        start <= end <= b.len(),
    ensures
        r.is_some() == parse_all(b@, start as int, end as int, strict).is_some(),
        r matches Some(tags) ==> views(tags@) == parse_all(
            b@,
            start as int,
            end as int,
            strict,
        ).unwrap(),
    decreases end - start, 1nat,
{
    let mut tags: Vec<StructureTag> = Vec::new();
    let mut at: usize = start;
    while at < end
        invariant
            start <= at <= end <= b.len(),
            parse_all(b@, start as int, end as int, strict) == match parse_all(
                b@,
                at as int,
                end as int,
                strict,
            ) {
                Some(rest) => Some(views(tags@) + rest),
                None => None,
            },
        decreases end - at,
    {
        match decode_value(b, at, end, strict) {
            Ok((tag, next)) => {
                if next <= at {
                    return None;
                }
                proof {
                    let before = views(tags@);
                    let after = views(tags@.push(tag));
                    assert(after =~= before + seq![tag@]);
                    match parse_all(b@, next as int, end as int, strict) {
                        Some(rest) => {
                            assert(before + (seq![tag@] + rest) =~= after + rest);
                        },
                        None => {},
                    }
                }
                tags.push(tag);
                at = next;
            },
            Err(_) => {
                return None;
            },
        }
    }
    proof {
        assert(views(tags@) + Seq::<BerValue>::empty() =~= views(tags@));
    }
    Some(tags)
}

/// Reads one value from the start of `bytes`. On success the value comes
/// with the number of octets it took.
pub fn decode(bytes: &[u8], strict: bool) -> (r: Result<(StructureTag, usize), DecodeError>)
    ensures
        decoded(r, parse(bytes@, strict)),
{
    decode_value(bytes, 0, bytes.len(), strict)
}

} // verus!
