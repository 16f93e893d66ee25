//! What is written is read back: the decoder undoes the encoder.

use vstd::prelude::*;
use crate::common::TagClass;
use crate::parse::{
    be_value, class_of, lemma_scan_bounds, lemma_scan_number_bounds, parse, parse_all,
    parse_value, scan_identifier, scan_length, scan_number, Decoded, Identifier, Scan,
};
use crate::structure::{BerPayload, BerValue};
use crate::write::{
    be_octets, content_octets, encoding, encoding_all, high_groups, identifier_octets,
    leading_octet, length_octets,
};

verus! {

/// Every content in the value, at any depth, has a length that `usize` holds.
pub open spec fn encodable(value: BerValue) -> bool
    decreases value,
{
    &&& content_octets(value).len() <= usize::MAX
    &&& value.payload matches BerPayload::Constructed(values) ==> forall|i: int|
        0 <= i < values.len() ==> encodable(#[trigger] values[i])
}

/// Reading the marked groups of `m` carries the reader past them with `m` read.
proof fn lemma_scan_high_groups(b: Seq<u8>, i: int, end: int, m: nat)
    requires
        0 <= i,
        i + high_groups(m).len() <= end <= b.len(),
        b.subrange(i, i + high_groups(m).len()) == high_groups(m),
        m <= u64::MAX,
    ensures
        scan_number(b, i, end, 0) == scan_number(b, i + high_groups(m).len(), end, m),
    decreases m,
{
    if m > 0 {
        let shorter = high_groups(m / 128);
        let at = i + shorter.len();
        assert(b.subrange(i, at) =~= high_groups(m).subrange(0, shorter.len() as int));
        assert(high_groups(m).subrange(0, shorter.len() as int) =~= shorter);
        lemma_scan_high_groups(b, i, end, m / 128);
        assert(b[at] == high_groups(m)[shorter.len() as int]);
        assert(b[at] == (128 + m % 128) as u8);
        assert((m / 128) * 128 + b[at] % 128 == m);
    }
}

/// The identifier octets read back as the class, structure and tag number
/// that they were written for.
proof fn lemma_scan_identifier(
    b: Seq<u8>,
    start: int,
    end: int,
    class: TagClass,
    constructed: bool,
    id: u64,
)
    requires
        0 <= start,
        start + identifier_octets(class, constructed, id).len() <= end <= b.len(),
        b.subrange(start, start + identifier_octets(class, constructed, id).len())
            == identifier_octets(class, constructed, id),
    ensures
        scan_identifier(b, start, end) == (Scan::Found {
            value: Identifier { class, constructed, id },
            next: start + identifier_octets(class, constructed, id).len(),
        }),
{
    let octets = identifier_octets(class, constructed, id);
    let first = leading_octet(class, constructed, id);
    assert(b[start] == octets[0]);
    assert(octets[0] == first);
    let low: int = if id < 31 { id as int } else { 31 };
    let bit: int = if constructed { 32 } else { 0 };
    assert(first == class.code() * 64 + bit + low);
    assert(first as int / 64 == class.code());
    assert((first as int / 32) % 2 == 1 <==> constructed);
    assert(first % 32 == low);
    assert(class_of(class.code()) == class);
    if id >= 31 {
        let groups = high_groups(id as nat / 128);
        let at = start + 1 + groups.len();
        assert(octets =~= seq![first] + groups.push((id % 128) as u8));
        let count = groups.len() as int;
        assert(b.subrange(start + 1, at) =~= octets.subrange(1, 1 + count));
        assert(octets.subrange(1, 1 + count) =~= groups);
        lemma_scan_high_groups(b, start + 1, end, id as nat / 128);
        assert(b[at] == octets[1 + count]);
        assert(b[at] == (id % 128) as u8);
        assert((id as nat / 128) * 128 + b[at] % 128 == id);
    }
}

/// The octets written for a number stand for that number, and the first of
/// them is not zero.
proof fn lemma_be_octets_value(n: nat)
    ensures
        be_value(be_octets(n)) == n,
        n > 0 ==> be_octets(n).len() > 0 && be_octets(n)[0] != 0,
    decreases n,
{
    if n > 0 {
        lemma_be_octets_value(n / 256);
        assert(be_octets(n).drop_last() =~= be_octets(n / 256));
        if n / 256 > 0 {
            assert(be_octets(n)[0] == be_octets(n / 256)[0]);
        }
    }
}

/// The length octets read back as the length that they were written for.
proof fn lemma_scan_length(b: Seq<u8>, i: int, end: int, strict: bool, n: nat)
    requires
        0 <= i,
        n <= usize::MAX,
        i + length_octets(n).len() <= end <= b.len(),
        b.subrange(i, i + length_octets(n).len()) == length_octets(n),
    ensures
        scan_length(b, i, end, strict) == (Scan::Found {
            value: n as usize,
            next: i + length_octets(n).len(),
        }),
{
    let octets = length_octets(n);
    assert(b[i] == octets[0]);
    if n >= 128 {
        let digits = be_octets(n);
        crate::write::lemma_be_octets_len(n);
        lemma_be_octets_value(n);
        let count = digits.len() as int;
        assert(b.subrange(i + 1, i + 1 + count) =~= octets.subrange(1, 1 + count));
        assert(octets.subrange(1, 1 + count) =~= digits);
        assert(b[i + 1] == octets[1]);
        assert(octets[1] == digits[0]);
    }
}

/// A run of values that begins with `first` is written as `first` followed
/// by the rest.
proof fn lemma_encoding_all_front(first: BerValue, rest: Seq<BerValue>)
    ensures
        encoding_all(seq![first] + rest) == encoding(first) + encoding_all(rest),
    decreases rest.len(),
{
    let all = seq![first] + rest;
    if rest.len() == 0 {
        assert(all.drop_last() =~= Seq::<BerValue>::empty());
        assert(encoding_all(Seq::<BerValue>::empty()) =~= Seq::<u8>::empty());
        assert(rest =~= Seq::<BerValue>::empty());
        assert(all.last() == first);
        assert(encoding_all(all) =~= encoding(first));
        assert(encoding(first) + encoding_all(rest) =~= encoding(first));
    } else {
        lemma_encoding_all_front(first, rest.drop_last());
        assert(all.drop_last() =~= seq![first] + rest.drop_last());
        assert(all.last() == rest.last());
        assert(encoding_all(all) =~= encoding(first) + encoding_all(rest));
    }
}

/// A value is written as at least two octets.
proof fn lemma_encoding_len(value: BerValue)
    ensures
        encoding(value).len() >= 2 + content_octets(value).len(),
{
}

/// A value that fits in `usize` octets holds only contents that do.
proof fn lemma_encodable(value: BerValue)
    requires
        encoding(value).len() <= usize::MAX,
    ensures
        encodable(value),
    decreases value, 0nat,
{
    lemma_encoding_len(value);
    if let BerPayload::Constructed(values) = value.payload {
        assert forall|i: int| 0 <= i < values.len() implies encodable(#[trigger] values[i]) by {
            lemma_encoding_all_bound(values, i);
            lemma_encodable(values[i]);
        }
    }
}

/// Each value of a run is written no longer than the run.
proof fn lemma_encoding_all_bound(values: Seq<BerValue>, i: int)
    requires
        0 <= i < values.len(),
    ensures
        encoding(values[i]).len() <= encoding_all(values).len(),
    decreases values.len(),
{
    if i < values.len() - 1 {
        lemma_encoding_all_bound(values.drop_last(), i);
    }
}

/// Where the octets of a value lie in a window, the reader finds the value.
pub proof fn lemma_parse_value_round_trip(
    b: Seq<u8>,
    start: int,
    end: int,
    strict: bool,
    value: BerValue,
)
    requires
        0 <= start,
        start + encoding(value).len() <= end <= b.len(),
        b.subrange(start, start + encoding(value).len()) == encoding(value),
        encodable(value),
    ensures
        parse_value(b, start, end, strict) == (Decoded::Done {
            value,
            end: start + encoding(value).len(),
        }),
    decreases value, 0nat,
{
    let constructed = value.payload is Constructed;
    let ident = identifier_octets(value.class, constructed, value.id);
    let content = content_octets(value);
    let length = length_octets(content.len());
    let octets = encoding(value);
    assert(octets =~= ident + length + content);
    let at_length = start + ident.len();
    let at_content = at_length + length.len();
    let stop = at_content + content.len();
    assert(b.subrange(start, at_length) =~= octets.subrange(0, ident.len() as int));
    assert(octets.subrange(0, ident.len() as int) =~= ident);
    lemma_scan_identifier(b, start, end, value.class, constructed, value.id);
    let head = ident.len() as int;
    let header = head + length.len() as int;
    assert(b.subrange(at_length, at_content) =~= octets.subrange(head, header));
    assert(octets.subrange(head, header) =~= length);
    lemma_scan_length(b, at_length, end, strict, content.len());
    assert(b.subrange(at_content, stop) =~= octets.subrange(header, octets.len() as int));
    assert(octets.subrange(header, octets.len() as int) =~= content);
    match value.payload {
        BerPayload::Primitive(bytes) => {},
        BerPayload::Constructed(values) => {
            lemma_parse_all_round_trip(b, at_content, strict, values);
        },
    }
}

/// Where the octets of a run of values fill a window, the reader finds the run.
pub proof fn lemma_parse_all_round_trip(b: Seq<u8>, start: int, strict: bool, values: Seq<BerValue>)
    requires
        0 <= start,
        start + encoding_all(values).len() <= b.len(),
        b.subrange(start, start + encoding_all(values).len()) == encoding_all(values),
        forall|i: int| 0 <= i < values.len() ==> encodable(#[trigger] values[i]),
    ensures
        parse_all(b, start, start + encoding_all(values).len(), strict) == Some(values),
    decreases values, 1nat,
{
    let end = start + encoding_all(values).len();
    if values.len() == 0 {
        assert(values =~= Seq::<BerValue>::empty());
    } else {
        let first = values[0];
        let rest = values.drop_first();
        assert(values =~= seq![first] + rest);
        lemma_encoding_all_front(first, rest);
        lemma_encoding_len(first);
        let next = start + encoding(first).len();
        assert(b.subrange(start, next) =~= encoding_all(values).subrange(
            0,
            encoding(first).len() as int,
        ));
        assert(encoding_all(values).subrange(0, encoding(first).len() as int) =~= encoding(first));
        lemma_parse_value_round_trip(b, start, end, strict, first);
        assert(b.subrange(next, end) =~= encoding_all(values).subrange(
            encoding(first).len() as int,
            encoding_all(values).len() as int,
        ));
        assert(encoding_all(values).subrange(
            encoding(first).len() as int,
            encoding_all(values).len() as int,
        ) =~= encoding_all(rest));
        assert forall|i: int| 0 <= i < rest.len() implies encodable(#[trigger] rest[i]) by {
            assert(rest[i] == values[i + 1]);
        }
        lemma_parse_all_round_trip(b, next, strict, rest);
    }
}

/// Decoding what was encoded gives the value back, whatever follows it and
/// in either mode.
pub proof fn lemma_round_trip(value: BerValue, more: Seq<u8>, strict: bool)
    requires
        encoding(value).len() <= usize::MAX,
    ensures
        parse(encoding(value) + more, strict) == (Decoded::Done {
            value,
            end: encoding(value).len() as int,
        }),
{
    let b = encoding(value) + more;
    lemma_encodable(value);
    assert(b.subrange(0, encoding(value).len() as int) =~= encoding(value));
    lemma_parse_value_round_trip(b, 0, b.len() as int, strict, value);
}

/// Two texts agree on the positions from `from` up to `to`.
pub open spec fn agree(a: Seq<u8>, b: Seq<u8>, from: int, to: int) -> bool {
    forall|k: int| from <= k < to ==> a[k] == b[k]
}

/// A tag number that was read is read again from any text that agrees on
/// its octets, in any window that holds them.
proof fn lemma_scan_number_local(
    a: Seq<u8>,
    b: Seq<u8>,
    i: int,
    end: int,
    wider: int,
    acc: nat,
)
    requires
        0 <= i,
        end <= a.len(),
        scan_number(a, i, end, acc) is Found,
        scan_number(a, i, end, acc)->Found_next <= wider <= b.len(),
        agree(a, b, i, scan_number(a, i, end, acc)->Found_next),
    ensures
        scan_number(b, i, wider, acc) == scan_number(a, i, end, acc),
    decreases end - i,
{
    lemma_scan_number_bounds(a, i, end, acc);
    if i < end {
        let next = acc * 128 + a[i] % 128;
        if next <= u64::MAX && a[i] >= 128 {
            lemma_scan_number_bounds(a, i + 1, end, next as nat);
            lemma_scan_number_local(a, b, i + 1, end, wider, next as nat);
        }
    }
}

/// A header that was read is read again from any text that agrees on its
/// octets, in any window that holds them.
proof fn lemma_scan_local(a: Seq<u8>, b: Seq<u8>, i: int, end: int, wider: int, strict: bool)
    requires
        0 <= i,
        end <= a.len(),
        wider <= b.len(),
    ensures
        scan_identifier(a, i, end) matches Scan::Found { next, .. } && next <= wider && agree(
            a,
            b,
            i,
            next,
        ) ==> scan_identifier(b, i, wider) == scan_identifier(a, i, end),
        scan_length(a, i, end, strict) matches Scan::Found { next, .. } && next <= wider && agree(
            a,
            b,
            i,
            next,
        ) ==> scan_length(b, i, wider, strict) == scan_length(a, i, end, strict),
{
    lemma_scan_bounds(a, i, end, strict);
    if let Scan::Found { next, .. } = scan_identifier(a, i, end) {
        if next <= wider && agree(a, b, i, next) {
            if a[i] % 32 == 31 {
                lemma_scan_number_local(a, b, i + 1, end, wider, 0);
            }
        }
    }
    if let Scan::Found { next, .. } = scan_length(a, i, end, strict) {
        if next <= wider && agree(a, b, i, next) {
            if a[i] >= 128 {
                let count = a[i] - 128;
                assert(a.subrange(i + 1, i + 1 + count) =~= b.subrange(i + 1, i + 1 + count));
            }
        }
    }
}

/// A value that was read is read again from any text that agrees on its
/// octets, in any window that holds them.
proof fn lemma_parse_value_local(
    a: Seq<u8>,
    b: Seq<u8>,
    start: int,
    end: int,
    wider: int,
    strict: bool,
)
    requires
        0 <= start,
        end <= a.len(),
        parse_value(a, start, end, strict) is Done,
        parse_value(a, start, end, strict)->Done_end <= wider <= b.len(),
        agree(a, b, start, parse_value(a, start, end, strict)->Done_end),
    ensures
        parse_value(b, start, wider, strict) == parse_value(a, start, end, strict),
    decreases end - start, 0nat,
{
    lemma_scan_bounds(a, start, end, strict);
    let at_length = scan_identifier(a, start, end)->Found_next;
    lemma_scan_bounds(a, at_length, end, strict);
    let length = scan_length(a, at_length, end, strict)->Found_value;
    let at_content = scan_length(a, at_length, end, strict)->Found_next;
    let stop = at_content + length;
    lemma_scan_local(a, b, start, end, wider, strict);
    lemma_scan_local(a, b, at_length, end, wider, strict);
    if scan_identifier(a, start, end)->Found_value.constructed {
        lemma_parse_all_local(a, b, at_content, stop, strict);
    } else {
        assert(a.subrange(at_content, stop) =~= b.subrange(at_content, stop));
    }
}

/// A run of values that was read from a window is read again from any text
/// that agrees on the window.
proof fn lemma_parse_all_local(a: Seq<u8>, b: Seq<u8>, start: int, end: int, strict: bool)
    requires
        0 <= start,
        end <= a.len(),
        end <= b.len(),
        parse_all(a, start, end, strict).is_some(),
        agree(a, b, start, end),
    ensures
        parse_all(b, start, end, strict) == parse_all(a, start, end, strict),
    decreases end - start, 1nat,
{
    if start < end {
        let next = parse_value(a, start, end, strict)->Done_end;
        lemma_parse_value_local(a, b, start, end, end, strict);
        lemma_parse_all_local(a, b, next, end, strict);
    }
}

/// A value that is complete stays what it is, whatever arrives behind it.
pub proof fn lemma_done_is_stable(bytes: Seq<u8>, more: Seq<u8>, strict: bool)
    requires
        parse(bytes, strict) is Done,
    ensures
        parse(bytes + more, strict) == parse(bytes, strict),
{
    let longer = bytes + more;
    lemma_scan_bounds(bytes, 0, bytes.len() as int, strict);
    let at_length = scan_identifier(bytes, 0, bytes.len() as int)->Found_next;
    lemma_scan_bounds(bytes, at_length, bytes.len() as int, strict);
    lemma_parse_value_local(bytes, longer, 0, bytes.len() as int, longer.len() as int, strict);
}

/// Octets that do not begin with zero are exactly what is written for the
/// number that they stand for.
pub proof fn lemma_be_value_canonical(s: Seq<u8>)
    requires
        s.len() > 0,
        s[0] != 0,
    ensures
        be_octets(be_value(s)) == s,
        be_value(s) > 0,
    decreases s.len(),
{
    let shorter = s.drop_last();
    if s.len() == 1 {
        assert(shorter =~= Seq::<u8>::empty());
        assert(be_value(shorter) == 0);
        assert(be_octets(0) =~= Seq::<u8>::empty());
        assert(be_octets(be_value(s)) =~= s);
    } else {
        assert(shorter[0] == s[0]);
        lemma_be_value_canonical(shorter);
        let v = be_value(s);
        assert(v / 256 == be_value(shorter) && v % 256 == s.last());
        assert(be_octets(v) =~= s);
    }
}

/// In strict mode a length is read only from its shortest form: the octets
/// that were read are those that the encoder writes for the length.
pub proof fn lemma_strict_length_is_shortest(b: Seq<u8>, i: int, end: int)
    requires
        0 <= i,
        end <= b.len(),
        scan_length(b, i, end, true) is Found,
    ensures
        b.subrange(i, scan_length(b, i, end, true)->Found_next) == length_octets(
            scan_length(b, i, end, true)->Found_value as nat,
        ),
{
    let n = scan_length(b, i, end, true)->Found_value as nat;
    let next = scan_length(b, i, end, true)->Found_next;
    if b[i] < 128 {
        assert(b.subrange(i, next) =~= length_octets(n));
    } else {
        let count = b[i] - 128;
        let digits = b.subrange(i + 1, i + 1 + count);
        assert(digits[0] == b[i + 1]);
        lemma_be_value_canonical(digits);
        assert(b.subrange(i, next) =~= seq![b[i]] + digits);
        assert(length_octets(n) =~= seq![(128 + be_octets(n).len()) as u8] + be_octets(n));
    }
}

/// Whatever is a value in strict mode is the same value in permissive mode.
pub proof fn lemma_strict_is_permitted(b: Seq<u8>, start: int, end: int)
    requires
        0 <= start,
        end <= b.len(),
    ensures
        parse_value(b, start, end, true) is Done ==> parse_value(b, start, end, false)
            == parse_value(b, start, end, true),
        parse_all(b, start, end, true).is_some() ==> parse_all(b, start, end, false) == parse_all(
            b,
            start,
            end,
            true,
        ),
    decreases end - start,
{
    lemma_scan_bounds(b, start, end, true);
    if parse_value(b, start, end, true) is Done {
        let at_length = scan_identifier(b, start, end)->Found_next;
        lemma_scan_bounds(b, at_length, end, true);
        let length = scan_length(b, at_length, end, true)->Found_value;
        let at_content = scan_length(b, at_length, end, true)->Found_next;
        if scan_identifier(b, start, end)->Found_value.constructed {
            lemma_strict_is_permitted(b, at_content, at_content + length);
        }
    }
    if start < end && parse_all(b, start, end, true).is_some() {
        let next = parse_value(b, start, end, true)->Done_end;
        lemma_strict_is_permitted(b, next, end);
    }
}

proof fn lemma_scan_number_same(a: Seq<u8>, b: Seq<u8>, i: int, end: int, acc: nat)
    requires
        0 <= i,
        end <= a.len(),
        end <= b.len(),
        agree(a, b, i, end),
    ensures
        scan_number(b, i, end, acc) == scan_number(a, i, end, acc),
    decreases end - i,
{
    if i < end {
        let next = acc * 128 + a[i] % 128;
        if next <= u64::MAX && a[i] >= 128 {
            lemma_scan_number_same(a, b, i + 1, end, next as nat);
        }
    }
}

proof fn lemma_scan_same(a: Seq<u8>, b: Seq<u8>, i: int, end: int, strict: bool)
    requires
        0 <= i,
        end <= a.len(),
        end <= b.len(),
        agree(a, b, i, end),
    ensures
        scan_identifier(b, i, end) == scan_identifier(a, i, end),
        scan_length(b, i, end, strict) == scan_length(a, i, end, strict),
{
    if i < end {
        lemma_scan_number_same(a, b, i + 1, end, 0);
        if a[i] >= 128 {
            let count = a[i] - 128;
            if i + 1 + count <= end {
                assert(a.subrange(i + 1, i + 1 + count) =~= b.subrange(i + 1, i + 1 + count));
            }
        }
    }
}

/// What a window reads as depends on the octets of the window alone.
pub proof fn lemma_same_window(a: Seq<u8>, b: Seq<u8>, start: int, end: int, strict: bool)
    requires
        0 <= start,
        end <= a.len(),
        end <= b.len(),
        agree(a, b, start, end),
    ensures
        parse_value(b, start, end, strict) == parse_value(a, start, end, strict),
        parse_all(b, start, end, strict) == parse_all(a, start, end, strict),
    decreases end - start,
{
    lemma_scan_same(a, b, start, end, strict);
    lemma_scan_bounds(a, start, end, strict);
    if let Scan::Found { value: ident, next: at_length } = scan_identifier(a, start, end) {
        lemma_scan_same(a, b, at_length, end, strict);
        lemma_scan_bounds(a, at_length, end, strict);
        if let Scan::Found { value: length, next: at_content } = scan_length(
            a,
            at_length,
            end,
            strict,
        ) {
            let stop = at_content + length;
            if stop <= end {
                if ident.constructed {
                    lemma_same_window(a, b, at_content, stop, strict);
                } else {
                    assert(a.subrange(at_content, stop) =~= b.subrange(at_content, stop));
                }
            }
        }
    }
    if start < end {
        if let Decoded::Done { end: next, .. } = parse_value(a, start, end, strict) {
            if start < next <= end {
                lemma_same_window(a, b, next, end, strict);
            }
        }
    }
}

proof fn lemma_scan_number_bad_extends(
    a: Seq<u8>,
    b: Seq<u8>,
    i: int,
    end: int,
    wider: int,
    acc: nat,
)
    requires
        0 <= i,
        end <= a.len(),
        end <= wider <= b.len(),
        agree(a, b, i, end),
        scan_number(a, i, end, acc) is Bad,
    ensures
        scan_number(b, i, wider, acc) is Bad,
    decreases end - i,
{
    if i < end {
        let next = acc * 128 + a[i] % 128;
        if next <= u64::MAX && a[i] >= 128 {
            lemma_scan_number_bad_extends(a, b, i + 1, end, wider, next as nat);
        }
    }
}

/// Octets that are refused stay refused, whatever arrives behind them.
pub proof fn lemma_invalid_is_final(bytes: Seq<u8>, more: Seq<u8>, strict: bool)
    requires
        parse(bytes, strict) is Invalid,
    ensures
        parse(bytes + more, strict) is Invalid,
{
    let longer = bytes + more;
    let end = bytes.len() as int;
    let wider = longer.len() as int;
    assert(agree(bytes, longer, 0, end));
    lemma_scan_bounds(bytes, 0, end, strict);
    match scan_identifier(bytes, 0, end) {
        Scan::Bad => {
            lemma_scan_number_bad_extends(bytes, longer, 1, end, wider, 0);
        },
        Scan::Short => {},
        Scan::Found { value: ident, next: at_length } => {
            lemma_scan_local(bytes, longer, 0, end, wider, strict);
            lemma_scan_bounds(bytes, at_length, end, strict);
            match scan_length(bytes, at_length, end, strict) {
                Scan::Bad => {
                    if bytes[at_length] >= 128 {
                        let count = bytes[at_length] - 128;
                        if count != 0 && count != 127 {
                            assert(bytes.subrange(at_length + 1, at_length + 1 + count)
                                =~= longer.subrange(at_length + 1, at_length + 1 + count));
                        }
                    }
                },
                Scan::Short => {},
                Scan::Found { value: length, next: at_content } => {
                    lemma_scan_local(bytes, longer, at_length, end, wider, strict);
                    let stop = at_content + length;
                    lemma_same_window(bytes, longer, at_content, stop, strict);
                },
            }
        },
    }
}

} // verus!
