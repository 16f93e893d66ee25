//! Serialization of tagged values into BER octets.

use vstd::prelude::*;
use crate::common::TagClass;
use crate::parse::{parse, Decoded};
use crate::round_trip::lemma_round_trip;
use crate::structure::{
    lemma_nested_decreases, lemma_view_constructed, views, BerPayload, BerValue, StructureTag, PL,
};

verus! {

/// The groups of seven bits of `n`, most significant first, each marked as
/// "more follows". Nothing for zero.
pub open spec fn high_groups(n: nat) -> Seq<u8>
    decreases n,
{
    if n == 0 {
        Seq::empty()
    } else {
        high_groups(n / 128).push((128 + n % 128) as u8)
    }
}

/// A tag number in the long form: groups of seven bits, the last one unmarked.
pub open spec fn base128(n: nat) -> Seq<u8> {
    high_groups(n / 128).push((n % 128) as u8)
}

/// The octets of `n`, most significant first, without leading zeros.
pub open spec fn be_octets(n: nat) -> Seq<u8>
    decreases n,
{
    if n == 0 {
        Seq::empty()
    } else {
        be_octets(n / 256).push((n % 256) as u8)
    }
}

/// The first identifier octet: class, structure bit, and the tag number or
/// the mark of the long form.
pub open spec fn leading_octet(class: TagClass, constructed: bool, id: u64) -> u8 {
    (class.code() * 64 + (if constructed { 32int } else { 0int }) + (if id < 31 { id as int } else { 31int })) as u8
}

/// The identifier octets of a value.
pub open spec fn identifier_octets(class: TagClass, constructed: bool, id: u64) -> Seq<u8> {
    if id < 31 {
        seq![leading_octet(class, constructed, id)]
    } else {
        seq![leading_octet(class, constructed, id)] + base128(id as nat)
    }
}

/// The length octets for a content of `n` octets: one octet below 128, else
/// the count of the octets that follow and the length in the fewest octets.
pub open spec fn length_octets(n: nat) -> Seq<u8> {
    if n < 128 {
        seq![n as u8]
    } else {
        seq![(128 + be_octets(n).len()) as u8] + be_octets(n)
    }
}

/// The octets that a value is written as.
pub open spec fn encoding(value: BerValue) -> Seq<u8>
    decreases value, 0nat,
{
    let content = match value.payload {
        BerPayload::Primitive(bytes) => bytes,
        BerPayload::Constructed(values) => encoding_all(values),
    };
    identifier_octets(value.class, value.payload is Constructed, value.id) + length_octets(
        content.len(),
    ) + content
}

/// The octets of a run of values, one after the other.
pub open spec fn encoding_all(values: Seq<BerValue>) -> Seq<u8>
    decreases values, 1nat,
{
    if values.len() == 0 {
        Seq::empty()
    } else {
        encoding_all(values.drop_last()) + encoding(values.last())
    }
}

/// The content octets of a value.
pub open spec fn content_octets(value: BerValue) -> Seq<u8> {
    match value.payload {
        BerPayload::Primitive(bytes) => bytes,
        BerPayload::Constructed(values) => encoding_all(values),
    }
}

fn write_high_groups(buf: &mut Vec<u8>, n: u64)
    ensures
        final(buf)@ == old(buf)@ + high_groups(n as nat),
    decreases n,
{
    if n != 0 {
        write_high_groups(buf, n / 128);
        buf.push((128 + n % 128) as u8);
    }
}

fn write_be_octets(buf: &mut Vec<u8>, n: usize) -> (count: u8)
    ensures
        final(buf)@ == old(buf)@ + be_octets(n as nat),
        count == be_octets(n as nat).len(),
        count <= 8,
    decreases n,
{
    if n != 0 {
        let count = write_be_octets(buf, n / 256);
        buf.push((n % 256) as u8);
        proof {
            lemma_be_octets_len(n as nat);
        }
        count + 1
    } else {
        0
    }
}

/// A number below `256^k` takes at most `k` octets.
pub proof fn lemma_be_octets_len(n: nat)
    ensures
        n <= usize::MAX ==> be_octets(n).len() <= 8,
        n <= 0xffff_ffff_ffff_ffff ==> be_octets(n).len() <= 8,
{
    reveal_with_fuel(be_octets, 10);
}

/// Appends the identifier octets of a value.
pub fn write_type(buf: &mut Vec<u8>, class: TagClass, constructed: bool, id: u64)
    ensures
        final(buf)@ == old(buf)@ + identifier_octets(class, constructed, id),
{
    let class_bits: u8 = match class {
        TagClass::Universal => 0,
        TagClass::Application => 64,
        TagClass::Context => 128,
        TagClass::Private => 192,
    };
    let structure_bit: u8 = if constructed { 32 } else { 0 };
    if id < 31 {
        buf.push(class_bits + structure_bit + id as u8);
    } else {
        buf.push(class_bits + structure_bit + 31);
        write_high_groups(buf, id / 128);
        buf.push((id % 128) as u8);
    }
}

/// Appends the length octets for a content of `length` octets.
pub fn write_length(buf: &mut Vec<u8>, length: usize)
    ensures
        final(buf)@ == old(buf)@ + length_octets(length as nat),
{
    if length < 128 {
        buf.push(length as u8);
    } else {
        let mut octets: Vec<u8> = Vec::new();
        let count = write_be_octets(&mut octets, length);
        buf.push(128 + count);
        let mut i: usize = 0;
        while i < octets.len()
            invariant
                i <= octets.len(),
                octets@ == be_octets(length as nat),
                buf@ == old(buf)@ + seq![(128 + count) as u8] + octets@.subrange(0, i as int),
            decreases octets.len() - i,
        {
            buf.push(octets[i]);
            i += 1;
        }
        assert(octets@.subrange(0, i as int) =~= octets@);
    }
}

/// Appends the octets of `tag` to `buf`.
pub fn encode_into(buf: &mut Vec<u8>, tag: &StructureTag)
    ensures
        final(buf)@ == old(buf)@ + encoding(tag@),
    decreases tag,
{
    proof {
        lemma_view_constructed(*tag);
    }
    match &tag.payload {
        PL::P(bytes) => {
            write_type(buf, tag.class, false, tag.id);
            write_length(buf, bytes.len());
            let ghost head = buf@;
            let mut i: usize = 0;
            while i < bytes.len()
                invariant
                    i <= bytes.len(),
                    buf@ == head + bytes@.subrange(0, i as int),
                decreases bytes.len() - i,
            {
                buf.push(bytes[i]);
                i += 1;
            }
            assert(bytes@.subrange(0, i as int) =~= bytes@);
        },
        PL::C(tags) => {
            let mut content: Vec<u8> = Vec::new();
            let mut i: usize = 0;
            while i < tags.len()
                invariant
                    i <= tags.len(),
                    tag.payload == PL::C(*tags),
                    content@ == encoding_all(views(tags@).subrange(0, i as int)),
                decreases tags.len() - i,
            {
                proof {
                    lemma_nested_decreases(*tag, i as int);
                    let next = views(tags@).subrange(0, i + 1);
                    assert(next.drop_last() =~= views(tags@).subrange(0, i as int));
                    assert(next.last() == tags@[i as int]@);
                }
                encode_into(&mut content, &tags[i]);
                i += 1;
            }
            assert(views(tags@).subrange(0, i as int) =~= views(tags@));
            write_type(buf, tag.class, true, tag.id);
            write_length(buf, content.len());
            let ghost head = buf@;
            let mut k: usize = 0;
            while k < content.len()
                invariant
                    k <= content.len(),
                    buf@ == head + content@.subrange(0, k as int),
                decreases content.len() - k,
            {
                buf.push(content[k]);
                k += 1;
            }
            assert(content@.subrange(0, k as int) =~= content@);
        },
    }
}

/// The octets of `tag`. Whatever is appended to them, they decode to `tag`
/// again, in either mode.
pub fn encode(tag: &StructureTag) -> (out: Vec<u8>)
    ensures
        out@ == encoding(tag@),
        forall|more: Seq<u8>, strict: bool| #[trigger]
            parse(out@ + more, strict) == (Decoded::Done { value: tag@, end: out@.len() as int }),
{
    let mut out: Vec<u8> = Vec::new();
    encode_into(&mut out, tag);
    let length = out.len();
    proof {
        assert(encoding(tag@).len() == length);
        assert forall|more: Seq<u8>, strict: bool| #[trigger]
            parse(out@ + more, strict) == (Decoded::Done {
                value: tag@,
                end: out@.len() as int,
            }) by {
            lemma_round_trip(tag@, more, strict);
        }
    }
    out
}

} // verus!
