use ldap3::common::{TagClass, TagStructure};
use ldap3::structures::boolean::Boolean;
use ldap3::structures::explicit::ExplicitTag;
use ldap3::structures::integer::{Enumerated, Integer};
use ldap3::structures::null::Null;
use ldap3::structures::octetstring::OctetString;
use ldap3::structures::sequence::{Sequence, SetOf};
use ldap3::structures::{ASNTag, Tag};
use ldap3::parse::{decode, DecodeError};
use ldap3::structure::{StructureTag, PL};
use ldap3::write::{encode, encode_into};

fn prim(class: TagClass, id: u64, bytes: &[u8]) -> StructureTag {
    StructureTag { class, id, payload: PL::P(bytes.to_vec()) }
}

fn cons(class: TagClass, id: u64, inner: Vec<StructureTag>) -> StructureTag {
    StructureTag { class, id, payload: PL::C(inner) }
}

#[test]
fn encode_primitive_short_form() {
    let tag = prim(TagClass::Universal, 2, &[0x16, 0x16]);
    assert_eq!(encode(&tag), vec![0x02, 0x02, 0x16, 0x16]);
}

#[test]
fn encode_constructed_application() {
    let tag = cons(
        TagClass::Application,
        3,
        vec![prim(TagClass::Universal, 4, b"ab"), prim(TagClass::Context, 0, &[])],
    );
    assert_eq!(encode(&tag), vec![0x63, 0x06, 0x04, 0x02, b'a', b'b', 0x80, 0x00]);
}

#[test]
fn encode_long_tag_number() {
    // 65 = 0x41 goes in one group, 300 = 2 * 128 + 44 in two
    assert_eq!(encode(&prim(TagClass::Application, 65, &[])), vec![0x5f, 0x41, 0x00]);
    assert_eq!(encode(&prim(TagClass::Private, 300, &[7])), vec![0xdf, 0x82, 0x2c, 0x01, 0x07]);
    assert_eq!(encode(&prim(TagClass::Universal, 30, &[])), vec![0x1e, 0x00]);
    assert_eq!(encode(&prim(TagClass::Universal, 31, &[])), vec![0x1f, 0x1f, 0x00]);
}

#[test]
fn encode_long_length() {
    let body = vec![0xaau8; 127];
    let out = encode(&prim(TagClass::Universal, 4, &body));
    assert_eq!(&out[..2], &[0x04, 0x7f]);
    let body = vec![0xaau8; 128];
    let out = encode(&prim(TagClass::Universal, 4, &body));
    assert_eq!(&out[..3], &[0x04, 0x81, 0x80]);
    assert_eq!(out.len(), 131);
    let body = vec![0x55u8; 300];
    let out = encode(&prim(TagClass::Universal, 4, &body));
    assert_eq!(&out[..4], &[0x04, 0x82, 0x01, 0x2c]);
    assert_eq!(out.len(), 304);
}

#[test]
fn encode_into_appends() {
    let mut buf = vec![1u8, 2, 3];
    encode_into(&mut buf, &prim(TagClass::Universal, 5, &[]));
    assert_eq!(buf, vec![1, 2, 3, 0x05, 0x00]);
}

#[test]
fn round_trip_nested() {
    let tag = cons(
        TagClass::Universal,
        16,
        vec![
            prim(TagClass::Universal, 2, &[1]),
            cons(
                TagClass::Application,
                65,
                vec![prim(TagClass::Context, 1000, &vec![9u8; 200]), cons(TagClass::Private, 0, vec![])],
            ),
            prim(TagClass::Universal, 4, b"cn=Manager,dc=example,dc=org"),
        ],
    );
    let bytes = encode(&tag);
    assert_eq!(decode(&bytes, false), Ok((tag.clone(), bytes.len())));
    assert_eq!(decode(&bytes, true), Ok((tag.clone(), bytes.len())));
    let mut more = bytes.clone();
    more.extend_from_slice(&[0x30, 0x00, 0xff]);
    assert_eq!(decode(&more, true), Ok((tag, bytes.len())));
}

#[test]
fn decode_incomplete_at_top_level() {
    assert_eq!(decode(&[], false), Err(DecodeError::Incomplete));
    assert_eq!(decode(&[0x30], false), Err(DecodeError::Incomplete));
    assert_eq!(decode(&[0x1f, 0x81], false), Err(DecodeError::Incomplete));
    assert_eq!(decode(&[0x30, 0x82, 0x01], false), Err(DecodeError::Incomplete));
    assert_eq!(decode(&[0x04, 0x03, 1, 2], false), Err(DecodeError::Incomplete));
    let whole = encode(&cons(TagClass::Universal, 16, vec![prim(TagClass::Universal, 4, b"abc")]));
    for cut in 0..whole.len() {
        assert_eq!(decode(&whole[..cut], false), Err(DecodeError::Incomplete));
    }
}

#[test]
fn decode_invalid() {
    // indefinite length
    assert_eq!(decode(&[0x30, 0x80, 0x00, 0x00], false), Err(DecodeError::Invalid));
    // reserved first length octet
    assert_eq!(decode(&[0x30, 0xff], false), Err(DecodeError::Invalid));
    // the nested value runs over the declared content
    assert_eq!(decode(&[0x30, 0x03, 0x04, 0x02, 0x61], false), Err(DecodeError::Invalid));
    // the nested value is cut short by the declared content
    assert_eq!(decode(&[0x30, 0x01, 0x04], false), Err(DecodeError::Invalid));
    // a tag number beyond 64 bits
    let mut huge = vec![0x1f];
    huge.extend_from_slice(&[0xff; 10]);
    huge.push(0x7f);
    huge.push(0x00);
    assert_eq!(decode(&huge, false), Err(DecodeError::Invalid));
}

#[test]
fn decode_redundant_length_by_mode() {
    let redundant = [0x04, 0x81, 0x01, 0x61];
    assert_eq!(
        decode(&redundant, false),
        Ok((prim(TagClass::Universal, 4, b"a"), 4))
    );
    assert_eq!(decode(&redundant, true), Err(DecodeError::Invalid));
    let padded = [0x04, 0x82, 0x00, 0x80];
    assert_eq!(decode(&padded, true), Err(DecodeError::Invalid));
}

#[test]
fn decode_reports_consumed() {
    let bytes = [0x02, 0x01, 0x05, 0x02, 0x01, 0x06];
    assert_eq!(decode(&bytes, true), Ok((prim(TagClass::Universal, 2, &[5]), 3)));
    assert_eq!(decode(&bytes[3..], true), Ok((prim(TagClass::Universal, 2, &[6]), 3)));
}

#[test]
fn decode_is_stable_under_more_octets() {
    let tag = cons(TagClass::Application, 4, vec![prim(TagClass::Universal, 4, b"cn=x"), cons(TagClass::Universal, 16, vec![])]);
    let bytes = encode(&tag);
    let first = decode(&bytes, false);
    let mut longer = bytes.clone();
    for extra in [0x00u8, 0x30, 0xff, 0x80] {
        longer.push(extra);
        assert_eq!(decode(&longer, false), first);
    }
}

#[test]
fn typed_values_round_trip() {
    let tag = Tag::Sequence(Sequence {
        id: 16,
        class: TagClass::Universal,
        inner: vec![
            Tag::Boolean(Boolean { inner: true, ..Default::default() }),
            Tag::Boolean(Boolean::default()),
            Tag::Integer(Integer { inner: -129, ..Default::default() }),
            Tag::Enumerated(Enumerated { inner: 128, ..Default::default() }),
            Tag::Null(Null::default()),
            Tag::OctetString(OctetString { inner: b"abc".to_vec(), ..Default::default() }),
            Tag::SetOf(SetOf { inner: vec![Tag::Null(Null::default())], ..Default::default() }),
            Tag::ExplicitTag(ExplicitTag {
                id: 2,
                class: TagClass::Context,
                inner: Box::new(Tag::Integer(Integer::default())),
            }),
            Tag::StructureTag(prim(TagClass::Private, 9, &[1])),
        ],
    });
    let structure = tag.into_structure();
    assert_eq!(
        structure,
        cons(
            TagClass::Universal,
            16,
            vec![
                prim(TagClass::Universal, 1, &[0xff]),
                prim(TagClass::Universal, 1, &[0x00]),
                prim(TagClass::Universal, 2, &[0xff, 0x7f]),
                prim(TagClass::Universal, 10, &[0x00, 0x80]),
                prim(TagClass::Universal, 5, &[]),
                prim(TagClass::Universal, 4, b"abc"),
                cons(TagClass::Universal, 17, vec![prim(TagClass::Universal, 5, &[])]),
                cons(TagClass::Context, 2, vec![prim(TagClass::Universal, 2, &[0])]),
                prim(TagClass::Private, 9, &[1]),
            ]
        )
    );
    let bytes = encode(&structure);
    assert_eq!(decode(&bytes, true), Ok((structure, bytes.len())));
}

#[test]
fn class_and_structure_bits() {
    assert_eq!(TagClass::from_u8(0), Some(TagClass::Universal));
    assert_eq!(TagClass::from_u8(1), Some(TagClass::Application));
    assert_eq!(TagClass::from_u8(2), Some(TagClass::Context));
    assert_eq!(TagClass::from_u8(3), Some(TagClass::Private));
    assert_eq!(TagClass::from_u8(4), None);
    assert_eq!(TagStructure::from_u8(0), Some(TagStructure::Primitive));
    assert_eq!(TagStructure::from_u8(1), Some(TagStructure::Constructed));
    assert_eq!(TagStructure::from_u8(2), None);
}

#[test]
fn invalid_stays_invalid_under_more_octets() {
    let refused: [&[u8]; 4] = [&[0x30, 0x80], &[0x30, 0x03, 0x04, 0x02, 0x61], &[0x30, 0xff], &[0x30, 0x01, 0x04]];
    for octets in refused {
        assert_eq!(decode(octets, false), Err(DecodeError::Invalid));
        let mut longer = octets.to_vec();
        for extra in [0x00u8, 0x61, 0x30, 0x04, 0x02] {
            longer.push(extra);
            assert_eq!(decode(&longer, false), Err(DecodeError::Invalid));
        }
    }
}
