use ldap3::common::TagClass;
use ldap3::structure;
use ldap3::structures::integer::{decode_integer, encode_integer, i_e_into_structure};

#[test]
fn test_not_unnecessary_octets() {
    // 127 can be encoded into 8 bits
    let result = i_e_into_structure(2, TagClass::Universal, 127);
    let correct = structure::PL::P(vec![127]);
    assert_eq![result.payload, correct];
}

#[test]
fn test_not_positive_getting_negative() {
    // 128 can be encoded cannot be encoded into a 8 bit signed number
    let result = i_e_into_structure(2, TagClass::Universal, 128);
    let correct = structure::PL::P(vec![0, 128]);
    assert_eq![result.payload, correct];
}

#[test]
fn integer_edge_cases_encode() {
    assert_eq!(encode_integer(127), vec![0x7f]);
    assert_eq!(encode_integer(128), vec![0x00, 0x80]);
    assert_eq!(encode_integer(-1), vec![0xff]);
    assert_eq!(encode_integer(-129), vec![0xff, 0x7f]);
}

#[test]
fn integer_edge_cases_round_trip() {
    for i in [127i64, 128, -1, -129] {
        assert_eq!(decode_integer(&encode_integer(i)), Some(i));
    }
}

#[test]
fn integer_extremes_round_trip() {
    assert_eq!(encode_integer(0), vec![0x00]);
    assert_eq!(encode_integer(-128), vec![0x80]);
    assert_eq!(encode_integer(255), vec![0x00, 0xff]);
    assert_eq!(encode_integer(256), vec![0x01, 0x00]);
    assert_eq!(
        encode_integer(i64::MAX),
        vec![0x7f, 0xff, 0xff, 0xff, 0xff, 0xff, 0xff, 0xff]
    );
    assert_eq!(encode_integer(i64::MIN), vec![0x80, 0, 0, 0, 0, 0, 0, 0]);
    for i in [0i64, -128, 255, 256, -32768, -32769, 32767, 32768, i64::MAX, i64::MIN] {
        assert_eq!(decode_integer(&encode_integer(i)), Some(i));
    }
}

#[test]
fn integer_decode_rejects_spare_octets() {
    assert_eq!(decode_integer(&[]), None);
    assert_eq!(decode_integer(&[0x00, 0x7f]), None);
    assert_eq!(decode_integer(&[0xff, 0x80]), None);
    assert_eq!(decode_integer(&[0x00, 0x80]), Some(128));
    assert_eq!(decode_integer(&[0xff, 0x7f]), Some(-129));
    assert_eq!(decode_integer(&[1, 0, 0, 0, 0, 0, 0, 0, 0]), None);
}
