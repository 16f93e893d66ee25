use ldap3::common::TagClass;
use ldap3::controls::RawControl;
use ldap3::messages::{
    abandon_request, add_request, compare_request, delete_request, encode_message, ldap_message,
    modify_dn_request, modify_request, parse_message, parse_response, simple_bind_request,
    unbind_request, Message, Mod,
};
use ldap3::parse::decode;
use ldap3::result::{LdapError, LdapResult};
use ldap3::search::Attribute;
use ldap3::structure::{StructureTag, PL};
use ldap3::structures::ASNTag;
use ldap3::write::encode;

fn prim(class: TagClass, id: u64, bytes: &[u8]) -> StructureTag {
    StructureTag { class, id, payload: PL::P(bytes.to_vec()) }
}

fn cons(class: TagClass, id: u64, inner: Vec<StructureTag>) -> StructureTag {
    StructureTag { class, id, payload: PL::C(inner) }
}

fn os(bytes: &[u8]) -> StructureTag {
    prim(TagClass::Universal, 4, bytes)
}

#[test]
fn simple_bind_on_the_wire() {
    let bytes = encode_message(1, simple_bind_request("cn=Manager,dc=example,dc=org", "secret"), None);
    let mut want = vec![0x30, 0x2e, 0x02, 0x01, 0x01, 0x60, 0x29, 0x02, 0x01, 0x03, 0x04, 0x1c];
    want.extend_from_slice(b"cn=Manager,dc=example,dc=org");
    want.extend_from_slice(&[0x80, 0x06]);
    want.extend_from_slice(b"secret");
    assert_eq!(bytes, want);
}

#[test]
fn bind_response_success() {
    let bytes = [0x30, 0x0c, 0x02, 0x01, 0x01, 0x61, 0x07, 0x0a, 0x01, 0x00, 0x04, 0x00, 0x04, 0x00];
    let (tag, used) = decode(&bytes, true).unwrap();
    assert_eq!(used, bytes.len());
    let message = parse_message(tag).unwrap();
    assert_eq!(message.msgid, 1);
    assert_eq!(message.op.id, 1);
    assert_eq!(message.op.class, TagClass::Application);
    assert!(message.controls.is_empty());
    let (result, _) = parse_response(message.op).unwrap();
    assert_eq!(result.rc, 0);
    assert_eq!(result.matched, "");
    assert_eq!(result.text, "");
    assert!(result.refs.is_empty());
    assert!(result.success().is_ok());
}

#[test]
fn result_with_referral_and_failure() {
    let op = cons(
        TagClass::Application,
        5,
        vec![
            prim(TagClass::Universal, 10, &[10]),
            os(b"dc=example,dc=org"),
            os(b"look elsewhere"),
            cons(TagClass::Context, 3, vec![os(b"ldap://a/"), os(b"ldap://b/")]),
        ],
    );
    let (result, exop) = parse_response(op).unwrap();
    assert_eq!(
        result,
        LdapResult {
            rc: 10,
            matched: "dc=example,dc=org".to_string(),
            text: "look elsewhere".to_string(),
            refs: vec!["ldap://a/".to_string(), "ldap://b/".to_string()],
        }
    );
    assert_eq!(exop.name, None);
    assert_eq!(exop.val, None);
    let failed = LdapResult { rc: 49, matched: String::new(), text: "bad".to_string(), refs: vec![] };
    assert_eq!(
        failed.success(),
        Err(LdapError::Result(LdapResult {
            rc: 49,
            matched: String::new(),
            text: "bad".to_string(),
            refs: vec![]
        }))
    );
    let referral = LdapResult { rc: 10, matched: String::new(), text: String::new(), refs: vec![] };
    assert!(referral.non_error().is_ok());
}

#[test]
fn result_bad_shapes() {
    let two = cons(TagClass::Application, 1, vec![prim(TagClass::Universal, 10, &[0]), os(b"")]);
    assert_eq!(parse_response(two), Err(LdapError::Codec));
    let wide = cons(
        TagClass::Application,
        1,
        vec![prim(TagClass::Universal, 10, &[0, 0]), os(b""), os(b"")],
    );
    assert_eq!(parse_response(wide), Err(LdapError::Codec));
    let negative = cons(
        TagClass::Application,
        1,
        vec![prim(TagClass::Universal, 10, &[0xff]), os(b""), os(b"")],
    );
    assert_eq!(parse_response(negative), Err(LdapError::Codec));
    let not_text = cons(
        TagClass::Application,
        1,
        vec![prim(TagClass::Universal, 10, &[0]), os(&[0xc0]), os(b"")],
    );
    assert_eq!(parse_response(not_text), Err(LdapError::Codec));
    assert_eq!(parse_response(prim(TagClass::Application, 1, &[])), Err(LdapError::Codec));
}

#[test]
fn unbind_and_abandon_on_the_wire() {
    assert_eq!(encode(&unbind_request().into_structure()), vec![0x42, 0x00]);
    assert_eq!(encode(&abandon_request(5).into_structure()), vec![0x50, 0x01, 0x05]);
    assert_eq!(encode(&abandon_request(300).into_structure()), vec![0x50, 0x02, 0x01, 0x2c]);
    assert_eq!(encode_message(7, unbind_request(), None), vec![0x30, 0x05, 0x02, 0x01, 0x07, 0x42, 0x00]);
}

#[test]
fn delete_compare_modify_dn() {
    assert_eq!(encode(&delete_request("cn=x").into_structure()), vec![0x4a, 0x04, b'c', b'n', b'=', b'x']);
    assert_eq!(
        compare_request("cn=x", "sn", b"y".to_vec()).into_structure(),
        cons(
            TagClass::Application,
            14,
            vec![os(b"cn=x"), cons(TagClass::Universal, 16, vec![os(b"sn"), os(b"y")])]
        )
    );
    assert_eq!(
        modify_dn_request("cn=x,o=a", "cn=y", true, None).into_structure(),
        cons(
            TagClass::Application,
            12,
            vec![os(b"cn=x,o=a"), os(b"cn=y"), prim(TagClass::Universal, 1, &[0xff])]
        )
    );
    assert_eq!(
        modify_dn_request("cn=x,o=a", "cn=y", false, Some("o=b")).into_structure(),
        cons(
            TagClass::Application,
            12,
            vec![
                os(b"cn=x,o=a"),
                os(b"cn=y"),
                prim(TagClass::Universal, 1, &[0x00]),
                prim(TagClass::Context, 0, b"o=b"),
            ]
        )
    );
}

#[test]
fn add_and_modify() {
    let attrs = vec![
        Attribute { name: "objectClass".to_string(), values: vec![b"top".to_vec(), b"person".to_vec()] },
        Attribute { name: "cn".to_string(), values: vec![b"x".to_vec()] },
    ];
    assert_eq!(
        add_request("cn=x", &attrs).into_structure(),
        cons(
            TagClass::Application,
            8,
            vec![
                os(b"cn=x"),
                cons(
                    TagClass::Universal,
                    16,
                    vec![
                        cons(
                            TagClass::Universal,
                            16,
                            vec![
                                os(b"objectClass"),
                                cons(TagClass::Universal, 17, vec![os(b"top"), os(b"person")]),
                            ]
                        ),
                        cons(
                            TagClass::Universal,
                            16,
                            vec![os(b"cn"), cons(TagClass::Universal, 17, vec![os(b"x")])]
                        ),
                    ]
                ),
            ]
        )
    );
    let mods = vec![
        Mod::Add(Attribute { name: "a".to_string(), values: vec![b"1".to_vec()] }),
        Mod::Delete(Attribute { name: "b".to_string(), values: vec![] }),
        Mod::Replace(Attribute { name: "c".to_string(), values: vec![b"3".to_vec()] }),
    ];
    let change = |code: u8, name: &[u8], vals: Vec<StructureTag>| {
        cons(
            TagClass::Universal,
            16,
            vec![
                prim(TagClass::Universal, 10, &[code]),
                cons(TagClass::Universal, 16, vec![os(name), cons(TagClass::Universal, 17, vals)]),
            ],
        )
    };
    assert_eq!(
        modify_request("cn=x", &mods).into_structure(),
        cons(
            TagClass::Application,
            6,
            vec![
                os(b"cn=x"),
                cons(
                    TagClass::Universal,
                    16,
                    vec![
                        change(0, b"a", vec![os(b"1")]),
                        change(1, b"b", vec![]),
                        change(2, b"c", vec![os(b"3")]),
                    ]
                ),
            ]
        )
    );
}

#[test]
fn envelope_round_trip_with_controls() {
    let controls = vec![RawControl { ctype: "1.1".to_string(), crit: true, val: Some(vec![1]) }];
    let message = ldap_message(77, delete_request("cn=x"), Some(controls.clone()));
    let bytes = encode(&message);
    let (tag, used) = decode(&bytes, true).unwrap();
    assert_eq!(used, bytes.len());
    assert_eq!(
        parse_message(tag),
        Ok(Message { msgid: 77, op: prim(TagClass::Application, 10, b"cn=x"), controls })
    );
}

#[test]
fn envelope_bad_shapes() {
    assert_eq!(parse_message(prim(TagClass::Universal, 16, &[])), Err(LdapError::Codec));
    assert_eq!(
        parse_message(cons(TagClass::Universal, 16, vec![prim(TagClass::Universal, 2, &[1])])),
        Err(LdapError::Codec)
    );
    assert_eq!(
        parse_message(cons(
            TagClass::Universal,
            16,
            vec![prim(TagClass::Universal, 2, &[0xff]), prim(TagClass::Application, 1, &[])]
        )),
        Err(LdapError::Codec)
    );
    assert_eq!(
        parse_message(cons(
            TagClass::Universal,
            16,
            vec![prim(TagClass::Universal, 2, &[1]), prim(TagClass::Universal, 4, &[])]
        )),
        Err(LdapError::Codec)
    );
    let unsolicited = cons(
        TagClass::Universal,
        16,
        vec![prim(TagClass::Universal, 2, &[0]), prim(TagClass::Application, 24, &[])],
    );
    assert_eq!(parse_message(unsolicited).map(|m| m.msgid), Ok(0));
}
