use ldap3::common::TagClass;
use ldap3::exop_impl::{construct_exop, Exop, ExopParser, StartTLS, WhoAmI, WhoAmIResp};
use ldap3::messages::{extended_request, parse_response};
use ldap3::structure::{StructureTag, PL};
use ldap3::structures::octetstring::OctetString;
use ldap3::structures::{ASNTag, Tag};
use ldap3::write::encode;

fn prim(class: TagClass, id: u64, bytes: &[u8]) -> StructureTag {
    StructureTag { class, id, payload: PL::P(bytes.to_vec()) }
}

fn cons(class: TagClass, id: u64, inner: Vec<StructureTag>) -> StructureTag {
    StructureTag { class, id, payload: PL::C(inner) }
}

#[test]
fn construct_exop_name_only() {
    let seq = construct_exop(Exop { name: Some("1.2.3".to_string()), val: None });
    assert_eq!(
        seq,
        vec![Tag::OctetString(OctetString { id: 0, class: TagClass::Context, inner: b"1.2.3".to_vec() })]
    );
}

#[test]
fn construct_exop_name_and_value() {
    let seq = construct_exop(Exop { name: Some("1.2.3".to_string()), val: Some(vec![7, 8]) });
    assert_eq!(
        seq,
        vec![
            Tag::OctetString(OctetString { id: 0, class: TagClass::Context, inner: b"1.2.3".to_vec() }),
            Tag::OctetString(OctetString { id: 1, class: TagClass::Context, inner: vec![7, 8] }),
        ]
    );
}

#[test]
fn whoami_request_on_the_wire() {
    let exop = WhoAmI.into_exop();
    assert_eq!(exop.name.as_deref(), Some("1.3.6.1.4.1.4203.1.11.3"));
    assert_eq!(exop.val, None);
    let bytes = encode(&extended_request(exop).into_structure());
    let mut want = vec![0x77, 0x19, 0x80, 0x17];
    want.extend_from_slice(b"1.3.6.1.4.1.4203.1.11.3");
    assert_eq!(bytes, want);
}

#[test]
fn starttls_request_name() {
    let exop = StartTLS.into_exop();
    assert_eq!(exop.name.as_deref(), Some("1.3.6.1.4.1.1466.20037"));
    assert_eq!(exop.val, None);
}

#[test]
fn whoami_response_is_the_authzid() {
    let response = cons(
        TagClass::Application,
        24,
        vec![
            prim(TagClass::Universal, 10, &[0]),
            prim(TagClass::Universal, 4, b""),
            prim(TagClass::Universal, 4, b""),
            prim(TagClass::Context, 11, b"dn:cn=Manager,dc=example,dc=org"),
        ],
    );
    let (result, exop) = parse_response(response).unwrap();
    assert_eq!(result.rc, 0);
    assert_eq!(exop.name, None);
    let who: WhoAmIResp = exop.parse();
    assert_eq!(who.authzid, "dn:cn=Manager,dc=example,dc=org");
    assert!(who.authzid.starts_with("dn:") || who.authzid.starts_with("u:"));
    let direct = WhoAmIResp::parse(b"u:admin");
    assert_eq!(direct.authzid, "u:admin");
}

#[test]
fn extended_response_name_and_value() {
    let response = cons(
        TagClass::Application,
        24,
        vec![
            prim(TagClass::Universal, 10, &[0]),
            prim(TagClass::Universal, 4, b""),
            prim(TagClass::Universal, 4, b"ok"),
            prim(TagClass::Context, 10, b"1.3.6.1.4.1.1466.20037"),
            prim(TagClass::Context, 11, &[1, 2, 3]),
        ],
    );
    let (result, exop) = parse_response(response).unwrap();
    assert_eq!(result.text, "ok");
    assert_eq!(
        exop,
        Exop { name: Some("1.3.6.1.4.1.1466.20037".to_string()), val: Some(vec![1, 2, 3]) }
    );
}

#[test]
fn password_modify_request_value() {
    let exop = ldap3::exop_impl::PasswordModify {
        user_id: Some("uid=a"),
        old_pass: None,
        new_pass: Some("pw"),
    }
    .into_exop();
    assert_eq!(exop.name.as_deref(), Some("1.3.6.1.4.1.4203.1.11.1"));
    assert_eq!(
        exop.val,
        Some(vec![0x30, 0x0b, 0x80, 0x05, b'u', b'i', b'd', b'=', b'a', 0x82, 0x02, b'p', b'w'])
    );
    let empty = ldap3::exop_impl::PasswordModify { user_id: None, old_pass: None, new_pass: None }.into_exop();
    assert_eq!(empty.val, Some(vec![0x30, 0x00]));
}

#[test]
fn password_modify_response_value() {
    let val = [0x30, 0x06, 0x80, 0x04, b'n', b'e', b'w', b'!'];
    assert_eq!(ldap3::exop_impl::parse_gen_pass(&val), Some("new!".to_string()));
    let exop = Exop { name: None, val: Some(val.to_vec()) };
    let resp: ldap3::exop_impl::PasswordModifyResp = exop.parse();
    assert_eq!(resp.gen_pass, "new!");
    assert_eq!(ldap3::exop_impl::parse_gen_pass(&[0x30, 0x00]), None);
    assert_eq!(ldap3::exop_impl::parse_gen_pass(&[0x30, 0x03, 0x81, 0x01, b'x']), None);
    assert_eq!(ldap3::exop_impl::parse_gen_pass(&[0x30, 0x03, 0x80, 0x01, b'x', 0x00]), None);
    assert_eq!(ldap3::exop_impl::parse_gen_pass(&[0x30, 0x03, 0x80, 0x01]), None);
}

#[test]
fn starttls_needs_success() {
    let ok = ldap3::result::LdapResult { rc: 0, matched: String::new(), text: String::new(), refs: vec![] };
    assert_eq!(StartTLS::consent(&ok), Ok(()));
    let refused = ldap3::result::LdapResult {
        rc: 2,
        matched: String::new(),
        text: "unsupported".to_string(),
        refs: vec![],
    };
    assert_eq!(StartTLS::consent(&refused), Err(ldap3::result::LdapError::Tls));
}
