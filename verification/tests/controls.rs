use ldap3::common::TagClass;
use ldap3::controls::{build_controls, build_tag, parse_control, parse_controls, RawControl};
use ldap3::controls_impl::txn::{TxnSpec, TXN_REQUEST_OID};
use ldap3::structure::{StructureTag, PL};
use ldap3::write::encode;

fn prim(class: TagClass, id: u64, bytes: &[u8]) -> StructureTag {
    StructureTag { class, id, payload: PL::P(bytes.to_vec()) }
}

fn cons(class: TagClass, id: u64, inner: Vec<StructureTag>) -> StructureTag {
    StructureTag { class, id, payload: PL::C(inner) }
}

#[test]
fn control_with_all_parts() {
    let rc = RawControl { ctype: "1.2.3".to_string(), crit: true, val: Some(vec![1, 2]) };
    let tag = build_tag(rc.clone());
    assert_eq!(
        tag,
        cons(
            TagClass::Universal,
            16,
            vec![
                prim(TagClass::Universal, 4, b"1.2.3"),
                prim(TagClass::Universal, 1, &[0xff]),
                prim(TagClass::Universal, 4, &[1, 2]),
            ]
        )
    );
    assert_eq!(parse_control(tag), Some(rc));
}

#[test]
fn control_defaults_are_left_out() {
    let rc = RawControl { ctype: "1.2.840.113556.1.4.319".to_string(), crit: false, val: None };
    let tag = build_tag(rc.clone());
    assert_eq!(
        tag,
        cons(TagClass::Universal, 16, vec![prim(TagClass::Universal, 4, b"1.2.840.113556.1.4.319")])
    );
    assert_eq!(parse_control(tag), Some(rc));
    let rc = RawControl { ctype: "1.1".to_string(), crit: false, val: Some(vec![]) };
    let tag = build_tag(rc.clone());
    assert_eq!(encode(&tag), vec![0x30, 0x07, 0x04, 0x03, b'1', b'.', b'1', 0x04, 0x00]);
    assert_eq!(parse_control(tag), Some(rc));
}

#[test]
fn control_boolean_any_nonzero_is_true() {
    let tag = cons(
        TagClass::Universal,
        16,
        vec![prim(TagClass::Universal, 4, b"1.1"), prim(TagClass::Universal, 1, &[0x01])],
    );
    assert_eq!(parse_control(tag), Some(RawControl { ctype: "1.1".to_string(), crit: true, val: None }));
    let tag = cons(
        TagClass::Universal,
        16,
        vec![prim(TagClass::Universal, 4, b"1.1"), prim(TagClass::Universal, 1, &[0x00])],
    );
    assert_eq!(parse_control(tag), Some(RawControl { ctype: "1.1".to_string(), crit: false, val: None }));
}

#[test]
fn control_bad_shapes() {
    assert_eq!(parse_control(prim(TagClass::Universal, 16, b"")), None);
    assert_eq!(parse_control(cons(TagClass::Universal, 16, vec![])), None);
    assert_eq!(
        parse_control(cons(TagClass::Universal, 16, vec![prim(TagClass::Universal, 4, &[0xff, 0xfe])])),
        None
    );
    assert_eq!(
        parse_control(cons(
            TagClass::Universal,
            16,
            vec![prim(TagClass::Universal, 4, b"1.1"), prim(TagClass::Universal, 1, &[1, 2])]
        )),
        None
    );
    assert_eq!(
        parse_control(cons(
            TagClass::Universal,
            16,
            vec![
                prim(TagClass::Universal, 4, b"1.1"),
                prim(TagClass::Universal, 4, b"v"),
                prim(TagClass::Universal, 4, b"w"),
            ]
        )),
        None
    );
}

#[test]
fn controls_wrapper_round_trip() {
    let list = vec![
        RawControl { ctype: "1.1".to_string(), crit: true, val: None },
        RawControl { ctype: "2.2".to_string(), crit: false, val: Some(vec![9]) },
    ];
    let tag = build_controls(list.clone());
    assert_eq!(tag.class, TagClass::Context);
    assert_eq!(tag.id, 0);
    let inner = tag.expect_constructed().unwrap();
    assert_eq!(inner.len(), 2);
    assert_eq!(parse_controls(inner), Some(list));
    assert_eq!(parse_controls(vec![]), Some(vec![]));
    assert_eq!(parse_controls(vec![prim(TagClass::Universal, 4, b"x")]), None);
}

#[test]
fn txn_control_is_critical() {
    let rc = RawControl::from(TxnSpec { txn_id: "txn-17" });
    assert_eq!(TXN_REQUEST_OID, "1.3.6.1.1.21.2");
    assert_eq!(
        rc,
        RawControl { ctype: "1.3.6.1.1.21.2".to_string(), crit: true, val: Some(b"txn-17".to_vec()) }
    );
}

#[test]
fn paged_results_value() {
    let request = RawControl::from(ldap3::controls_impl::paged_results::PagedResults {
        size: 500,
        cookie: vec![],
    });
    assert_eq!(request.ctype, "1.2.840.113556.1.4.319");
    assert!(!request.crit);
    assert_eq!(request.val, Some(vec![0x30, 0x06, 0x02, 0x02, 0x01, 0xf4, 0x04, 0x00]));
    let response = RawControl {
        ctype: "1.2.840.113556.1.4.319".to_string(),
        crit: false,
        val: Some(vec![0x30, 0x07, 0x02, 0x01, 0x00, 0x04, 0x02, 0xab, 0xcd]),
    };
    let page: ldap3::controls_impl::paged_results::PagedResults = response.parse();
    assert_eq!(page.size, 0);
    assert_eq!(page.cookie, vec![0xab, 0xcd]);
    let parse_paged = ldap3::controls_impl::paged_results::parse_paged;
    assert_eq!(parse_paged(&[0x30, 0x03, 0x02, 0x01, 0x00]), None);
    assert_eq!(parse_paged(&[0x30, 0x05, 0x02, 0x01, 0xff, 0x04, 0x00]), None);
    assert_eq!(parse_paged(&[0x30, 0x06, 0x02, 0x02, 0x00, 0x01, 0x04, 0x00]), None);
    assert_eq!(parse_paged(&[0x30, 0x05, 0x02, 0x01, 0x01, 0x04, 0x00, 0x00]), None);
}

#[test]
fn boolean_octet() {
    let decode_boolean = ldap3::structures::boolean::decode_boolean;
    assert_eq!(decode_boolean(&[0x00]), Some(false));
    assert_eq!(decode_boolean(&[0xff]), Some(true));
    assert_eq!(decode_boolean(&[0x01]), Some(true));
    assert_eq!(decode_boolean(&[]), None);
    assert_eq!(decode_boolean(&[0xff, 0xff]), None);
}
