use std::time::Duration;

use ldap3::common::TagClass;
use ldap3::controls::RawControl;
use ldap3::filter::{ParseError, Reason};
use ldap3::ldap::{
    bundle, is_starttls, next_req_controls, next_search_options, next_timeout, Ldap, LdapConnSettings,
    LdapOp,
};
use ldap3::messages::{parse_message, unbind_request};
use ldap3::parse::decode;
use ldap3::protocol::{Route, SinkKind};
use ldap3::result::LdapError;
use ldap3::search::{DerefAliases, Scope, SearchEntry, SearchOptions};
use ldap3::structure::{StructureTag, PL};
use ldap3::structures::Tag;

fn prim(class: TagClass, id: u64, bytes: &[u8]) -> StructureTag {
    StructureTag { class, id, payload: PL::P(bytes.to_vec()) }
}

fn cons(class: TagClass, id: u64, inner: Vec<StructureTag>) -> StructureTag {
    StructureTag { class, id, payload: PL::C(inner) }
}

fn os(bytes: &[u8]) -> StructureTag {
    prim(TagClass::Universal, 4, bytes)
}

#[test]
fn settings_apply_once() {
    let mut ldap = Ldap::new();
    ldap.with_timeout(Duration::from_millis(1));
    ldap.with_timeout(Duration::from_millis(5));
    assert_eq!(next_timeout(&mut ldap), Some(Duration::from_millis(5)));
    assert_eq!(next_timeout(&mut ldap), None);
    let opts = SearchOptions::new().sizelimit(3);
    ldap.with_search_options(opts);
    assert_eq!(next_search_options(&mut ldap), Some(opts));
    assert_eq!(next_search_options(&mut ldap), None);
    let controls = vec![RawControl { ctype: "1.1".to_string(), crit: false, val: None }];
    ldap.with_controls(controls.clone()).with_search_options(opts);
    assert_eq!(next_req_controls(&mut ldap), Some(controls));
    assert_eq!(next_req_controls(&mut ldap), None);
    assert_eq!(next_search_options(&mut ldap), None);
}

#[test]
fn call_uses_up_the_settings() {
    let mut ldap = Ldap::new();
    ldap.with_timeout(Duration::from_secs(2)).with_search_options(SearchOptions::new());
    let first = ldap.call(LdapOp::Solo(unbind_request(), None)).unwrap();
    assert_eq!(first.msgid, 1);
    assert_eq!(first.kind, SinkKind::Solo);
    assert_eq!(first.timeout, Some(Duration::from_secs(2)));
    assert_eq!(first.bytes, vec![0x30, 0x05, 0x02, 0x01, 0x01, 0x42, 0x00]);
    assert_eq!(next_search_options(&mut ldap), None);
    let second = ldap.call(LdapOp::Single(unbind_request(), None)).unwrap();
    assert_eq!(second.msgid, 2);
    assert_eq!(second.timeout, None);
    assert_eq!(bundle(&ldap).kind_of(1), None);
    assert_eq!(bundle(&ldap).kind_of(2), Some(SinkKind::Single));
}

#[test]
fn search_submission() {
    let mut ldap = Ldap::new();
    let controls = vec![RawControl { ctype: "1.2.3".to_string(), crit: true, val: None }];
    ldap.with_controls(controls.clone())
        .with_search_options(SearchOptions::new().sizelimit(10).deref(DerefAliases::InSearch))
        .with_timeout(Duration::from_millis(250));
    let s = ldap
        .search(
            "dc=example,dc=org".to_string(),
            Scope::OneLevel,
            DerefAliases::Never,
            true,
            "(cn=a)".to_string(),
            vec!["cn".to_string()],
        )
        .unwrap();
    assert_eq!(s.msgid, 1);
    assert_eq!(s.kind, SinkKind::Streaming);
    assert_eq!(s.timeout, Some(Duration::from_millis(250)));
    let (tag, used) = decode(&s.bytes, true).unwrap();
    assert_eq!(used, s.bytes.len());
    let message = parse_message(tag).unwrap();
    assert_eq!(message.msgid, 1);
    assert_eq!(message.controls, controls);
    assert_eq!(
        message.op,
        cons(
            TagClass::Application,
            3,
            vec![
                os(b"dc=example,dc=org"),
                prim(TagClass::Universal, 10, &[1]),
                prim(TagClass::Universal, 10, &[1]),
                prim(TagClass::Universal, 2, &[10]),
                prim(TagClass::Universal, 2, &[0]),
                prim(TagClass::Universal, 1, &[0]),
                cons(TagClass::Context, 3, vec![os(b"cn"), os(b"a")]),
                cons(TagClass::Universal, 16, vec![os(b"cn")]),
            ]
        )
    );
    let next = ldap
        .search(
            "dc=example,dc=org".to_string(),
            Scope::Base,
            DerefAliases::Always,
            true,
            "(cn=a)".to_string(),
            vec![],
        )
        .unwrap();
    assert_eq!(next.msgid, 2);
    assert_eq!(next.timeout, None);
    let (tag, _) = decode(&next.bytes, true).unwrap();
    let message = parse_message(tag).unwrap();
    assert!(message.controls.is_empty());
    let parts = message.op.expect_constructed().unwrap();
    assert_eq!(parts[1], prim(TagClass::Universal, 10, &[0]));
    assert_eq!(parts[2], prim(TagClass::Universal, 10, &[3]));
    assert_eq!(parts[5], prim(TagClass::Universal, 1, &[0xff]));
}

#[test]
fn search_with_a_bad_filter_writes_nothing() {
    let mut ldap = Ldap::new();
    ldap.with_timeout(Duration::from_secs(1));
    let r = ldap.search(
        "dc=org".to_string(),
        Scope::Base,
        DerefAliases::Never,
        false,
        "(cn=a".to_string(),
        vec![],
    );
    assert!(matches!(
        r,
        Err(LdapError::FilterParse(ParseError { position: 5, reason: Reason::UnexpectedEnd }))
    ));
    assert_eq!(bundle(&ldap).next_id(), Some(1));
    assert_eq!(next_timeout(&mut ldap), None);
}

#[test]
fn streaming_search_with_abandon() {
    let mut ldap = Ldap::new();
    let s = ldap
        .streaming_search(
            "ou=Places,dc=example,dc=org".to_string(),
            Scope::Subtree,
            DerefAliases::Never,
            false,
            "(objectClass=locality)".to_string(),
            vec!["l".to_string()],
        )
        .unwrap();
    assert_eq!(s.kind, SinkKind::Streaming);
    assert_eq!(ldap.route(s.msgid, 4), Route::Item);
    let entry = cons(
        TagClass::Application,
        4,
        vec![os(b"l=Rome,ou=Places,dc=example,dc=org"), cons(TagClass::Universal, 16, vec![])],
    );
    assert!(matches!(SearchEntry::construct(Tag::StructureTag(entry)), Ok(SearchEntry::Object { .. })));
    let (decision, bytes) = ldap.abandon(s.msgid);
    assert!(decision.close_sink);
    assert_eq!(decision.request_id, Some(2));
    assert_eq!(bytes, Some(vec![0x30, 0x06, 0x02, 0x01, 0x02, 0x50, 0x01, 0x01]));
    assert!(bundle(&ldap).is_abandoned(s.msgid));
    assert_eq!(ldap.route(s.msgid, 4), Route::Drop);
    assert_eq!(ldap.route(s.msgid, 5), Route::Drop);
}

#[test]
fn streaming_search_timeout_makes_up_the_end() {
    let mut ldap = Ldap::new();
    ldap.with_timeout(Duration::from_millis(1));
    let s = ldap
        .streaming_search(
            "dc=org".to_string(),
            Scope::Subtree,
            DerefAliases::Never,
            false,
            "(cn=*)".to_string(),
            vec![],
        )
        .unwrap();
    assert_eq!(s.timeout, Some(Duration::from_millis(1)));
    let told = ldap.timed_out(s.msgid).unwrap().unwrap();
    assert_eq!(told.rc, 85);
    assert_eq!(told.matched, "");
    assert_eq!(told.text, "");
    assert!(told.refs.is_empty());
    assert!(bundle(&ldap).is_abandoned(s.msgid));
    assert_eq!(bundle(&ldap).kind_of(s.msgid), None);
    assert_eq!(ldap.route(s.msgid, 5), Route::Drop);
    assert_eq!(ldap.timed_out(s.msgid), None);
}

#[test]
fn single_timeout_fails_without_abandon_request() {
    let mut ldap = Ldap::new();
    let s = ldap.call(LdapOp::Single(unbind_request(), None)).unwrap();
    assert_eq!(ldap.timed_out(s.msgid), Some(Err(LdapError::Timeout)));
    assert!(bundle(&ldap).is_abandoned(s.msgid));
    assert_eq!(bundle(&ldap).next_id(), Some(2));
    let solo = ldap.call(LdapOp::Solo(unbind_request(), None)).unwrap();
    assert_eq!(ldap.timed_out(solo.msgid), None);
    assert!(!bundle(&ldap).is_abandoned(solo.msgid));
}

#[test]
fn disconnect_ends_submissions() {
    let mut ldap = Ldap::new();
    let a = ldap.call(LdapOp::Single(unbind_request(), None)).unwrap();
    let b = ldap.call(LdapOp::Multi(unbind_request(), None)).unwrap();
    assert_eq!(ldap.disconnect(), vec![a.msgid, b.msgid]);
    assert!(matches!(ldap.call(LdapOp::Single(unbind_request(), None)), Err(LdapError::Io)));
    let (decision, bytes) = ldap.abandon(a.msgid);
    assert_eq!(decision.request_id, None);
    assert_eq!(bytes, None);
}

#[test]
fn connection_settings() {
    let s = LdapConnSettings::new();
    assert_eq!(s.get_conn_timeout(), None);
    assert!(!is_starttls(&s));
    assert!(!s.get_no_tls_verify());
    let s = s.set_conn_timeout(Duration::from_secs(3)).set_starttls(true).set_no_tls_verify(true);
    assert_eq!(s.get_conn_timeout(), Some(Duration::from_secs(3)));
    assert!(is_starttls(&s));
    assert!(s.get_no_tls_verify());
    let d = LdapConnSettings::default();
    assert!(!is_starttls(&d));
}

#[test]
fn receive_waits_for_a_whole_message() {
    let mut ldap = Ldap::new();
    let s = ldap.call(LdapOp::Single(unbind_request(), None)).unwrap();
    let response = [0x30, 0x0c, 0x02, 0x01, 0x01, 0x61, 0x07, 0x0a, 0x01, 0x00, 0x04, 0x00, 0x04, 0x00];
    for cut in 0..response.len() {
        assert_eq!(ldap.receive(&response[..cut], false), ldap3::ldap::Received::NeedMore);
    }
    assert_eq!(bundle(&ldap).kind_of(s.msgid), Some(SinkKind::Single));
    let mut buffer = response.to_vec();
    buffer.extend_from_slice(&[0x30, 0x0c, 0x02]);
    match ldap.receive(&buffer, false) {
        ldap3::ldap::Received::Message { used, route, message } => {
            assert_eq!(used, response.len());
            assert_eq!(route, Route::Single);
            assert_eq!(message.msgid, 1);
            assert_eq!(message.op.id, 1);
        }
        other => panic!("{:?}", other),
    }
    assert_eq!(bundle(&ldap).kind_of(s.msgid), None);
    match ldap.receive(&response, false) {
        ldap3::ldap::Received::Message { route, .. } => assert_eq!(route, Route::Drop),
        other => panic!("{:?}", other),
    }
}

#[test]
fn receive_fails_on_what_is_no_message() {
    let mut ldap = Ldap::new();
    assert_eq!(ldap.receive(&[0x30, 0x80], false), ldap3::ldap::Received::Fatal);
    assert_eq!(ldap.receive(&[0x04, 0x01, 0x00], false), ldap3::ldap::Received::Fatal);
    assert_eq!(ldap.receive(&[0x30, 0x81, 0x03, 0x02, 0x01, 0x01], true), ldap3::ldap::Received::Fatal);
}

#[test]
fn notice_of_disconnection_ends_the_connection() {
    let mut ldap = Ldap::new();
    let a = ldap.call(LdapOp::Single(unbind_request(), None)).unwrap();
    let b = ldap.call(LdapOp::Multi(unbind_request(), None)).unwrap();
    let other = cons(
        TagClass::Application,
        24,
        vec![prim(TagClass::Universal, 10, &[0]), os(b""), os(b""), prim(TagClass::Context, 10, b"1.2.3")],
    );
    assert_eq!(ldap.unsolicited(other), ldap3::ldap::Notice::Ignored);
    assert_eq!(bundle(&ldap).pending_count(), 2);
    let notice = cons(
        TagClass::Application,
        24,
        vec![
            prim(TagClass::Universal, 10, &[52]),
            os(b""),
            os(b"going down"),
            prim(TagClass::Context, 10, b"1.3.6.1.4.1.1466.20036"),
        ],
    );
    let told = ldap.unsolicited(notice);
    assert_eq!(told, ldap3::ldap::Notice::Disconnection(vec![a.msgid, b.msgid]));
    assert_eq!(told.failure(), Some(LdapError::ServerDisconnect));
    assert_eq!(ldap3::ldap::Notice::Ignored.failure(), None);
    assert!(bundle(&ldap).is_terminal());
    assert_eq!(bundle(&ldap).pending_count(), 0);
}

#[test]
fn upgrade_needs_a_quiet_connection() {
    let mut ldap = Ldap::new();
    assert!(ldap.can_upgrade());
    let s = ldap.call(LdapOp::Single(unbind_request(), None)).unwrap();
    assert!(!ldap.can_upgrade());
    assert_eq!(ldap.route(s.msgid, 24), Route::Single);
    assert!(ldap.can_upgrade());
    ldap.disconnect();
    assert!(!ldap.can_upgrade());
}

#[test]
fn response_of_a_message() {
    let message = ldap3::messages::Message {
        msgid: 3,
        op: prim(TagClass::Application, 7, b"x"),
        controls: vec![RawControl { ctype: "1.1".to_string(), crit: false, val: None }],
    };
    let response = ldap3::ldap::LdapResponse::from_message(message);
    assert_eq!(response.0, Tag::StructureTag(prim(TagClass::Application, 7, b"x")));
    assert_eq!(response.1, vec![RawControl { ctype: "1.1".to_string(), crit: false, val: None }]);
}
