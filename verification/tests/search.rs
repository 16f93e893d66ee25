use ldap3::common::TagClass;
use ldap3::filter::{ParseError, Reason};
use ldap3::result::{LdapError, LdapResult};
use ldap3::search::{
    construct_attributes, search_request, Attribute, DerefAliases, Scope, SearchEntry, SearchOptions,
};
use ldap3::structure::{StructureTag, PL};
use ldap3::structures::null::Null;
use ldap3::structures::{ASNTag, Tag};
use ldap3::write::encode;

fn prim(class: TagClass, id: u64, bytes: &[u8]) -> StructureTag {
    StructureTag { class, id, payload: PL::P(bytes.to_vec()) }
}

fn cons(class: TagClass, id: u64, inner: Vec<StructureTag>) -> StructureTag {
    StructureTag { class, id, payload: PL::C(inner) }
}

fn os(bytes: &[u8]) -> StructureTag {
    prim(TagClass::Universal, 4, bytes)
}

fn attr(name: &[u8], values: &[&[u8]]) -> StructureTag {
    cons(
        TagClass::Universal,
        16,
        vec![os(name), cons(TagClass::Universal, 17, values.iter().map(|v| os(v)).collect())],
    )
}

#[test]
fn search_request_tree() {
    let opts = SearchOptions::new();
    let tag = search_request(
        "ou=Places,dc=example,dc=org",
        Scope::Subtree,
        opts,
        "(objectClass=locality)",
        &vec!["l".to_string()],
    )
    .unwrap();
    assert_eq!(
        tag.into_structure(),
        cons(
            TagClass::Application,
            3,
            vec![
                os(b"ou=Places,dc=example,dc=org"),
                prim(TagClass::Universal, 10, &[2]),
                prim(TagClass::Universal, 10, &[0]),
                prim(TagClass::Universal, 2, &[0]),
                prim(TagClass::Universal, 2, &[0]),
                prim(TagClass::Universal, 1, &[0]),
                cons(TagClass::Context, 3, vec![os(b"objectClass"), os(b"locality")]),
                cons(TagClass::Universal, 16, vec![os(b"l")]),
            ]
        )
    );
}

#[test]
fn search_request_on_the_wire() {
    let opts = SearchOptions::new()
        .deref(DerefAliases::Always)
        .typesonly(true)
        .sizelimit(1000)
        .timelimit(30);
    let tag = search_request("", Scope::Base, opts, "(cn=*)", &vec![]).unwrap();
    assert_eq!(
        encode(&tag.into_structure()),
        vec![
            0x63, 0x18, 0x04, 0x00, 0x0a, 0x01, 0x00, 0x0a, 0x01, 0x03, 0x02, 0x02, 0x03, 0xe8, 0x02,
            0x01, 0x1e, 0x01, 0x01, 0xff, 0x87, 0x02, b'c', b'n', 0x30, 0x00
        ]
    );
}

#[test]
fn search_request_bad_filter() {
    let r = search_request("dc=org", Scope::OneLevel, SearchOptions::new(), "(cn=a", &vec![]);
    assert_eq!(r, Err(ParseError { position: 5, reason: Reason::UnexpectedEnd }));
}

#[test]
fn scope_and_deref_numbers() {
    assert_eq!(Scope::Base.number(), 0);
    assert_eq!(Scope::OneLevel.number(), 1);
    assert_eq!(Scope::Subtree.number(), 2);
    assert_eq!(DerefAliases::Never.number(), 0);
    assert_eq!(DerefAliases::InSearch.number(), 1);
    assert_eq!(DerefAliases::FindingBaseObject.number(), 2);
    assert_eq!(DerefAliases::Always.number(), 3);
}

#[test]
fn construct_entry() {
    let tag = cons(
        TagClass::Application,
        4,
        vec![
            os(b"l=Rome,ou=Places,dc=example,dc=org"),
            cons(
                TagClass::Universal,
                16,
                vec![attr(b"l", &[b"Rome", b"Roma"]), attr(b"photo", &[&[0xff, 0x00, 0xfe]])],
            ),
        ],
    );
    assert_eq!(
        SearchEntry::construct(Tag::StructureTag(tag)),
        Ok(SearchEntry::Object {
            object_name: "l=Rome,ou=Places,dc=example,dc=org".to_string(),
            attributes: vec![
                Attribute { name: "l".to_string(), values: vec![b"Rome".to_vec(), b"Roma".to_vec()] },
                Attribute { name: "photo".to_string(), values: vec![vec![0xff, 0x00, 0xfe]] },
            ],
        })
    );
}

#[test]
fn construct_entry_later_attribute_replaces() {
    let tags = vec![attr(b"a", &[b"1"]), attr(b"b", &[b"2"]), attr(b"a", &[b"3", b"4"])];
    assert_eq!(
        construct_attributes(tags),
        Some(vec![
            Attribute { name: "a".to_string(), values: vec![b"3".to_vec(), b"4".to_vec()] },
            Attribute { name: "b".to_string(), values: vec![b"2".to_vec()] },
        ])
    );
    assert_eq!(construct_attributes(vec![]), Some(vec![]));
    assert_eq!(construct_attributes(vec![os(b"a")]), None);
    assert_eq!(construct_attributes(vec![attr(b"a", &[]), os(b"x")]), None);
}

#[test]
fn construct_reference_keeps_the_addresses() {
    let tag = cons(TagClass::Application, 19, vec![os(b"ldap://a/dc=x"), os(b"ldap://b/dc=x")]);
    assert_eq!(
        SearchEntry::construct(Tag::StructureTag(tag)),
        Ok(SearchEntry::Reference(vec!["ldap://a/dc=x".to_string(), "ldap://b/dc=x".to_string()]))
    );
}

#[test]
fn construct_done() {
    let tag = cons(TagClass::Application, 5, vec![prim(TagClass::Universal, 10, &[4]), os(b""), os(b"size")]);
    assert_eq!(
        SearchEntry::construct(Tag::StructureTag(tag)),
        Ok(SearchEntry::Done(LdapResult {
            rc: 4,
            matched: String::new(),
            text: "size".to_string(),
            refs: vec![]
        }))
    );
}

#[test]
fn construct_errors() {
    let bind = cons(TagClass::Application, 1, vec![prim(TagClass::Universal, 10, &[0]), os(b""), os(b"")]);
    assert_eq!(SearchEntry::construct(Tag::StructureTag(bind)), Err(LdapError::Protocol));
    let context = cons(TagClass::Context, 4, vec![]);
    assert_eq!(SearchEntry::construct(Tag::StructureTag(context)), Err(LdapError::Protocol));
    let null = Tag::Null(Null { id: 5, class: TagClass::Universal, inner: () });
    assert_eq!(SearchEntry::construct(null), Err(LdapError::Protocol));
    let flat = prim(TagClass::Application, 4, b"x");
    assert_eq!(SearchEntry::construct(Tag::StructureTag(flat)), Err(LdapError::Codec));
    let one = cons(TagClass::Application, 4, vec![os(b"cn=x")]);
    assert_eq!(SearchEntry::construct(Tag::StructureTag(one)), Err(LdapError::Codec));
    let bad_name = cons(TagClass::Application, 4, vec![os(&[0x80]), cons(TagClass::Universal, 16, vec![])]);
    assert_eq!(SearchEntry::construct(Tag::StructureTag(bad_name)), Err(LdapError::Codec));
    let bad_uri = cons(TagClass::Application, 19, vec![os(&[0xff])]);
    assert_eq!(SearchEntry::construct(Tag::StructureTag(bad_uri)), Err(LdapError::Codec));
    let short_done = cons(TagClass::Application, 5, vec![prim(TagClass::Universal, 10, &[0])]);
    assert_eq!(SearchEntry::construct(Tag::StructureTag(short_done)), Err(LdapError::Codec));
}

#[test]
fn find_attribute_by_description() {
    let attrs = vec![
        Attribute { name: "a".to_string(), values: vec![b"1".to_vec()] },
        Attribute { name: "b".to_string(), values: vec![] },
        Attribute { name: "a".to_string(), values: vec![b"2".to_vec(), b"3".to_vec()] },
    ];
    assert_eq!(
        ldap3::search::find_attribute(&attrs, "a"),
        Some(&vec![b"2".to_vec(), b"3".to_vec()])
    );
    assert_eq!(ldap3::search::find_attribute(&attrs, "b"), Some(&vec![]));
    assert_eq!(ldap3::search::find_attribute(&attrs, "c"), None);
    assert_eq!(ldap3::search::find_attribute(&vec![], "a"), None);
}
