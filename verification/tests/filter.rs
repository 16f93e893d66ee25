use ldap3::common::TagClass;
use ldap3::filter::{parse, ParseError, Reason};
use ldap3::structure::{StructureTag, PL};
use ldap3::structures::{ASNTag, Tag};
use ldap3::write::encode;

fn prim(class: TagClass, id: u64, bytes: &[u8]) -> StructureTag {
    StructureTag { class, id, payload: PL::P(bytes.to_vec()) }
}

fn cons(class: TagClass, id: u64, inner: Vec<StructureTag>) -> StructureTag {
    StructureTag { class, id, payload: PL::C(inner) }
}

fn os(bytes: &[u8]) -> StructureTag {
    prim(TagClass::Universal, 4, bytes)
}

fn tree(filter: &str) -> StructureTag {
    let tag: Tag = parse(filter).unwrap();
    tag.into_structure()
}

fn fails(filter: &str, position: usize, reason: Reason) {
    assert_eq!(parse(filter), Err(ParseError { position, reason }));
}

#[test]
fn filter_and_or_substring() {
    let got = tree("(&(objectClass=person)(|(cn=a*)(sn=b)))");
    let want = cons(
        TagClass::Context,
        0,
        vec![
            cons(TagClass::Context, 3, vec![os(b"objectClass"), os(b"person")]),
            cons(
                TagClass::Context,
                1,
                vec![
                    cons(
                        TagClass::Context,
                        4,
                        vec![
                            os(b"cn"),
                            cons(TagClass::Universal, 16, vec![prim(TagClass::Context, 0, b"a")]),
                        ],
                    ),
                    cons(TagClass::Context, 3, vec![os(b"sn"), os(b"b")]),
                ],
            ),
        ],
    );
    assert_eq!(got, want);
}

#[test]
fn filter_golden_equality() {
    let bytes = encode(&tree("(cn=Babs Jensen)"));
    let mut want = vec![0xa3, 0x11, 0x04, 0x02, b'c', b'n', 0x04, 0x0b];
    want.extend_from_slice(b"Babs Jensen");
    assert_eq!(bytes, want);
}

#[test]
fn filter_golden_present() {
    assert_eq!(
        encode(&tree("(objectClass=*)")),
        vec![0x87, 0x0b, b'o', b'b', b'j', b'e', b'c', b't', b'C', b'l', b'a', b's', b's']
    );
}

#[test]
fn filter_golden_not() {
    let bytes = encode(&tree("(!(cn=Tim Howes))"));
    let mut want = vec![0xa2, 0x11, 0xa3, 0x0f, 0x04, 0x02, b'c', b'n', 0x04, 0x09];
    want.extend_from_slice(b"Tim Howes");
    assert_eq!(bytes, want);
}

#[test]
fn filter_golden_ordering_and_approx() {
    assert_eq!(
        encode(&tree("(age>=21)")),
        vec![0xa5, 0x09, 0x04, 0x03, b'a', b'g', b'e', 0x04, 0x02, b'2', b'1']
    );
    assert_eq!(
        encode(&tree("(age<=21)")),
        vec![0xa6, 0x09, 0x04, 0x03, b'a', b'g', b'e', 0x04, 0x02, b'2', b'1']
    );
    assert_eq!(
        encode(&tree("(sn~=smit)")),
        vec![0xa8, 0x0a, 0x04, 0x02, b's', b'n', 0x04, 0x04, b's', b'm', b'i', b't']
    );
}

#[test]
fn filter_substring_parts() {
    let got = tree("(o=univ*of*mich*)");
    let want = cons(
        TagClass::Context,
        4,
        vec![
            os(b"o"),
            cons(
                TagClass::Universal,
                16,
                vec![
                    prim(TagClass::Context, 0, b"univ"),
                    prim(TagClass::Context, 1, b"of"),
                    prim(TagClass::Context, 1, b"mich"),
                ],
            ),
        ],
    );
    assert_eq!(got, want);
    let got = tree("(cn=*end)");
    let want = cons(
        TagClass::Context,
        4,
        vec![os(b"cn"), cons(TagClass::Universal, 16, vec![prim(TagClass::Context, 2, b"end")])],
    );
    assert_eq!(got, want);
    let got = tree("(cn=a*b*c)");
    let want = cons(
        TagClass::Context,
        4,
        vec![
            os(b"cn"),
            cons(
                TagClass::Universal,
                16,
                vec![
                    prim(TagClass::Context, 0, b"a"),
                    prim(TagClass::Context, 1, b"b"),
                    prim(TagClass::Context, 2, b"c"),
                ],
            ),
        ],
    );
    assert_eq!(got, want);
}

#[test]
fn filter_escapes() {
    let got = tree("(cn=a\\2ab\\28\\29\\5c\\00\\fF)");
    let want = cons(
        TagClass::Context,
        3,
        vec![os(b"cn"), os(&[b'a', b'*', b'b', b'(', b')', b'\\', 0x00, 0xff])],
    );
    assert_eq!(got, want);
    fails("(cn=a\\2)", 5, Reason::BadEscape);
    fails("(cn=a\\zz)", 5, Reason::BadEscape);
    fails("(cn=a\\", 5, Reason::BadEscape);
}

#[test]
fn filter_extensible() {
    let got = tree("(cn:dn:2.4.6.8.10:=Barney Rubble)");
    let want = cons(
        TagClass::Context,
        9,
        vec![
            prim(TagClass::Context, 1, b"2.4.6.8.10"),
            prim(TagClass::Context, 2, b"cn"),
            prim(TagClass::Context, 3, b"Barney Rubble"),
            prim(TagClass::Context, 4, &[0xff]),
        ],
    );
    assert_eq!(got, want);
    let got = tree("(cn:caseExactMatch:=Fred Flintstone)");
    let want = cons(
        TagClass::Context,
        9,
        vec![
            prim(TagClass::Context, 1, b"caseExactMatch"),
            prim(TagClass::Context, 2, b"cn"),
            prim(TagClass::Context, 3, b"Fred Flintstone"),
        ],
    );
    assert_eq!(got, want);
    let got = tree("(:1.2.3:=Wilma Flintstone)");
    let want = cons(
        TagClass::Context,
        9,
        vec![prim(TagClass::Context, 1, b"1.2.3"), prim(TagClass::Context, 3, b"Wilma Flintstone")],
    );
    assert_eq!(got, want);
    let got = tree("(o:dn:=Ace Industry)");
    let want = cons(
        TagClass::Context,
        9,
        vec![
            prim(TagClass::Context, 2, b"o"),
            prim(TagClass::Context, 3, b"Ace Industry"),
            prim(TagClass::Context, 4, &[0xff]),
        ],
    );
    assert_eq!(got, want);
    let got = tree("(:dn:2.4.6.8.10:=Dino)");
    let want = cons(
        TagClass::Context,
        9,
        vec![
            prim(TagClass::Context, 1, b"2.4.6.8.10"),
            prim(TagClass::Context, 3, b"Dino"),
            prim(TagClass::Context, 4, &[0xff]),
        ],
    );
    assert_eq!(got, want);
    fails("(:=x)", 1, Reason::BadAttribute);
    fails("(:dn:=x)", 4, Reason::BadAttribute);
}

#[test]
fn filter_bare_item() {
    let got = tree("objectClass=locality");
    let want = cons(TagClass::Context, 3, vec![os(b"objectClass"), os(b"locality")]);
    assert_eq!(got, want);
    assert_eq!(tree("(objectClass=locality)"), want);
}

#[test]
fn filter_empty_value_and_options() {
    assert_eq!(tree("(cn=)"), cons(TagClass::Context, 3, vec![os(b"cn"), os(b"")]));
    assert_eq!(
        tree("(cn;lang-de;lang-en=X)"),
        cons(TagClass::Context, 3, vec![os(b"cn;lang-de;lang-en"), os(b"X")])
    );
    assert_eq!(
        tree("(cn=**)"),
        cons(
            TagClass::Context,
            4,
            vec![os(b"cn"), cons(TagClass::Universal, 16, vec![prim(TagClass::Context, 1, b"")])]
        )
    );
}

#[test]
fn filter_errors() {
    fails("", 0, Reason::UnexpectedEnd);
    fails("(", 1, Reason::UnexpectedEnd);
    fails("(cn=a", 5, Reason::UnexpectedEnd);
    fails("(cn=a))", 6, Reason::Trailing);
    fails("cn=a)", 4, Reason::Trailing);
    fails("(&)", 2, Reason::ExpectedOpen);
    fails("(&(cn=a)x)", 8, Reason::ExpectedClose);
    fails("(!cn=a)", 2, Reason::ExpectedOpen);
    fails("(=a)", 1, Reason::BadAttribute);
    fails("(cn)", 3, Reason::BadOperator);
    fails("(cn>a)", 3, Reason::BadOperator);
    fails("(cn=a(b)", 5, Reason::Reserved);
    fails("(cn>=a*)", 6, Reason::Reserved);
    fails("(cn:rule=a)", 8, Reason::BadOperator);
}

#[test]
fn filter_nested_lists() {
    let got = tree("(|(&(a=1)(b=2))(!(c=3)))");
    let want = cons(
        TagClass::Context,
        1,
        vec![
            cons(
                TagClass::Context,
                0,
                vec![
                    cons(TagClass::Context, 3, vec![os(b"a"), os(b"1")]),
                    cons(TagClass::Context, 3, vec![os(b"b"), os(b"2")]),
                ],
            ),
            cons(
                TagClass::Context,
                2,
                vec![cons(TagClass::Context, 3, vec![os(b"c"), os(b"3")])],
            ),
        ],
    );
    assert_eq!(got, want);
}

#[test]
fn escape_reserved_octets() {
    let ldap_escape = ldap3::filter::ldap_escape;
    assert_eq!(ldap_escape(b"plain text"), b"plain text".to_vec());
    assert_eq!(ldap_escape(b"a*b"), b"a\\2ab".to_vec());
    assert_eq!(ldap_escape(b"(x)"), b"\\28x\\29".to_vec());
    assert_eq!(ldap_escape(&[b'\\', 0x00]), b"\\5c\\00".to_vec());
    assert_eq!(ldap_escape(b""), Vec::<u8>::new());
}

#[test]
fn escaped_values_parse_back() {
    let values: [&[u8]; 5] = [b"Babs (Barbara) Jensen*", b"\\*\\", &[0x00, 0x01, 0xff], b"", b"plain"];
    for value in values {
        let mut text = b"(cn=".to_vec();
        text.extend_from_slice(&ldap3::filter::ldap_escape(value));
        text.push(b')');
        let tag = ldap3::filter::parse_octets(&text).unwrap();
        assert_eq!(tag.into_structure(), cons(TagClass::Context, 3, vec![os(b"cn"), os(value)]));
    }
}
