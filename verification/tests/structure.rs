use ldap3::common::TagClass;
use ldap3::structure::{StructureTag, PL};

#[test]
fn expect_exact() {
    let tag = StructureTag {
        class: TagClass::Application,
        id: 65u64,
        payload: PL::C(vec![StructureTag {
            class: TagClass::Universal,
            id: 2u64,
            payload: PL::P(vec![0x16, 0x16]),
        }]),
    };

    let out = tag
        .clone()
        .match_class(TagClass::Application)
        .and_then(|x| x.match_id(65u64));

    assert_eq!(out, Some(tag));
}

#[test]
fn expect_inner() {
    let tag = StructureTag {
        class: TagClass::Application,
        id: 65u64,
        payload: PL::C(vec![
            StructureTag {
                class: TagClass::Universal,
                id: 2u64,
                payload: PL::P(vec![0x16, 0x16]),
            },
            StructureTag {
                class: TagClass::Application,
                id: 3u64,
                payload: PL::P(vec![0x3, 0x3]),
            },
        ]),
    };

    let mut subt = tag.expect_constructed().unwrap();

    let b = subt
        .pop()
        .unwrap()
        .match_class(TagClass::Application)
        .and_then(|x| x.match_id(3));
    let a = subt
        .pop()
        .unwrap()
        .match_class(TagClass::Universal)
        .and_then(|x| x.match_id(2));

    assert!(a.is_some());
    assert!(b.is_some());
}
