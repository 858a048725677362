use std::str::FromStr;

use distinguished_name::{
    DistinguishedName, Error, RdnType, RelativeDistinguishedName,
};

#[test]
fn serialization_reverses_canonical_order() {
    // the wire text puts the most specific component first, canonical
    // storage puts it last, so direct assembly serializes in reverse
    let dn = DistinguishedName::new(vec![
        RelativeDistinguishedName::new(RdnType::O, "1".to_owned()),
        RelativeDistinguishedName::new(RdnType::Cn, "2".to_owned()),
    ]);

    assert_eq!(dn.to_of_string(), "CN=2,O=1");
}

#[test]
fn parsing_reverses_wire_order() {
    let dn = DistinguishedName::from_str("O=1,CN=2").unwrap();

    let rdns = dn.iter();
    assert_eq!(rdns.len(), 2);
    assert_eq!(rdns[0].ty(), RdnType::Cn);
    assert_eq!(rdns[0].value(), "2");
    assert_eq!(rdns[1].ty(), RdnType::O);
    assert_eq!(rdns[1].value(), "1");
}

#[test]
fn serialized_form_reparses_to_the_same_string() {
    let inputs = [
        "CN=web.example,UID=u1,L=SAO PAULO,ST=SP,O=Some Org,C=BR",
        "2.5.4.97=#7a7a4f464242522d54657374313233,CN=x",
        r"CN=test\,C\=test",
        r#"CN=\ \"\,\#\+\,\;\<\=\>\\"#,
        "",
    ];
    for input in inputs {
        let first = DistinguishedName::from_str(input).unwrap().to_of_string();
        let second = DistinguishedName::from_str(&first).unwrap().to_of_string();
        assert_eq!(first, second);
    }
}

#[test]
fn find_returns_first_match_in_canonical_order() {
    let dn = DistinguishedName::from_str("OU=second,OU=first,CN=x").unwrap();

    assert_eq!(dn.find(RdnType::Ou), Some("first"));
    assert_eq!(dn.find(RdnType::Cn), Some("x"));
    assert_eq!(dn.find(RdnType::L), None);
}

#[test]
fn empty_dn_has_no_rdns() {
    let dn = DistinguishedName::from_str("").unwrap();

    assert_eq!(dn.iter().len(), 0);
    assert_eq!(dn.find(RdnType::Cn), None);
}

#[test]
fn resolves_types_case_insensitively_and_with_oid_prefix() {
    let dn = DistinguishedName::from_str("cN=a,oid.2.5.4.7=b,OID.st=c").unwrap();

    assert_eq!(dn.find(RdnType::Cn), Some("a"));
    assert_eq!(dn.find(RdnType::L), Some("b"));
    assert_eq!(dn.find(RdnType::St), Some("c"));
}

#[test]
fn rdn_type_parses_from_short_names_and_oids() {
    assert_eq!("cn".parse::<RdnType>().unwrap(), RdnType::Cn);
    assert_eq!("Street".parse::<RdnType>().unwrap(), RdnType::Street);
    assert_eq!("2.5.4.9".parse::<RdnType>().unwrap(), RdnType::Street);
    assert!("xx".parse::<RdnType>().is_err());
}

#[test]
fn street_serializes_with_upper_case_label() {
    let dn = DistinguishedName::from_str("street=Main").unwrap();

    assert_eq!(dn.to_of_string(), "STREET=Main");
}

#[test]
fn reject_unknown_attribute_type() {
    let dn = DistinguishedName::from_str("XX=1");

    assert!(matches!(dn, Err(Error::InvalidType(t)) if t == "XX"));
}

#[test]
fn reject_unescaped_plus_sign() {
    let dn = DistinguishedName::from_str("CN=a+b");

    assert!(matches!(dn, Err(Error::UnsupportedMultiValueRdns)));
}

#[test]
fn reject_malformed_hex_value() {
    assert!(matches!(
        DistinguishedName::from_str("CN=#zz"),
        Err(Error::HexDecodingFailed)
    ));
    assert!(matches!(
        DistinguishedName::from_str("CN=#abc"),
        Err(Error::HexDecodingFailed)
    ));
}

#[test]
fn reject_second_equals_sign_in_rdn() {
    let dn = DistinguishedName::from_str("CN=a=b");

    assert!(matches!(dn, Err(Error::UnexpectedCharacter('='))));
}

#[test]
fn hex_typed_values_serialize_as_lowercase_hex() {
    let dn = DistinguishedName::new(vec![RelativeDistinguishedName::new(
        RdnType::SerialNumber,
        "no marker here".to_owned(),
    )]);

    assert_eq!(dn.to_of_string(), "2.5.4.5=#6e6f206d61726b65722068657265");
}

#[test]
fn comparator_folds_case_only_for_insensitive_types() {
    // user id compares case-insensitively, so folded values are equal
    let a = DistinguishedName::from_str("uid=SP").unwrap();
    let b = DistinguishedName::from_str("uid=sp").unwrap();
    assert_eq!(a.comparator().unwrap(), b.comparator().unwrap());

    // common name and state compare case-sensitively
    let c = DistinguishedName::from_str("cn=Test").unwrap();
    let d = DistinguishedName::from_str("cn=test").unwrap();
    assert_ne!(c.comparator().unwrap(), d.comparator().unwrap());

    let e = DistinguishedName::from_str("st=SP").unwrap();
    let f = DistinguishedName::from_str("st=sp").unwrap();
    assert_ne!(e.comparator().unwrap(), f.comparator().unwrap());
}

#[test]
fn comparator_keeps_organization_identifier_from_marker_on() {
    // the hex value decodes to "zzOFBBR-Test123"; everything before the
    // marker goes, and the folded text from the marker on stays
    let dn =
        DistinguishedName::from_str("2.5.4.97=#7a7a4f464242522d54657374313233").unwrap();

    let cmp = dn.comparator().unwrap();
    assert_eq!(cmp.rdns.len(), 1);
    assert_eq!(cmp.rdns[0].ty, RdnType::OrganizationIdentifier);
    assert_eq!(cmp.rdns[0].value, "ofbbr-test123");
}

#[test]
fn comparator_rejects_organization_identifier_without_marker() {
    let dn =
        DistinguishedName::from_str("2.5.4.97=#6e6f206d61726b65722068657265").unwrap();

    assert!(matches!(
        dn.comparator(),
        Err(Error::InvalidValue { ty: RdnType::OrganizationIdentifier, value }) if value == "no marker here"
    ));
}

#[test]
fn comparator_replaces_whitespace_and_drops_ignored_characters() {
    let dn = DistinguishedName::new(vec![RelativeDistinguishedName::new(
        RdnType::Cn,
        "a\tb\u{00AD}c".to_owned(),
    )]);

    let cmp = dn.comparator().unwrap();
    assert_eq!(cmp.rdns[0].value, "a bc");
}

#[test]
fn comparator_rejects_prohibited_characters() {
    let dn = DistinguishedName::new(vec![RelativeDistinguishedName::new(
        RdnType::Cn,
        "a\u{E000}b".to_owned(),
    )]);

    assert!(matches!(
        dn.comparator(),
        Err(Error::UnexpectedCharacter('\u{E000}'))
    ));
}

#[test]
fn reject_unknown_type_keeps_original_text() {
    let dn = DistinguishedName::from_str("oid.xx=1");

    assert!(matches!(dn, Err(Error::InvalidType(t)) if t == "oid.xx"));
}

#[test]
fn reject_input_ending_inside_hex_escape() {
    let dn = DistinguishedName::from_str(r"CN=\z");

    assert!(matches!(dn, Err(Error::UnexpectedEof)));
}

#[test]
fn reject_non_ascii_character_after_backslash() {
    let dn = DistinguishedName::from_str("CN=\\\u{e9}");

    assert!(matches!(dn, Err(Error::HexDecodingFailed)));
}

#[test]
fn multibyte_characters_survive_hex_and_escape_round_trips() {
    let dn = DistinguishedName::from_str(r"CN=\c3\a9").unwrap();
    assert_eq!(dn.find(RdnType::Cn), Some("\u{e9}"));

    let dn = DistinguishedName::from_str("CN=#c3a9").unwrap();
    assert_eq!(dn.find(RdnType::Cn), Some("\u{e9}"));
}
