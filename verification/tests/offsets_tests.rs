use acl_offsetgen::json::{compact_text, Json};
use acl_offsetgen::offsets::{Signature, StructMember};

#[test]
fn struct_member_sizes() {
    assert_eq!(StructMember::value("UINT", "id").size(), 4);
    assert_eq!(StructMember::value("BYTE", "dead").size(), 1);
    assert_eq!(StructMember::padding(20).size(), 20);
}

#[test]
fn padding_is_serialised_with_skip_and_values_without() {
    let padding = compact_text(&StructMember::padding(20).to_json());
    assert!(padding.contains("\"skip\":20"));
    let value = compact_text(&StructMember::value("UINT", "id").to_json());
    assert!(!value.contains("skip"));
}

#[test]
fn an_absent_signature_serialises_as_an_empty_object() {
    let json = compact_text(&Signature::default().to_json());
    assert_eq!(json, "{}");
    assert!(!Signature::default().is_present());
}

#[test]
fn a_signature_is_read_back() {
    for (sig, pattern_offset, address_offset) in
        [(None, None, None), (Some("8B 0D"), Some(2), None), (Some(""), None, Some(-4))]
    {
        let signature = Signature {
            sig: sig.map(|text| text.to_string()),
            pattern_offset,
            address_offset,
        };
        assert_eq!(Signature::from_json(&signature.to_json()), Some(signature));
    }
    assert_eq!(
        Signature::from_json(&Json::Object(vec![
            ("sig".to_string(), Json::Null),
            ("more".to_string(), Json::Bool(true)),
        ])),
        Some(Signature::default())
    );
    assert_eq!(Signature::from_json(&Json::Null), None);
    assert_eq!(Signature::from_json(&Json::List(vec![Json::Null])), None);
}
