use acl_offsetgen::scriptjson::{MetadataEntry, TypeInfoTable};

/// The `ScriptMetadata` entries of a `script.json`, or why it cannot be read.
fn read(text: &str) -> Result<Vec<MetadataEntry>, String> {
    let value: serde_json::Value =
        serde_json::from_str(text).map_err(|error| error.to_string())?;
    let mut entries = Vec::new();
    if let Some(items) = value["ScriptMetadata"].as_array() {
        for item in items {
            entries.push(MetadataEntry {
                address: item["Address"].as_u64().ok_or("no address".to_string())?,
                name: item["Name"].as_str().ok_or("no name".to_string())?.to_string(),
            });
        }
    }
    Ok(entries)
}

#[test]
fn extracts_type_info_slots_and_ignores_everything_else() {
    let text = r#"{
          "ScriptMethod": [ { "Address": 1, "Name": "a", "Signature": "x", "TypeSignature": "i" } ],
          "ScriptString": [ { "Address": 2, "Value": "hello" } ],
          "ScriptMetadata": [
            { "Address": 44941892, "Name": "PlayerControl_TypeInfo", "Signature": "PlayerControl_c*" },
            { "Address": 44857460, "Name": "AmongUsClient_TypeInfo", "Signature": "AmongUsClient_c*" },
            { "Address": 999, "Name": "SomeMethod_MethodInfo", "Signature": "x" }
          ],
          "Addresses": [ 1, 2, 3 ]
        }"#;
    let table = TypeInfoTable::parse(read(text)).expect("parse");
    assert_eq!(table.len(), 2);
    assert_eq!(table.slot("PlayerControl"), Some(44_941_892));
    assert_eq!(table.slot("AmongUsClient"), Some(44_857_460));
    assert_eq!(table.slot("SomeMethod"), None);
}

#[test]
fn first_entry_wins_for_duplicate_names() {
    let text = r#"{"ScriptMetadata":[
          {"Address":10,"Name":"Foo_TypeInfo"},
          {"Address":20,"Name":"Foo_TypeInfo"}]}"#;
    let table = TypeInfoTable::parse(read(text)).expect("parse");
    assert_eq!(table.slot("Foo"), Some(10));
}

#[test]
fn a_dump_without_struct_generation_is_an_error_not_an_empty_table() {
    let text = r#"{"ScriptMethod":[],"ScriptMetadata":[]}"#;
    assert!(TypeInfoTable::parse(read(text)).is_err());
}

#[test]
fn malformed_json_is_reported() {
    assert!(TypeInfoTable::parse(read("{ not json")).is_err());
}

#[test]
fn the_reason_is_passed_on() {
    let error = TypeInfoTable::parse(Err("line 1 is odd".to_string()))
        .err()
        .expect("an error");
    assert_eq!(
        error.to_string(),
        "script.json is not readable: line 1 is odd"
    );
    let none = TypeInfoTable::parse(Ok(Vec::new())).err().expect("an error");
    assert_eq!(
        none.to_string(),
        "script.json contains no _TypeInfo entries -- was the dumper run with GenerateStruct enabled?"
    );
}

#[test]
fn an_empty_table_has_no_slot() {
    let table = TypeInfoTable::default();
    assert!(table.is_empty());
    assert_eq!(table.len(), 0);
    assert_eq!(table.slot("PlayerControl"), None);
}
