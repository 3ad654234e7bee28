use acl_offsetgen::json::{finished_file, Json};
use acl_offsetgen::lookup::{
    classify_change, versions_serving, BroadcastPattern, ContentChange, Lookup, Patterns,
    VersionEntry,
};
use acl_offsetgen::offsets::Signature;
use acl_offsetgen::pe::Arch;

fn lookup_with(entries: &[(&str, &str, &str, i64)]) -> Lookup {
    let signature = Signature {
        sig: Some("6A 00 68 ? ? ? ?".to_string()),
        pattern_offset: Some(3),
        address_offset: Some(0),
    };
    let mut versions = Vec::new();
    for (key, version, file, offsets_version) in entries {
        versions.push((
            (*key).to_string(),
            VersionEntry {
                version: (*version).to_string(),
                file: (*file).to_string(),
                offsets_version: *offsets_version,
            }
            .to_json(),
        ));
    }
    Lookup {
        extra: Vec::new(),
        patterns: Patterns {
            x64: BroadcastPattern {
                broadcast_version: signature.clone(),
            },
            x86: BroadcastPattern {
                broadcast_version: signature,
            },
        },
        versions,
    }
}

fn json_of(value: &serde_json::Value) -> Json {
    match value {
        serde_json::Value::Null => Json::Null,
        serde_json::Value::Bool(b) => Json::Bool(*b),
        serde_json::Value::Number(n) => match n.as_i64() {
            Some(n) => Json::Integer(n),
            None => Json::Number(n.to_string()),
        },
        serde_json::Value::String(text) => Json::Text(text.clone()),
        serde_json::Value::Array(items) => Json::List(items.iter().map(json_of).collect()),
        serde_json::Value::Object(map) => Json::Object(
            map.iter()
                .map(|(key, value)| (key.clone(), json_of(value)))
                .collect(),
        ),
    }
}

fn lookup_of(text: &str) -> Lookup {
    let value: serde_json::Value = serde_json::from_str(text).expect("parse");
    Lookup::from_json(&json_of(&value)).expect("a lookup")
}

#[test]
fn a_brand_new_file_starts_at_one() {
    let mut lookup = lookup_with(&[]);
    let version = lookup
        .upsert(
            50_663_350,
            "2026.8.18",
            "V2026.8.18/offsets.json",
            ContentChange::New,
        )
        .expect("upsert");
    assert_eq!(version, 1);
    assert_eq!(
        lookup.lookup_entry(50_663_350).unwrap().version,
        "V2026.8.18"
    );
}

#[test]
fn changed_content_bumps_so_cached_clients_refetch() {
    let mut lookup = lookup_with(&[("50656300", "V17.4.0", "V17.4.0/offsets.json", 5)]);
    let version = lookup
        .upsert(
            50_656_300,
            "17.4.0",
            "V17.4.0/offsets.json",
            ContentChange::Changed,
        )
        .expect("upsert");
    assert_eq!(version, 6, "a corrected file has to invalidate the cache");
}

#[test]
fn identical_content_does_not_churn_the_counter() {
    let mut lookup = lookup_with(&[("50656300", "V17.4.0", "V17.4.0/offsets.json", 5)]);
    let version = lookup
        .upsert(
            50_656_300,
            "17.4.0",
            "V17.4.0/offsets.json",
            ContentChange::Identical,
        )
        .expect("upsert");
    assert_eq!(version, 5);
}

#[test]
fn every_key_serving_a_file_moves_together() {
    // Three builds share one offsets file; correcting it must invalidate
    // the cache for all three, not just the one being regenerated.
    let mut lookup = lookup_with(&[
        ("50638350", "V2025.9.9", "V2025.9.9/offsets.json", 8),
        ("50641800", "V17.0.1s", "V2025.9.9/offsets.json", 8),
        ("50643450", "V17.1.0s", "V2025.9.9/offsets.json", 8),
    ]);
    lookup
        .upsert(
            50_643_450,
            "17.1.0",
            "V2025.9.9/offsets.json",
            ContentChange::Changed,
        )
        .expect("upsert");
    for key in ["50638350", "50641800", "50643450"] {
        assert_eq!(lookup.entry(key).unwrap().offsets_version, 9, "key {key}");
    }
}

#[test]
fn default_points_at_the_newest_build() {
    let mut lookup = lookup_with(&[
        ("50607250", "V2024.8.13", "V2024.8.13/offsets.json", 15),
        ("50656300", "V17.4.0", "V17.4.0/offsets.json", 5),
    ]);
    lookup
        .upsert(
            50_663_350,
            "2026.8.18",
            "V2026.8.18/offsets.json",
            ContentChange::New,
        )
        .expect("upsert");
    let default = lookup.entry("default").expect("default");
    assert_eq!(default.file, "V2026.8.18/offsets.json");
}

#[test]
fn rendering_sorts_newest_first_and_keeps_unknown_keys() {
    let mut lookup = lookup_with(&[
        ("50607250", "V2024.8.13", "V2024.8.13/offsets.json", 15),
        ("50656300", "V17.4.0", "V17.4.0/offsets.json", 5),
    ]);
    lookup
        .versions
        .push(("notes".to_string(), Json::Text("kept".to_string())));
    lookup.refresh_default();
    let json = lookup.to_json().expect("render");
    let default_at = json.find("\"default\"").expect("default present");
    let newest_at = json.find("\"50656300\"").expect("newest present");
    let oldest_at = json.find("\"50607250\"").expect("oldest present");
    assert!(default_at < newest_at && newest_at < oldest_at);
    assert!(json.contains("\"notes\""));
}

const SOURCE: &str = r#"{
  "bundle_version": 7,
  "min_client_version": "1.0.0",
  "upstream_commit": "abc123",
  "patterns": {
    "x64": { "broadcastVersion": { "sig": "33 D2", "patternOffset": 3, "addressOffset": 0 } },
    "x86": { "broadcastVersion": { "sig": "6A 00", "patternOffset": 3, "addressOffset": 0 } }
  },
  "versions": {
    "default": { "version": "V1", "file": "V1/offsets.json", "offsetsVersion": 1 },
    "100": { "version": "V1", "file": "V1/offsets.json", "offsetsVersion": 1 }
  }
}"#;

#[test]
fn unknown_top_level_keys_survive_a_round_trip() {
    // lookup.json is authored by more than this tool: the sync workflow adds
    // upstream_commit, and the client reads bundle_version and
    // min_client_version. Dropping them on write would take the client's
    // replay protection with them.
    let lookup = lookup_of(SOURCE);
    assert_eq!(lookup.bundle_version(), Some(7));

    let rendered = lookup.to_json().expect("render");
    let back: serde_json::Value = serde_json::from_str(&rendered).expect("reparse");
    assert_eq!(back["bundle_version"], 7);
    assert_eq!(back["min_client_version"], "1.0.0");
    assert_eq!(back["upstream_commit"], "abc123");
    assert!(back["patterns"].is_object());
    assert_eq!(back["versions"].as_object().unwrap().len(), 2);
}

#[test]
fn bundle_version_only_moves_forward() {
    let mut lookup = lookup_with(&[]);
    // Absent: nothing to bump, and nothing invented.
    assert_eq!(lookup.bundle_version(), None);
    assert_eq!(lookup.bump_bundle_version(), None);

    lookup
        .extra
        .push(("bundle_version".to_string(), Json::Integer(4)));
    assert_eq!(lookup.bump_bundle_version(), Some(5));
    assert_eq!(lookup.bump_bundle_version(), Some(6));
    assert_eq!(lookup.bundle_version(), Some(6));
}

#[test]
fn change_detection_ignores_line_endings() {
    let existing = "{\r\n  \"a\": 1\r\n}\r\n";
    assert_eq!(
        classify_change(Some(existing), "{\n  \"a\": 1\n}\n"),
        ContentChange::Identical
    );
    assert_eq!(
        classify_change(Some(existing), "{\n  \"a\": 2\n}\n"),
        ContentChange::Changed
    );
    assert_eq!(classify_change(None, "{}"), ContentChange::New);
}

#[test]
fn change_detection_ignores_trailing_white_space() {
    assert_eq!(
        classify_change(Some("{}\n\n \t"), "{}"),
        ContentChange::Identical
    );
    assert_eq!(
        classify_change(Some("{ }"), "{}"),
        ContentChange::Changed
    );
    assert_eq!(
        classify_change(Some("a\r\r\nb"), "a\r\nb"),
        ContentChange::Changed
    );
}

#[test]
fn other_keys_are_left_alone_by_a_new_build() {
    let mut lookup = lookup_with(&[
        ("50607250", "V2024.8.13", "V2024.8.13/offsets.json", 15),
        ("50656300", "V17.4.0", "V17.4.0/offsets.json", 5),
    ]);
    lookup
        .upsert(50_700_000, "18.0", "V18.0/offsets.json", ContentChange::New)
        .expect("upsert");
    let old = lookup.entry("50607250").expect("kept");
    assert_eq!(old.version, "V2024.8.13");
    assert_eq!(old.offsets_version, 15);
    assert_eq!(lookup.published_version_for("V17.4.0/offsets.json"), Some(5));
    assert_eq!(lookup.published_version_for("V18.0/offsets.json"), Some(1));
    assert_eq!(lookup.published_version_for("none"), None);
}

#[test]
fn a_rerun_changes_nothing() {
    let mut lookup = lookup_with(&[("50656300", "V17.4.0", "V17.4.0/offsets.json", 5)]);
    lookup
        .upsert(
            50_656_300,
            "17.4.0",
            "V17.4.0/offsets.json",
            ContentChange::Changed,
        )
        .expect("upsert");
    let once = lookup.to_json().expect("render");
    lookup
        .upsert(
            50_656_300,
            "17.4.0",
            "V17.4.0/offsets.json",
            ContentChange::Identical,
        )
        .expect("upsert");
    assert_eq!(lookup.to_json().expect("render"), once);
}

#[test]
fn the_file_is_written_as_it_stands() {
    let lookup = lookup_of(SOURCE);
    assert_eq!(
        lookup.to_json().expect("render"),
        r#"{
  "bundle_version": 7,
  "min_client_version": "1.0.0",
  "upstream_commit": "abc123",
  "patterns": {
    "x64": {
      "broadcastVersion": {
        "sig": "33 D2",
        "patternOffset": 3,
        "addressOffset": 0
      }
    },
    "x86": {
      "broadcastVersion": {
        "sig": "6A 00",
        "patternOffset": 3,
        "addressOffset": 0
      }
    }
  },
  "versions": {
    "default": {
      "version": "V1",
      "file": "V1/offsets.json",
      "offsetsVersion": 1
    },
    "100": {
      "version": "V1",
      "file": "V1/offsets.json",
      "offsetsVersion": 1
    }
  }
}
"#
    );
}

#[test]
fn keys_that_are_no_numbers_come_last_and_sorted() {
    let mut lookup = lookup_with(&[
        ("7", "V7", "V7/offsets.json", 1),
        ("-3", "V0", "V0/offsets.json", 1),
        ("12", "V12", "V12/offsets.json", 1),
    ]);
    lookup.versions.insert(
        0,
        ("zz".to_string(), Json::Number("1.25".to_string())),
    );
    lookup
        .versions
        .insert(2, ("aa".to_string(), Json::Bool(true)));
    lookup.refresh_default();
    let json = lookup.to_json().expect("render");
    let value: serde_json::Value = serde_json::from_str(&json).expect("valid JSON");
    let keys: Vec<&String> = value["versions"].as_object().expect("object").keys().collect();
    assert_eq!(keys, vec!["default", "12", "7", "-3", "aa", "zz"]);
    assert_eq!(value["versions"]["default"]["version"], "V12");
    assert_eq!(value["versions"]["zz"], 1.25);
}

#[test]
fn an_entry_may_be_spelled_as_an_array() {
    let entry = VersionEntry::from_json(&Json::List(vec![
        Json::Text("V1".to_string()),
        Json::Text("V1/offsets.json".to_string()),
        Json::Integer(3),
    ]))
    .expect("an entry");
    assert_eq!(entry.offsets_version, 3);
    assert!(VersionEntry::from_json(&Json::List(vec![Json::Integer(3)])).is_none());
    assert!(VersionEntry::from_json(&Json::Text("V1".to_string())).is_none());
    assert!(VersionEntry::from_json(&Json::Object(vec![(
        "version".to_string(),
        Json::Text("V1".to_string())
    )]))
    .is_none());
}

#[test]
fn the_keys_that_serve_a_file_are_listed_by_key() {
    let lookup = lookup_with(&[
        ("9", "V9", "shared", 1),
        ("default", "V9", "shared", 1),
        ("10", "V10", "shared", 1),
        ("11", "V11", "other", 1),
    ]);
    assert_eq!(
        versions_serving(&lookup, "shared"),
        vec![
            ("10".to_string(), "V10".to_string()),
            ("9".to_string(), "V9".to_string()),
            ("default".to_string(), "V9".to_string()),
        ]
    );
}

#[test]
fn the_bundle_version_advances_exactly_when_the_bundle_changes() {
    let mut lookup = lookup_of(SOURCE);
    let current = lookup.to_json().expect("render");
    assert_eq!(
        lookup.settle_bundle_version(ContentChange::Identical, &current, &current),
        Some(7)
    );
    let elsewhere = current.replace("\n", "\r\n");
    assert_eq!(
        lookup.settle_bundle_version(ContentChange::Identical, &elsewhere, &current),
        Some(7)
    );
    assert_eq!(
        lookup.settle_bundle_version(ContentChange::Changed, &current, &current),
        Some(8)
    );
    let mut lookup = lookup_of(SOURCE);
    lookup
        .upsert(101, "2", "V2/offsets.json", ContentChange::Identical)
        .expect("upsert");
    let rendered = lookup.to_json().expect("render");
    assert_eq!(
        lookup.settle_bundle_version(ContentChange::Identical, &current, &rendered),
        Some(8)
    );
    let mut bare = lookup_with(&[]);
    assert_eq!(
        bare.settle_bundle_version(ContentChange::New, &current, &rendered),
        None
    );
}

#[test]
fn a_file_that_cannot_be_rendered_is_an_error() {
    let error = finished_file("lookup.json", Err("too deep".to_string())).expect_err("an error");
    assert_eq!(error.to_string(), "cannot render lookup.json: too deep");
    assert_eq!(
        finished_file("x", Ok("{}".to_string())).expect("text"),
        "{}\n"
    );
    let mut lookup = lookup_with(&[]);
    lookup
        .extra
        .push(("odd".to_string(), Json::Number("not a number".to_string())));
    assert!(lookup
        .to_json()
        .expect_err("an error")
        .to_string()
        .starts_with("cannot render lookup.json: "));
}

#[test]
fn patterns_belong_to_their_architecture() {
    let mut lookup = lookup_of(SOURCE);
    assert_eq!(
        lookup.broadcast_pattern(Arch::X86).sig.as_deref(),
        Some("6A 00")
    );
    lookup.set_broadcast_pattern(
        Arch::X64,
        Signature {
            sig: Some("B8 ? ? ? ?".to_string()),
            pattern_offset: Some(1),
            address_offset: Some(0),
        },
    );
    assert_eq!(
        lookup.broadcast_pattern(Arch::X86).sig.as_deref(),
        Some("6A 00")
    );
    assert_eq!(
        lookup.broadcast_pattern(Arch::X64).sig.as_deref(),
        Some("B8 ? ? ? ?")
    );
}

#[test]
fn what_is_written_is_read_back() {
    let mut lookup = lookup_of(SOURCE);
    lookup
        .upsert(200, "2", "V2/offsets.json", ContentChange::New)
        .expect("upsert");
    lookup
        .versions
        .insert(0, ("note".to_string(), Json::Text("kept".to_string())));
    let back = Lookup::from_json(&lookup.tree()).expect("a lookup");
    assert_eq!(back.patterns.x64.broadcast_version, lookup.patterns.x64.broadcast_version);
    assert_eq!(back.patterns.x86.broadcast_version, lookup.patterns.x86.broadcast_version);
    assert_ne!(back.patterns.x64.broadcast_version, back.patterns.x86.broadcast_version);
    let names = |members: &Vec<(String, Json)>| -> Vec<String> {
        members.iter().map(|(key, _)| key.clone()).collect()
    };
    assert_eq!(names(&back.extra), vec!["bundle_version", "min_client_version", "upstream_commit"]);
    assert_eq!(names(&back.extra), names(&lookup.extra));
    assert_eq!(back.bundle_version(), Some(7));
    assert_eq!(names(&back.versions), vec!["default", "200", "100", "note"]);
    assert_eq!(names(&lookup.versions), vec!["note", "default", "100", "200"]);
    for key in ["default", "100", "200"] {
        assert_eq!(back.entry(key), lookup.entry(key));
        assert!(back.entry(key).is_some());
    }
    assert_eq!(back.to_json().expect("render"), lookup.to_json().expect("render"));
}

#[test]
fn a_value_that_is_no_lookup_is_refused() {
    let read = |text: &str| {
        let value: serde_json::Value = serde_json::from_str(text).expect("parse");
        Lookup::from_json(&json_of(&value))
    };
    let patterns = r#"{"x64":{"broadcastVersion":{}},"x86":[["6A 00",3,null]]}"#;
    let lookup = read(&format!(r#"{{"patterns":{patterns},"versions":{{}}}}"#)).expect("a lookup");
    assert_eq!(lookup.patterns.x64.broadcast_version, Signature::default());
    assert_eq!(
        lookup.patterns.x86.broadcast_version,
        Signature {
            sig: Some("6A 00".to_string()),
            pattern_offset: Some(3),
            address_offset: None,
        }
    );
    assert!(read("[]").is_none());
    assert!(read(r#"{"versions":{}}"#).is_none());
    assert!(read(&format!(r#"{{"patterns":{patterns}}}"#)).is_none());
    assert!(read(&format!(r#"{{"patterns":{patterns},"versions":[]}}"#)).is_none());
    for broken in [
        r#"{"x64":{"broadcastVersion":{}}}"#,
        r#"{"x64":{"broadcastVersion":{}},"x86":{}}"#,
        r#"{"x64":{"broadcastVersion":{"sig":1}},"x86":{"broadcastVersion":{}}}"#,
        r#"{"x64":{"broadcastVersion":{"patternOffset":1.5}},"x86":{"broadcastVersion":{}}}"#,
        r#"{"x64":{"broadcastVersion":["6A"]},"x86":{"broadcastVersion":{}}}"#,
        r#"[{"broadcastVersion":{}}]"#,
    ] {
        assert!(read(&format!(r#"{{"patterns":{broken},"versions":{{}}}}"#)).is_none());
    }
}

#[test]
fn recording_a_build_keeps_every_key_unique() {
    let mut lookup = lookup_of(SOURCE);
    for build in [100, 200, 100, 300] {
        lookup
            .upsert(build, "2", "V2/offsets.json", ContentChange::Changed)
            .expect("upsert");
        lookup.bump_bundle_version();
    }
    let mut keys: Vec<&String> = lookup.versions.iter().map(|(key, _)| key).collect();
    keys.sort();
    assert_eq!(keys, vec!["100", "200", "300", "default"]);
    assert_eq!(lookup.extra.len(), 3);
    assert_eq!(lookup.bundle_version(), Some(11));
}

#[test]
fn fractions_are_written_as_they_stand() {
    // Fractions of all magnitudes, most of them seventeen digits long.
    let mut lookup = lookup_of(SOURCE);
    let mut state: u64 = 0x2545_F491_4F6C_DD1D;
    let mut texts = Vec::new();
    while texts.len() < 4000 {
        state = state.wrapping_mul(6364136223846793005).wrapping_add(1442695040888963407);
        let fraction = f64::from_bits(state);
        if fraction.is_finite() {
            let text = serde_json::to_string(&fraction).expect("a number");
            lookup
                .extra
                .push((format!("n{}", texts.len()), Json::Number(text.clone())));
            texts.push(text);
        }
    }
    let written = lookup.to_json().expect("render");
    for (i, text) in texts.iter().enumerate() {
        assert!(written.contains(&format!("\n  \"n{i}\": {text},\n")), "{text}");
    }
}
