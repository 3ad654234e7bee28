use acl_offsetgen::dumpcs::Dump;

const SAMPLE: &str = "\
// Namespace:
public class PlayerControl : InnerNetObject // TypeDefIndex: 1234
{
\t// Fields
\tpublic byte PlayerId; // 0x28
\tpublic CosmeticsLayer cosmetics; // 0x3C
\tpublic static PlayerControl LocalPlayer; // 0x0
\tpublic const int Magic = 7;
\tpublic Dictionary<PlayerOutfitType, NetworkedPlayerInfo.PlayerOutfit> Outfits; // 0x40
\tpublic static int Counter = 5; // 0x8

\t// Methods
\t// RVA: 0x100 Offset: 0x100 VA: 0x100
\tpublic void Update() { }
}

// Namespace:
public sealed class NetworkedPlayerInfo.PlayerOutfit : Object // TypeDefIndex: 99
{
\t// Fields
\tpublic int ColorId; // 0x8
\tpublic string PlayerName; // 0x20
}

public enum RoleTeamTypes // TypeDefIndex: 5
{
\tpublic int value__; // 0x0
}
";

fn dump() -> Dump {
    Dump::parse(SAMPLE)
}

#[test]
fn indexes_every_class_including_nested_and_enums() {
    let dump = dump();
    assert_eq!(dump.class_count(), 3);
    assert!(dump.class("PlayerControl").is_some());
    assert!(dump.class("NetworkedPlayerInfo.PlayerOutfit").is_some());
    assert!(dump.class("RoleTeamTypes").is_some());
}

#[test]
fn reads_instance_field_offsets() {
    let dump = dump();
    assert_eq!(
        dump.find_field("PlayerControl", &["cosmetics"]).unwrap().0,
        0x3C
    );
    assert_eq!(
        dump.find_field("NetworkedPlayerInfo.PlayerOutfit", &["ColorId"])
            .unwrap()
            .0,
        8
    );
}

#[test]
fn generic_types_with_commas_do_not_break_the_name() {
    let dump = dump();
    assert_eq!(
        dump.find_field("PlayerControl", &["Outfits"]).unwrap().0,
        0x40
    );
}

#[test]
fn separates_static_from_instance_space() {
    let dump = dump();
    let class = dump.class("PlayerControl").expect("class");
    assert!(class.static_field("LocalPlayer").is_some());
    assert_eq!(class.static_field("LocalPlayer").unwrap().offset, 0);
    assert!(class.static_field("cosmetics").is_none());
    // A static with an initialiser still parses, name intact.
    assert_eq!(class.static_field("Counter").unwrap().offset, 8);
}

#[test]
fn skips_consts_which_have_no_offset() {
    let dump = dump();
    assert!(dump.find_field("PlayerControl", &["Magic"]).is_none());
}

#[test]
fn candidate_list_handles_renames() {
    let dump = dump();
    // First name missing, second present: this is the GameMode/NetworkMode case.
    let (offset, which) = dump
        .find_field("PlayerControl", &["NotAField", "cosmetics"])
        .expect("fallback should hit");
    assert_eq!(offset, 0x3C);
    assert_eq!(which, "PlayerControl.cosmetics");
}

#[test]
fn missing_class_and_field_are_distinguishable_from_zero() {
    let dump = dump();
    assert!(dump.find_field("NoSuchClass", &["x"]).is_none());
    assert!(dump.find_field("PlayerControl", &["nope"]).is_none());
}

#[test]
fn method_bodies_and_comments_are_not_mistaken_for_fields() {
    let dump = dump();
    let class = dump.class("PlayerControl").expect("class");
    assert!(class.field_names().iter().all(|name| *name != "Update"));
}

#[test]
fn a_field_is_found_however_far_down_its_class() {
    let mut text = String::from("public class Early\n{\n\tpublic int F; // 0x4\n}\npublic class C\n{\n");
    for n in 0..900 {
        text.push_str(&format!("\tpublic int Other{n}; // 0x{n:X}\n"));
    }
    text.push_str("\tpublic int F; // 0x10\n\tpublic static int S; // 0x18\n");
    let at_the_end = Dump::parse(&text);
    assert_eq!(at_the_end.find_field("C", &["F"]), Some((16, "C.F".to_string())));
    assert_eq!(at_the_end.find_field("C", &["S"]), Some((24, "C.S".to_string())));
    assert_eq!(
        at_the_end.find_static_field("C", &["S"]),
        Some((24, "C.S (static)".to_string()))
    );
    text.push_str("}\npublic class D\n{\n\tpublic int F; // 0x20\n}\n");
    let followed = Dump::parse(&text);
    assert_eq!(followed.find_field("C", &["F"]), Some((16, "C.F".to_string())));
    assert_eq!(followed.find_field("D", &["F"]), Some((32, "D.F".to_string())));
    text.push_str("public class C\n{\n\tpublic int F; // 0x30\n}\n");
    assert_eq!(Dump::parse(&text).find_field("C", &["F"]), Some((48, "C.F".to_string())));
}

#[test]
fn there_is_no_line_window() {
    for n in [0, 1, 199, 200, 201, 5000] {
        let mut text = String::from("public class C\n");
        for i in 0..n {
            text.push_str(if i % 2 == 0 { "\tpublic void M() { }\n" } else { "\tpublic int G; // 0x8\n" });
        }
        text.push_str("\tpublic int F; // 0x10");
        let dump = Dump::parse(&text);
        assert_eq!(dump.find_field("C", &["F"]), Some((16, "C.F".to_string())));
    }
}
