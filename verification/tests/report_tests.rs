use acl_offsetgen::generate::Provenance;
use acl_offsetgen::json::{compact_text, Json};
use acl_offsetgen::report::{diff, render_provenance, walk, Difference};
use acl_offsetgen::offsets::{
    InnerNetClient, Offsets, Outfit, Player, Signature, Signatures, StructMember,
};

fn object(members: Vec<(&str, Json)>) -> Json {
    Json::Object(
        members
            .into_iter()
            .map(|(key, value)| (key.to_string(), value))
            .collect(),
    )
}

fn numbers(all: &[i64]) -> Json {
    Json::List(all.iter().map(|n| Json::Integer(*n)).collect())
}

fn text(s: &str) -> Json {
    Json::Text(s.to_string())
}

fn compare(before: &Json, after: &Json) -> Vec<Difference> {
    let mut out = Vec::new();
    walk(before, after, String::new(), &mut out);
    out
}

#[test]
fn reports_a_scalar_change_with_its_path() {
    let before = object(vec![("player", object(vec![("roleTeam", Json::Integer(76))]))]);
    let after = object(vec![("player", object(vec![("roleTeam", Json::Integer(80))]))]);
    let out = compare(&before, &after);
    assert_eq!(out.len(), 1);
    assert_eq!(out[0].path, "player.roleTeam");
    assert_eq!(out[0].before, "76");
    assert_eq!(out[0].after, "80");
}

#[test]
fn a_chain_that_grew_is_one_entry_not_four() {
    let before = object(vec![("localX", numbers(&[200, 108]))]);
    let after = object(vec![("localX", numbers(&[224, 64, 16, 176]))]);
    let out = compare(&before, &after);
    assert_eq!(out.len(), 1);
    assert_eq!(out[0].path, "localX");
    assert_eq!(out[0].before, "[200,108]");
    assert_eq!(out[0].after, "[224,64,16,176]");
}

#[test]
fn identical_files_produce_nothing() {
    let value = object(vec![
        ("a", numbers(&[1, 2])),
        ("b", object(vec![("c", Json::Integer(3))])),
    ]);
    assert!(compare(&value, &value).is_empty());
}

#[test]
fn added_and_removed_keys_are_both_reported() {
    let before = object(vec![("kept", Json::Integer(1)), ("gone", Json::Integer(2))]);
    let after = object(vec![("kept", Json::Integer(1)), ("fresh", Json::Integer(3))]);
    let out = compare(&before, &after);
    assert_eq!(out.len(), 2);
    assert!(out
        .iter()
        .any(|d| d.path == "gone" && d.after == "(removed)"));
    assert!(out
        .iter()
        .any(|d| d.path == "fresh" && d.before == "(absent)"));
}

#[test]
fn long_signatures_are_summarised() {
    let before = object(vec![(
        "sig",
        text("48 8B 05 ? ? ? ? 48 8B 88 B8 00 00 00 48 8B 09"),
    )]);
    let after = object(vec![(
        "sig",
        text("48 8B 05 ? ? ? ? 48 8B 80 B8 00 00 00 48 8B 08"),
    )]);
    let out = compare(&before, &after);
    assert_eq!(out.len(), 1);
    assert!(out[0].after.contains("byte pattern"));
    assert_eq!(out[0].after, "<17 byte pattern>");
}

#[test]
fn keys_are_reported_in_order_whatever_the_order_of_the_files() {
    let before = object(vec![
        ("zeta", Json::Integer(1)),
        ("alpha", Json::Integer(1)),
        ("Beta", Json::Integer(1)),
    ]);
    let after = object(vec![
        ("alpha", Json::Integer(2)),
        ("Beta", Json::Integer(2)),
        ("zeta", Json::Integer(2)),
    ]);
    let paths: Vec<String> = compare(&before, &after)
        .into_iter()
        .map(|d| d.path)
        .collect();
    assert_eq!(paths, vec!["Beta", "alpha", "zeta"]);
}

#[test]
fn short_texts_are_spelled_out_as_json() {
    let before = object(vec![("a", text("say \"hi\"\n\\ \u{1}é"))]);
    let after = object(vec![("a", Json::Null)]);
    let out = compare(&before, &after);
    assert_eq!(out[0].before, "\"say \\\"hi\\\"\\n\\\\ \\u0001é\"");
    assert_eq!(out[0].after, "null");
}

#[test]
fn compact_text_agrees_with_the_json_crate() {
    let value = object(vec![
        ("n", Json::Null),
        ("t", Json::Bool(true)),
        ("f", Json::Bool(false)),
        ("i", Json::Integer(-42)),
        ("x", Json::Number("1.5".to_string())),
        ("s", text("a/b\t\"c\" \u{8}\u{c}\r\u{1f}\u{7f}ü")),
        ("l", numbers(&[1, 2, 3])),
        ("o", object(vec![("k\"ey", Json::List(Vec::new()))])),
        ("e", object(Vec::new())),
    ]);
    let written = compact_text(&value);
    let parsed: serde_json::Value = serde_json::from_str(&written).expect("valid JSON");
    assert_eq!(serde_json::to_string(&parsed).expect("json"), written);
    assert_eq!(parsed["s"], "a/b\t\"c\" \u{8}\u{c}\r\u{1f}\u{7f}ü");
}

#[test]
fn provenance_is_counted_and_what_is_carried_is_listed() {
    let entries = vec![
        ("a".to_string(), Provenance::Derived("X.a".to_string())),
        ("b".to_string(), Provenance::Derived("X.b".to_string())),
        ("c".to_string(), Provenance::Layout("List<T>".to_string())),
        ("d".to_string(), Provenance::SignatureFor("X".to_string())),
        ("e".to_string(), Provenance::Carried("native".to_string())),
    ];
    assert_eq!(
        render_provenance(&entries),
        "  2 values read from the dump, 1 derived from the pointer size, 1 signatures generated\n  \
         1 value(s) carried from the base file, because no dump describes them:\n    - e -- native"
    );
    assert_eq!(
        render_provenance(&[]),
        "  0 values read from the dump, 0 derived from the pointer size, 0 signatures generated\n  \
         nothing carried from the base file"
    );
}

fn sample() -> Offsets {
    Offsets {
        meeting_hud: vec![-1, 92, 0],
        object_cache_ptr: vec![8],
        meeting_hud_state: vec![136],
        all_players_ptr: vec![-1, 92, 0, 16],
        all_players: vec![8],
        player_count: vec![12],
        player_addr_ptr: 16,
        ship_status: vec![-1, 92, 0],
        ship_status_systems: vec![160],
        ship_status_map: vec![256],
        shipstatus_all_doors: vec![148],
        door_door_id: 16,
        door_is_open: 24,
        decon_door_upper_open: vec![16, 24],
        decon_door_lower_open: vec![20, 24],
        hq_hud_completed_consoles: vec![12, 16],
        hud_override_is_active: vec![8],
        mini_game: vec![-1, 92, 0],
        planet_surveillance_current_camera: vec![136],
        planet_surveillance_camaras_count: vec![116, 12],
        surveillance_filtered_rooms_count: vec![92, 12],
        light_radius: vec![140, 16],
        palette: vec![-1, 92],
        palette_playercolor: vec![644],
        palette_shadow_color: vec![648],
        player_control_game_options: vec![-1, 92, 20],
        gameoptions_data: vec![-1, 92, 0, 20],
        game_options_map_id: vec![20],
        game_options_max_players: vec![12],
        server_manager_current_server: vec![-1, 92, 4, 20, 8],
        connect_func: 4095,
        show_mod_stamp_func: 4095,
        mod_late_update_func: 255,
        fixed_update_func: 4095,
        ping_message_string: 4095,
        inner_net_client: InnerNetClient {
            base: vec![-1, 92, 0],
            network_address: 20,
            network_port: 24,
            game_mode: 40,
            game_id: 44,
            host_id: 48,
            client_id: 52,
            game_state: 100,
            online_scene: 176,
            main_menu_scene: 180,
        },
        player: Player {
            struct_layout: vec![StructMember::padding(40), StructMember::value("UINT", "id")],
            is_dummy: vec![184],
            is_local: vec![60, 132],
            local_x: vec![152, 44, 8, 124],
            local_y: vec![152, 44, 8, 128],
            remote_x: vec![152, 44, 8, 124],
            remote_y: vec![152, 44, 8, 128],
            buffer_length: 44,
            offsets: vec![0, 0],
            in_vent: vec![72],
            client_id: vec![32],
            current_outfit: vec![68],
            role_team: vec![76],
            name_text: vec![60, 52, 132],
            outfit: Outfit {
                color_id: vec![8],
                hat_id: vec![12],
                skin_id: vec![20],
                visor_id: vec![24],
                player_name: vec![32],
            },
        },
        signatures: Signatures::default(),
        old_meeting_hud: false,
        disable_writing: true,
        new_game_options: true,
    }
}

#[test]
fn two_offsets_files_are_compared_field_by_field() {
    let before = sample();
    assert!(diff(&before, &before).is_empty());
    let mut after = sample();
    after.player.role_team = vec![80];
    after.signatures.palette = Signature {
        sig: Some("8B 0D ?".to_string()),
        pattern_offset: Some(2),
        address_offset: None,
    };
    let found = diff(&before, &after);
    assert_eq!(found.len(), 3);
    assert_eq!(found[0].path, "player.roleTeam");
    assert_eq!(found[0].before, "[76]");
    assert_eq!(found[0].after, "[80]");
    assert_eq!(found[1].path, "signatures.palette.patternOffset");
    assert_eq!(found[1].before, "(absent)");
    assert_eq!(found[2].path, "signatures.palette.sig");
    assert_eq!(found[2].after, "\"8B 0D ?\"");
}

#[test]
fn an_offsets_file_is_written_in_the_order_of_the_schema() {
    let text = acl_offsetgen::offsets::render_offsets(&sample()).expect("render");
    assert!(text.starts_with("{\n  \"meetingHud\": [\n    -1,\n    92,\n    0\n  ],\n"));
    assert!(text.ends_with("  \"newGameOptions\": true\n}\n"));
    let value: serde_json::Value = serde_json::from_str(&text).expect("valid JSON");
    let keys: Vec<&String> = value.as_object().expect("object").keys().collect();
    assert_eq!(keys.len(), 41);
    assert_eq!(keys[1], "objectCachePtr");
    assert_eq!(keys[12], "door_isOpen");
    assert_eq!(keys[13], "deconDoorUpperOpen");
    assert!(!text.contains("mushroomDoor_isOpen"));
    assert_eq!(value["player"]["struct"][0]["skip"], 40);
    assert_eq!(value["player"]["struct"][1]["type"], "UINT");
    assert_eq!(value["signatures"]["palette"].as_object().expect("object").len(), 0);
}

#[test]
fn objects_inside_an_array_are_compared_by_key() {
    let one = Json::Integer(1);
    let before = Json::List(vec![object(vec![("a", Json::Integer(1)), ("b", Json::Integer(2))])]);
    let after = Json::List(vec![object(vec![("b", Json::Integer(2)), ("a", Json::Integer(1))])]);
    assert!(compare(&before, &after).is_empty());
    assert!(compare(&after, &before).is_empty());
    let other = Json::List(vec![object(vec![("b", Json::Integer(2)), ("a", Json::Integer(3))])]);
    assert_eq!(compare(&before, &other).len(), 1);
    let fewer = Json::List(vec![object(vec![("a", one)])]);
    assert_eq!(compare(&before, &fewer).len(), 1);
    assert_eq!(compare(&fewer, &before).len(), 1);
}

#[test]
fn fractions_are_compared_as_numbers() {
    let number = |text: &str| Json::List(vec![Json::Number(text.to_string())]);
    assert!(compare(&number("0.0"), &number("-0.0")).is_empty());
    assert!(compare(&number("1.5"), &number("1.5")).is_empty());
    assert_eq!(compare(&number("1.5"), &number("-1.5")).len(), 1);
    assert_eq!(compare(&number("0.0"), &Json::List(vec![Json::Integer(0)])).len(), 1);
}

#[test]
fn every_change_to_an_offsets_file_is_reported_once() {
    let before = sample();
    let mut after = sample();
    after.meeting_hud = vec![-1, 184, 0];
    after.door_is_open = 32;
    after.disable_writing = false;
    after.inner_net_client.host_id = 56;
    after.player.struct_layout.push(StructMember::padding(4));
    after.player.outfit.hat_id = vec![];
    after.signatures.game_data.pattern_offset = Some(0);
    let paths = |found: &Vec<Difference>| -> Vec<String> {
        found.iter().map(|one| one.path.clone()).collect()
    };
    let found = diff(&before, &after);
    assert_eq!(
        paths(&found),
        vec![
            "disableWriting",
            "door_isOpen",
            "innerNetClient.hostId",
            "meetingHud",
            "player.outfit.hatId",
            "player.struct",
            "signatures.gameData.patternOffset",
        ]
    );
    let back = diff(&after, &before);
    assert_eq!(paths(&back), paths(&found));
    assert_eq!(back[1].before, found[1].after);
}
