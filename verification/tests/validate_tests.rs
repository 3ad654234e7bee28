use acl_offsetgen::offsets::{
    InnerNetClient, Offsets, Outfit, Player, Signature, Signatures, StructMember, SIGNATURE_RESOLVED,
};
use acl_offsetgen::validate::{check_chain_shapes, check_no_sentinels, check_player_struct};

fn minimal_offsets() -> Offsets {
    let sig = |text: &str| Signature {
        sig: Some(text.to_string()),
        pattern_offset: Some(3),
        address_offset: Some(0),
    };
    Offsets {
        meeting_hud: vec![SIGNATURE_RESOLVED, 92, 0],
        object_cache_ptr: vec![8],
        meeting_hud_state: vec![136],
        all_players_ptr: vec![SIGNATURE_RESOLVED, 92, 0, 16],
        all_players: vec![8],
        player_count: vec![12],
        player_addr_ptr: 16,
        ship_status: vec![SIGNATURE_RESOLVED, 92, 0],
        ship_status_systems: vec![160],
        ship_status_map: vec![256],
        shipstatus_all_doors: vec![148],
        door_door_id: 16,
        door_is_open: 24,
        decon_door_upper_open: vec![16, 24],
        decon_door_lower_open: vec![20, 24],
        hq_hud_completed_consoles: vec![12, 16],
        hud_override_is_active: vec![8],
        mini_game: vec![SIGNATURE_RESOLVED, 92, 0],
        planet_surveillance_current_camera: vec![136],
        planet_surveillance_camaras_count: vec![116, 12],
        surveillance_filtered_rooms_count: vec![92, 12],
        light_radius: vec![140, 16],
        palette: vec![SIGNATURE_RESOLVED, 92],
        palette_playercolor: vec![644],
        palette_shadow_color: vec![648],
        player_control_game_options: vec![SIGNATURE_RESOLVED, 92, 20],
        gameoptions_data: vec![SIGNATURE_RESOLVED, 92, 0, 20],
        game_options_map_id: vec![20],
        game_options_max_players: vec![12],
        server_manager_current_server: vec![SIGNATURE_RESOLVED, 92, 4, 20, 8],
        connect_func: 4095,
        show_mod_stamp_func: 4095,
        mod_late_update_func: 255,
        fixed_update_func: 4095,
        ping_message_string: 4095,
        inner_net_client: InnerNetClient {
            base: vec![SIGNATURE_RESOLVED, 92, 0],
            network_address: 20,
            network_port: 24,
            game_mode: 40,
            game_id: 44,
            host_id: 48,
            client_id: 52,
            game_state: 100,
            online_scene: 176,
            main_menu_scene: 180,
        },
        player: Player {
            struct_layout: vec![
                StructMember::padding(40),
                StructMember::value("UINT", "id"),
                StructMember::padding(20),
                StructMember::value("UINT", "outfitsPtr"),
                StructMember::value("UINT", "playerLevel"),
                StructMember::value("UINT", "disconnected"),
                StructMember::value("UINT", "rolePtr"),
                StructMember::value("UINT", "taskPtr"),
                StructMember::value("BYTE", "dead"),
                StructMember::padding(3),
                StructMember::value("UINT", "objectPtr"),
            ],
            is_dummy: vec![184],
            is_local: vec![60, 132],
            local_x: vec![152, 44, 8, 124],
            local_y: vec![152, 44, 8, 128],
            remote_x: vec![152, 44, 8, 124],
            remote_y: vec![152, 44, 8, 128],
            buffer_length: 92,
            offsets: vec![0, 0],
            in_vent: vec![72],
            client_id: vec![32],
            current_outfit: vec![68],
            role_team: vec![80],
            name_text: vec![60, 52, 132],
            outfit: Outfit {
                color_id: vec![8],
                hat_id: vec![12],
                skin_id: vec![20],
                visor_id: vec![24],
                player_name: vec![32],
            },
        },
        signatures: Signatures {
            inner_net_client: sig("8B 0D ? ? ? ?"),
            meeting_hud: sig("8B 0D ? ? ? ?"),
            game_data: sig("8B 0D ? ? ? ?"),
            ship_status: sig("8B 0D ? ? ? ?"),
            mini_game: sig("8B 0D ? ? ? ?"),
            palette: sig("8B 0D ? ? ? ?"),
            player_control: sig("8B 0D ? ? ? ?"),
            show_mod_stamp: Signature::default(),
            connect_func: Signature::default(),
            fixed_update_func: Signature::default(),
            ping_message_string: Signature::default(),
            mod_late_update: Signature::default(),
            server_manager: sig("8B 0D ? ? ? ?"),
            game_options_manager: sig("8B 0D ? ? ? ?"),
        },
        old_meeting_hud: false,
        disable_writing: true,
        new_game_options: true,
    }
}

#[test]
fn a_clean_file_has_no_structural_problems() {
    let offsets = minimal_offsets();
    let mut problems = Vec::new();
    check_no_sentinels(&offsets, &mut problems);
    check_chain_shapes(&offsets, &mut problems);
    check_player_struct(&offsets, &mut problems);
    assert!(problems.is_empty(), "unexpected problems: {problems:?}");
}

#[test]
fn a_stray_minus_one_is_caught() {
    let mut offsets = minimal_offsets();
    offsets.player.role_team = vec![SIGNATURE_RESOLVED];
    let mut problems = Vec::new();
    check_no_sentinels(&offsets, &mut problems);
    assert_eq!(problems.len(), 1);
    assert!(problems[0].contains("player.roleTeam[0]"));
}

#[test]
fn an_address_leaking_into_a_field_slot_is_caught() {
    let mut offsets = minimal_offsets();
    offsets.player.in_vent = vec![44_941_892];
    let mut problems = Vec::new();
    check_no_sentinels(&offsets, &mut problems);
    assert_eq!(problems.len(), 1);
    assert!(problems[0].contains("plausible"));
}

#[test]
fn inconsistent_static_fields_offsets_are_caught() {
    let mut offsets = minimal_offsets();
    offsets.ship_status = vec![SIGNATURE_RESOLVED, 184, 0];
    let mut problems = Vec::new();
    check_chain_shapes(&offsets, &mut problems);
    assert_eq!(problems.len(), 1);
    assert!(problems[0].contains("static_fields"));
}

#[test]
fn a_missing_signature_for_a_signature_backed_chain_is_caught() {
    let mut offsets = minimal_offsets();
    offsets.signatures.palette = Signature::default();
    let mut problems = Vec::new();
    check_chain_shapes(&offsets, &mut problems);
    assert_eq!(problems.len(), 1);
    assert!(problems[0].contains("signature is empty"));
}

#[test]
fn struct_and_buffer_length_must_agree() {
    let mut offsets = minimal_offsets();
    offsets.player.buffer_length = 136;
    let mut problems = Vec::new();
    check_player_struct(&offsets, &mut problems);
    assert_eq!(problems.len(), 1);
    assert!(problems[0].contains("bufferLength"));
}

#[test]
fn a_struct_missing_object_ptr_is_caught() {
    let mut offsets = minimal_offsets();
    offsets
        .player
        .struct_layout
        .retain(|m| m.name != "objectPtr");
    offsets.player.buffer_length = 88;
    let mut problems = Vec::new();
    check_player_struct(&offsets, &mut problems);
    assert!(problems.iter().any(|p| p.contains("objectPtr")));
}
