//! Whole runs against synthetic builds: from a PE file, a dump and a table of
//! slots to offsets that pass every check, on both architectures.

use acl_offsetgen::dumpcs::Dump;
use acl_offsetgen::error::Error;
use acl_offsetgen::gameinfo::{
    establish_broadcast, read_broadcast_version, read_stored_version, GameVersion,
};
use acl_offsetgen::generate::{
    BaseConstants, CarriedSignatures, Flags, FunctionPlaceholders, Generator, Provenance,
};
use acl_offsetgen::json::Json;
use acl_offsetgen::lookup::{BroadcastPattern, ContentChange, Lookup, Patterns, VersionEntry};
use acl_offsetgen::offsets::{render_offsets, Signature, StructMember};
use acl_offsetgen::pattern::Pattern;
use acl_offsetgen::pe::{Arch, Image};
use acl_offsetgen::run::{check_file, publish};
use acl_offsetgen::scriptjson::{MetadataEntry, TypeInfoTable};
use acl_offsetgen::siggen::{Resolution, SignatureGenerator};
use acl_offsetgen::validate::{validate, structural_problems};

const IMAGE_BASE: u32 = 0x1000_0000;
const TEXT_RVA: usize = 0x1000;
const FIRST_SLOT: u32 = 0x2_0100;

const TYPES: [&str; 9] = [
    "MeetingHud",
    "ShipStatus",
    "Minigame",
    "Palette",
    "GameData",
    "GameOptionsManager",
    "ServerManager",
    "AmongUsClient",
    "PlayerControl",
];

fn slot_of(index: usize) -> u32 {
    FIRST_SLOT + 8 * index as u32
}

fn put32(file: &mut Vec<u8>, at: usize, value: u32) {
    file[at..at + 4].copy_from_slice(&value.to_le_bytes());
}

fn put16(file: &mut Vec<u8>, at: usize, value: u16) {
    file[at..at + 2].copy_from_slice(&value.to_le_bytes());
}

/// A PE file with one code section and one relocation block.
fn build_pe(arch: Arch, code: &[u8], relocations: &[u16]) -> Vec<u8> {
    let optional_size: u16 = 0xf0;
    let pe = 0x80usize;
    let opt = pe + 24;
    let table = opt + optional_size as usize;
    let mut file = vec![0u8; 0x1000];
    file[0] = b'M';
    file[1] = b'Z';
    put32(&mut file, 0x3c, pe as u32);
    file[pe..pe + 4].copy_from_slice(b"PE\0\0");
    put16(&mut file, pe + 6, 2);
    put16(&mut file, pe + 20, optional_size);
    let dir_count = match arch {
        Arch::X86 => {
            put16(&mut file, opt, 0x10b);
            put32(&mut file, opt + 28, IMAGE_BASE);
            opt + 92
        }
        Arch::X64 => {
            put16(&mut file, opt, 0x20b);
            put32(&mut file, opt + 24, 0x8000_0000);
            put32(&mut file, opt + 28, 0x1);
            opt + 108
        }
    };
    put32(&mut file, opt + 56, 0x3_0000);
    put32(&mut file, opt + 60, 0x400);
    put32(&mut file, dir_count, 16);
    put32(&mut file, dir_count + 44, 0x2000);
    put32(&mut file, dir_count + 48, 0x100);

    file[table..table + 6].copy_from_slice(b"il2cpp");
    put32(&mut file, table + 8, 0x400);
    put32(&mut file, table + 12, TEXT_RVA as u32);
    put32(&mut file, table + 16, 0x400);
    put32(&mut file, table + 20, 0x400);
    put32(&mut file, table + 36, 0x6000_0020);
    let second = table + 40;
    file[second..second + 6].copy_from_slice(b".reloc");
    put32(&mut file, second + 8, 0x100);
    put32(&mut file, second + 12, 0x2000);
    put32(&mut file, second + 16, 0x200);
    put32(&mut file, second + 20, 0x800);
    put32(&mut file, second + 36, 0x4200_0040);

    file[0x400..0x400 + code.len()].copy_from_slice(code);
    put32(&mut file, 0x800, 0x1000);
    put32(&mut file, 0x804, 8 + 2 * relocations.len() as u32);
    for (index, offset) in relocations.iter().enumerate() {
        put16(&mut file, 0x808 + 2 * index, (3 << 12) | *offset);
    }
    file
}

const VERSION: i32 = 50_663_350;

/// Code that loads every slot once, and the method that returns the version.
/// Returns the file and the RVA of the method.
fn build_game(arch: Arch) -> (Vec<u8>, u64) {
    let mut code: Vec<u8> = Vec::new();
    let mut relocations: Vec<u16> = Vec::new();
    for index in 0..TYPES.len() {
        let slot = slot_of(index);
        match arch {
            Arch::X86 => {
                relocations.push(code.len() as u16 + 1);
                code.push(0xA1);
                code.extend_from_slice(&(IMAGE_BASE + slot).to_le_bytes());
                code.extend_from_slice(&[0x83, 0xC0, index as u8 + 1]);
            }
            Arch::X64 => {
                code.extend_from_slice(&[0x48, 0x8B, 0x05]);
                let end = (TEXT_RVA + code.len() + 4) as u32;
                code.extend_from_slice(&(slot - end).to_le_bytes());
                code.extend_from_slice(&[0x48, 0x83, 0xC0, index as u8 + 1]);
            }
        }
    }
    code.extend_from_slice(&[0xC3, 0x51, 0x52, 0x53]);
    let method = (TEXT_RVA + code.len()) as u64;
    code.push(0xB8);
    code.extend_from_slice(&VERSION.to_le_bytes());
    code.push(0xC3);
    (build_pe(arch, &code, &relocations), method)
}

fn types() -> TypeInfoTable {
    let entries = TYPES
        .iter()
        .enumerate()
        .map(|(index, name)| MetadataEntry {
            address: slot_of(index) as u64,
            name: format!("{name}_TypeInfo"),
        })
        .collect();
    TypeInfoTable::parse(Ok(entries)).ok().expect("a table")
}

fn fields(pointer: i64) -> Vec<(&'static str, &'static str, i64)> {
    let p = pointer;
    vec![
        ("GameData", "AllPlayers", 4 * p),
        ("GameOptionsManager", "currentGameOptions", 5 * p),
        ("PlainDoor", "Open", 6 * p),
        ("DeconSystem", "UpperDoor", 4 * p),
        ("DeconSystem", "LowerDoor", 5 * p),
        ("PlayerControl", "cosmetics", 60),
        ("PlayerControl", "NetTransform", 152),
        ("PlayerControl", "isDummy", 184),
        ("PlayerControl", "inVent", 72),
        ("PlayerControl", "<CurrentOutfitType>k__BackingField", 68),
        ("PlayerControl", "myLight", 140),
        ("CustomNetworkTransform", "body", 44),
        ("NetworkedPlayerInfo", "PlayerId", 40),
        ("NetworkedPlayerInfo", "Outfits", 64),
        ("NetworkedPlayerInfo", "PlayerLevel", 64 + p),
        ("NetworkedPlayerInfo", "Disconnected", 68 + p),
        ("NetworkedPlayerInfo", "Role", 72 + p),
        ("NetworkedPlayerInfo", "Tasks", 72 + 2 * p),
        ("NetworkedPlayerInfo", "IsDead", 72 + 3 * p),
        ("NetworkedPlayerInfo", "_object", 72 + 4 * p),
        ("CosmeticsLayer", "localPlayer", 132),
        ("CosmeticsLayer", "nameText", 52),
        ("InnerNetObject", "OwnerId", 32),
        ("RoleBehaviour", "TeamType", 80),
        ("TMP_Text", "m_text", 132),
        ("NetworkedPlayerInfo.PlayerOutfit", "ColorId", 8),
        ("NetworkedPlayerInfo.PlayerOutfit", "HatId", 12),
        ("NetworkedPlayerInfo.PlayerOutfit", "SkinId", 20),
        ("NetworkedPlayerInfo.PlayerOutfit", "VisorId", 24),
        ("NetworkedPlayerInfo.PlayerOutfit", "PlayerName", 32),
        ("InnerNetClient", "networkAddress", 20),
        ("InnerNetClient", "networkPort", 24),
        ("InnerNetClient", "NetworkMode", 40),
        ("InnerNetClient", "GameId", 44),
        ("InnerNetClient", "HostId", 48),
        ("InnerNetClient", "ClientId", 52),
        ("InnerNetClient", "GameState", 100),
        ("AmongUsClient", "OnlineScene", 176),
        ("AmongUsClient", "MainMenuScene", 180),
        ("MeetingHud", "state", 136),
        ("ShipStatus", "Systems", 160),
        ("ShipStatus", "Type", 256),
        ("ShipStatus", "AllDoors", 148),
        ("OpenableDoor", "Id", 16),
        ("HqHudSystemType", "CompletedConsoles", 12),
        ("HudOverrideSystemType", "<IsActive>k__BackingField", 8),
        ("PlanetSurveillanceMinigame", "currentCamera", 136),
        ("PlanetSurveillanceMinigame", "survCameras", 116),
        ("SurveillanceMinigame", "FilteredRooms", 92),
        ("LightSource", "viewDistance", 16),
        ("Palette", "PlayerColors", 644),
        ("Palette", "ShadowColors", 648),
        ("NormalGameOptionsV11", "<MapId>k__BackingField", 20),
        ("NormalGameOptionsV11", "<MaxPlayers>k__BackingField", 12),
    ]
}

fn dump_text(pointer: i64, without: &str, method: u64) -> String {
    let mut text = String::new();
    let all = fields(pointer);
    let mut classes: Vec<&str> = all.iter().map(|(class, _, _)| *class).collect();
    classes.sort();
    classes.dedup();
    for class in classes {
        text.push_str(&format!("public class {class} : Object // TypeDefIndex: 1\n{{\n"));
        for (of, name, offset) in &all {
            if *of == class && *name != without {
                let modifier = if class == "Palette" { "static " } else { "" };
                text.push_str(&format!("\tpublic {modifier}int {name}; // 0x{offset:X}\n"));
            }
        }
        text.push_str("}\n\n");
    }
    text.push_str(&format!(
        "public static class Constants // TypeDefIndex: 2\n{{\n\t// Methods\n\n\
         \t// RVA: 0x{method:X} Offset: 0x10 VA: 0x1000{method:X}\n\
         \tpublic static int GetBroadcastVersion() {{ }}\n\n\
         \t// RVA: -1 Offset: -1\n\tpublic abstract void Abstract();\n}}\n"
    ));
    text
}

fn base(show_mod_stamp: Signature) -> BaseConstants {
    BaseConstants {
        native_rigidbody_position_x: 124,
        server_manager_tail: vec![4, 20, 8],
        player_control_game_options_tail: vec![20],
        function_placeholders: FunctionPlaceholders {
            connect_func: 4095,
            show_mod_stamp_func: 4094,
            mod_late_update_func: 255,
            fixed_update_func: 4093,
            ping_message_string: 4092,
        },
        carried_signatures: CarriedSignatures {
            show_mod_stamp,
            ..CarriedSignatures::default()
        },
        flags: Flags {
            old_meeting_hud: false,
            disable_writing: true,
            new_game_options: true,
        },
    }
}

fn sig(text: &str) -> Signature {
    Signature {
        sig: Some(text.to_string()),
        pattern_offset: Some(1),
        address_offset: Some(0),
    }
}

#[test]
fn a_whole_x86_build_generates_and_passes_every_check() {
    let (file, method) = build_game(Arch::X86);
    let image = Image::parse(&file).expect("parse");
    let dump = Dump::parse(&dump_text(4, "", method));
    let types = types();
    let base = base(sig("90 90"));
    let generator = Generator::new(&dump, &types, &image, &base, 92);
    assert!(generator.fits());
    let outcome = generator.generate().ok().expect("generated");
    let o = &outcome.offsets;
    assert_eq!(o.meeting_hud, vec![-1, 92, 0]);
    assert_eq!(o.all_players_ptr, vec![-1, 92, 0, 16]);
    assert_eq!(o.palette, vec![-1, 92]);
    assert_eq!(o.palette_playercolor, vec![644]);
    assert_eq!(o.server_manager_current_server, vec![-1, 92, 4, 20, 8]);
    assert_eq!(o.player_control_game_options, vec![-1, 92, 20]);
    assert_eq!(o.gameoptions_data, vec![-1, 92, 0, 20]);
    assert_eq!(o.object_cache_ptr, vec![8]);
    assert_eq!(o.all_players, vec![8]);
    assert_eq!(o.player_count, vec![12]);
    assert_eq!(o.player_addr_ptr, 16);
    assert_eq!(o.hq_hud_completed_consoles, vec![12, 16]);
    assert_eq!(o.planet_surveillance_camaras_count, vec![116, 12]);
    assert_eq!(o.light_radius, vec![140, 16]);
    assert_eq!(o.decon_door_upper_open, vec![16, 24]);
    assert_eq!(o.inner_net_client.game_mode, 40);
    assert_eq!(o.player.local_y, vec![152, 44, 8, 128]);
    assert_eq!(o.player.name_text, vec![60, 52, 132]);
    assert_eq!(o.player.buffer_length, 92);
    let described: i64 = o.player.struct_layout.iter().map(|member| member.size()).sum();
    assert_eq!(described, o.player.buffer_length);
    assert_eq!(o.player.struct_layout.len(), 11);
    assert_eq!(o.player.struct_layout[0], StructMember::padding(40));
    assert_eq!(o.player.struct_layout[9], StructMember::padding(3));
    assert_eq!(o.connect_func, 4095);
    assert_eq!(
        o.signatures.meeting_hud.sig.as_deref(),
        Some("A1 ? ? ? ? 83 C0 01")
    );
    assert_eq!(o.signatures.meeting_hud.pattern_offset, Some(1));
    assert_eq!(o.signatures.meeting_hud.address_offset, Some(0));
    assert_eq!(o.signatures.show_mod_stamp.sig.as_deref(), Some("90 90"));

    assert_eq!(
        outcome.notes,
        vec![
            "innerNetClient.gameMode: InnerNetClient.GameMode is gone in this build; used \
             InnerNetClient.NetworkMode instead"
                .to_string(),
            "lightRadius[0]: PlayerControl.lightSource is gone in this build; used \
             PlayerControl.myLight instead"
                .to_string(),
        ]
    );
    assert_eq!(outcome.signature_details.len(), 9);
    assert_eq!(outcome.signature_details[0].0, "MeetingHud");
    assert_eq!(
        outcome.signature_details[0].1,
        "8 bytes (4 literal) anchored at 0x1000"
    );
    let carried = outcome
        .provenance
        .iter()
        .filter(|(_, from)| matches!(from, Provenance::Carried(_)))
        .count();
    assert_eq!(carried, 4);
    assert_eq!(
        outcome.provenance[0],
        (
            "meetingHud".to_string(),
            Provenance::SignatureFor("MeetingHud".to_string())
        )
    );

    let report = validate(o, &image, &types);
    assert_eq!(report.problems, Vec::<String>::new());
    assert!(report.is_ok());
    assert_eq!(report.warnings.len(), 1);
    assert!(report.warnings[0].contains(
        "(showModStamp matches more than once, connectFunc is missing or unparseable, "
    ) || report.warnings[0].contains("(showModStamp does not match this build, "));
    assert!(structural_problems(o).is_empty());
}

#[test]
fn a_whole_x64_build_generates_and_passes_every_check() {
    let (file, method) = build_game(Arch::X64);
    let image = Image::parse(&file).expect("parse");
    assert_eq!(image.arch, Arch::X64);
    assert_eq!(image.image_base, 0x1_8000_0000);
    let dump = Dump::parse(&dump_text(8, "", method));
    let types = types();
    let base = base(Signature::default());
    let outcome = Generator::new(&dump, &types, &image, &base, 184)
        .generate()
        .ok()
        .expect("generated");
    let o = &outcome.offsets;
    assert_eq!(o.meeting_hud, vec![-1, 184, 0]);
    assert_eq!(o.player_count, vec![24]);
    assert_eq!(o.hq_hud_completed_consoles, vec![12, 32]);
    assert_eq!(o.planet_surveillance_camaras_count, vec![116, 24]);
    assert_eq!(
        o.signatures.ship_status.sig.as_deref(),
        Some("8B 05 ? ? ? ? 48 83 C0 02")
    );
    assert_eq!(o.signatures.ship_status.pattern_offset, Some(2));
    assert_eq!(o.signatures.ship_status.address_offset, Some(4));
    // The record ends where its last pointer does, and the struct fills it.
    assert_eq!(o.player.buffer_length, 112);
    assert_eq!(
        o.player.struct_layout.iter().map(|m| m.size()).sum::<i64>(),
        112
    );
    assert_eq!(
        o.player.struct_layout.last(),
        Some(&StructMember::padding(4))
    );
    let report = validate(o, &image, &types);
    assert_eq!(report.problems, Vec::<String>::new());
    assert!(report.warnings.is_empty());
    let x86 = validate(o, &Image::parse(&build_game(Arch::X86).0).expect("parse"), &types);
    assert_eq!(x86.checks_run, report.checks_run + 5);
    assert!(!x86.is_ok());
}

#[test]
fn everything_that_is_missing_is_reported_and_nothing_is_guessed() {
    let (file, method) = build_game(Arch::X86);
    let image = Image::parse(&file).expect("parse");
    let text = dump_text(4, "TeamType", method).replace("class PlainDoor ", "class FancyDoor ");
    let dump = Dump::parse(&text);
    let types = TypeInfoTable::parse(Ok(vec![MetadataEntry {
        address: 0x2_9999,
        name: "MeetingHud_TypeInfo".to_string(),
    }]))
    .ok()
    .expect("a table");
    let base = base(Signature::default());
    let error = Generator::new(&dump, &types, &image, &base, 92)
        .generate()
        .err()
        .expect("must fail");
    let problems = match error {
        Error::Validation(problems) => problems,
        _ => panic!("another error"),
    };
    assert_eq!(problems.len(), 11);
    assert!(problems[0].starts_with(
        "meetingHud: signature for MeetingHud failed: no instruction in any code section"
    ));
    assert!(problems[1].starts_with("shipStatus: no ShipStatus_TypeInfo in script.json"));
    assert_eq!(
        problems[9],
        "door_isOpen: class 'PlainDoor' is not in this dump at all -- it was renamed, removed, or \
         the dump is incomplete"
    );
    assert_eq!(
        problems[10],
        "player.roleTeam: RoleBehaviour has none of [\"TeamType\"]"
    );
}

#[test]
fn near_misses_are_named() {
    let (file, _) = build_game(Arch::X86);
    let image = Image::parse(&file).expect("parse");
    let mut text = dump_text(4, "TeamType", 0);
    text.push_str("public class RoleBehaviour\n{\n\tpublic int team; // 0x8\n\tpublic int other; // 0xC\n\tpublic int MyTeamTypeNow; // 0x10\n}\n");
    let dump = Dump::parse(&text);
    let types = types();
    let base = base(Signature::default());
    let error = Generator::new(&dump, &types, &image, &base, 92)
        .generate()
        .err()
        .expect("must fail");
    assert_eq!(
        error.to_string(),
        "the generated offsets did not pass validation (1 problem):\n  \
         - player.roleTeam: RoleBehaviour has none of [\"TeamType\"] (similar fields present: team, \
         MyTeamTypeNow)\nnothing was written. Publishing offsets that fail these checks hands the \
         client a wrong pointer, which is worse than shipping nothing."
    );
}

#[test]
fn a_broken_signature_does_not_pass() {
    let (file, method) = build_game(Arch::X86);
    let image = Image::parse(&file).expect("parse");
    let dump = Dump::parse(&dump_text(4, "", method));
    let types = types();
    let base = base(Signature::default());
    let mut offsets = Generator::new(&dump, &types, &image, &base, 92)
        .generate()
        .ok()
        .expect("generated")
        .offsets;
    offsets.signatures.meeting_hud.sig = None;
    offsets.signatures.game_data.sig = Some("zz".to_string());
    offsets.signatures.ship_status.sig = Some("A1 ? ? ? ? 83 C0".to_string());
    offsets.signatures.mini_game.sig = Some("12 34 56 78 9A".to_string());
    offsets.signatures.palette.pattern_offset = Some(-100_000);
    offsets.signatures.player_control.sig = offsets.signatures.inner_net_client.sig.clone();
    offsets.signatures.server_manager.pattern_offset = Some(0x200);
    let problems = validate(&offsets, &image, &types).problems;
    assert_eq!(
        problems,
        vec![
            "meetingHud is resolved by signature at runtime but its signature is empty",
            "signatures.meetingHud is missing",
            "signatures.gameData does not parse: 'zz' is not a hex byte or wildcard in signature",
            "signatures.shipStatus matches 4 or more times in the module; the client takes the \
             first match, so anything but exactly one is a coin flip on the next build",
            "signatures.miniGame matches 0 times in the module; the client takes the first match, \
             so anything but exactly one is a coin flip on the next build",
            "signatures.palette does not resolve: signature match points outside the image",
            "signatures.playerControl resolves to 0x20138 but PlayerControl_TypeInfo is at 0x20140",
            "signatures.serverManager does not resolve: signature resolves to 0xFFFFFFFFF0000000, \
             which is outside the module",
        ]
    );
    let without = TypeInfoTable::parse(Ok(vec![MetadataEntry {
        address: 1,
        name: "X_TypeInfo".to_string(),
    }]))
    .ok()
    .expect("a table");
    assert!(validate(&offsets, &image, &without)
        .problems
        .contains(&"signatures.innerNetClient: AmongUsClient_TypeInfo is not in script.json, so the \
                    signature cannot be checked".to_string()));
}

#[test]
fn an_unusable_hook_fails_the_file_once_writing_is_on() {
    let (file, method) = build_game(Arch::X86);
    let image = Image::parse(&file).expect("parse");
    let dump = Dump::parse(&dump_text(4, "", method));
    let types = types();
    let base = base(Signature::default());
    let mut offsets = Generator::new(&dump, &types, &image, &base, 92)
        .generate()
        .ok()
        .expect("generated")
        .offsets;
    // Exactly one match, several, none, garbage and nothing at all.
    offsets.signatures.show_mod_stamp = sig("A1 ? ? ? ? 83 C0 01");
    offsets.signatures.connect_func = sig("83 C0");
    offsets.signatures.fixed_update_func = sig("12 34 56 78 9A");
    offsets.signatures.mod_late_update = sig("what");
    let quiet = validate(&offsets, &image, &types);
    assert!(quiet.is_ok());
    assert!(quiet.warnings[0].starts_with(
        "write-path signatures are stale (connectFunc matches more than once, fixedUpdateFunc does \
         not match this build, modLateUpdate is missing or unparseable, pingMessageString is missing \
         or unparseable). Harmless while disableWriting is true"
    ));
    offsets.disable_writing = false;
    let loud = validate(&offsets, &image, &types);
    assert!(loud.warnings.is_empty());
    assert_eq!(loud.problems.len(), 4);
    for (problem, name) in loud.problems.iter().zip([
        "connectFunc",
        "fixedUpdateFunc",
        "modLateUpdate",
        "pingMessageString",
    ]) {
        assert!(problem.starts_with(&format!(
            "signatures.{name} does not resolve on this build, and disableWriting is false."
        )));
    }
}

#[test]
fn the_broadcast_version_comes_from_the_dump() {
    let (file, method) = build_game(Arch::X86);
    let image = Image::parse(&file).expect("parse");
    let dump = Dump::parse(&dump_text(4, "", method));
    assert_eq!(
        dump.method_rva("Constants", "GetBroadcastVersion"),
        Some(method)
    );
    assert_eq!(dump.method_rva("Constants", "Abstract"), None);
    assert_eq!(dump.method_rva("Nowhere", "GetBroadcastVersion"), None);

    // A stored pattern that still gives the version is kept.
    let good = sig("B8 ? ? ? ? C3");
    assert_eq!(read_stored_version(&image, &good).expect("read"), VERSION);
    let kept = establish_broadcast(&image, &good, Some(method)).ok().expect("kept");
    assert_eq!(kept.version, VERSION);
    assert!(kept.replacement.is_none());

    // One that does not is replaced by one that does.
    for stale in [sig("12 34 56 78"), sig("A1 ? ? ? ?"), sig("zz"), Signature::default()] {
        let found = establish_broadcast(&image, &stale, Some(method))
            .ok()
            .expect("replaced");
        assert_eq!(found.version, VERSION);
        let replacement = found.replacement.expect("a replacement");
        assert_eq!(
            read_stored_version(&image, &replacement).expect("read"),
            VERSION
        );
    }

    // Without the method the stored pattern is all there is.
    assert_eq!(
        establish_broadcast(&image, &good, None).ok().expect("read").version,
        VERSION
    );
    let error = establish_broadcast(&image, &Signature::default(), None)
        .err()
        .expect("nothing to read with");
    assert_eq!(
        error.to_string(),
        "lookup.json has no broadcastVersion signature"
    );
}

#[test]
fn a_broadcast_pattern_fails_in_each_way() {
    let (file, _) = build_game(Arch::X86);
    let image = Image::parse(&file).expect("parse");
    let text = |p: &str, po: i64, ao: i64| {
        read_broadcast_version(&image, &Pattern::parse(p).expect("pattern"), po, ao)
            .err()
            .expect("an error")
            .to_string()
    };
    assert!(text("12 34 56 78 9A", 0, 0)
        .starts_with("the broadcast-version signature for x86 did not match this build."));
    assert_eq!(
        text("B8 ? ? ? ? C3", -0x10_0000, 0),
        "broadcast-version signature points outside the image"
    );
    assert_eq!(
        text("B8 ? ? ? ? C3", 0, 0x10_0000),
        "broadcast-version signature points outside the image"
    );
    assert_eq!(
        text("B8 ? ? ? ? C3", 0x100, 0),
        "broadcast version read as 0, which cannot be right"
    );
}

#[test]
fn the_client_reads_what_was_built_in_on_x64() {
    let (file, method) = build_game(Arch::X64);
    let image = Image::parse(&file).expect("parse");
    let generator = SignatureGenerator::new(&image);
    let signature = generator.generate_immediate(method).expect("generate");
    assert_eq!(signature.resolves_to, Resolution::Immediate(VERSION));
    assert_eq!(signature.address_offset, 0);
    let error = generator
        .read_immediate(0, -5, 0)
        .expect_err("before the module");
    assert_eq!(
        error.to_string(),
        "signature location is before the start of the module"
    );
    let error = generator
        .read_immediate(0x2_FFFD, 0, 0)
        .expect_err("past the end");
    assert_eq!(error.to_string(), "signature match points outside the image");
    let slot = generator.generate(slot_of(4) as u64).expect("generate");
    assert_eq!(slot.resolves_to, Resolution::Slot(slot_of(4) as u64));
    assert_eq!(slot.immediate(), None);
    assert_eq!(slot.literal_bytes, slot.pattern.literal_count());
}

fn lookup(sig_x86: Signature) -> Lookup {
    Lookup {
        extra: vec![
            ("bundle_version".to_string(), Json::Integer(7)),
            ("upstream_commit".to_string(), Json::Text("abc".to_string())),
        ],
        patterns: Patterns {
            x64: BroadcastPattern {
                broadcast_version: sig("33 D2"),
            },
            x86: BroadcastPattern {
                broadcast_version: sig_x86,
            },
        },
        versions: Vec::new(),
    }
}

#[test]
fn a_run_publishes_both_files_and_a_rerun_changes_neither() {
    let (file, method) = build_game(Arch::X86);
    let image = Image::parse(&file).expect("parse");
    let dump = Dump::parse(&dump_text(4, "", method));
    let types = types();
    let base = base(Signature::default());
    let mut offsets = Generator::new(&dump, &types, &image, &base, 92)
        .generate()
        .ok()
        .expect("generated")
        .offsets;
    let version = GameVersion {
        game: "2026.8.18".to_string(),
        unity: None,
    };
    let before = lookup(sig("12 34"));
    let current = before.to_json().expect("render");
    let first = publish(
        &offsets, &image, &types, &version, Some(method), before, &current, None,
    )
    .ok()
    .expect("published");
    assert_eq!(first.broadcast.version, VERSION);
    assert!(first.broadcast.replacement.is_some());
    assert_eq!(first.change, ContentChange::New);
    assert_eq!(first.offsets_version, 1);
    assert_eq!(first.bundle_version, Some(8));
    assert_eq!(
        first.offsets_text,
        render_offsets(&offsets).expect("render")
    );
    let value: serde_json::Value = serde_json::from_str(&first.lookup_text).expect("valid JSON");
    assert_eq!(value["bundle_version"], 8);
    assert_eq!(value["upstream_commit"], "abc");
    assert_eq!(value["patterns"]["x64"]["broadcastVersion"]["sig"], "33 D2");
    assert_ne!(value["patterns"]["x86"]["broadcastVersion"]["sig"], "12 34");
    let entry = &value["versions"]["50663350"];
    assert_eq!(entry["file"], "V2026.8.18/offsets.json");
    assert_eq!(entry["version"], "V2026.8.18");
    assert_eq!(&value["versions"]["default"], entry);

    // The same build again, with what was written the first time.
    let mut second = lookup(first.broadcast.replacement.clone().expect("replaced"));
    second.extra[0].1 = Json::Integer(8);
    second
        .upsert(VERSION, "2026.8.18", "V2026.8.18/offsets.json", ContentChange::New)
        .expect("upsert");
    let again = publish(
        &offsets,
        &image,
        &types,
        &version,
        Some(method),
        second,
        &first.lookup_text,
        Some(&first.offsets_text),
    )
    .ok()
    .expect("published");
    assert_eq!(again.change, ContentChange::Identical);
    assert_eq!(again.bundle_version, Some(8));
    assert_eq!(again.offsets_text, first.offsets_text);
    assert_eq!(again.lookup_text, first.lookup_text);

    // A counter that cannot move ends the run.
    let mut full = lookup(sig("B8 ? ? ? ? C3"));
    full.extra[0].1 = Json::Integer(i64::MAX);
    let error = publish(&offsets, &image, &types, &version, None, full, &current, None)
        .err()
        .expect("refused");
    assert_eq!(
        error.to_string(),
        "bundle_version cannot be counted any further"
    );
    let mut full = lookup(sig("B8 ? ? ? ? C3"));
    full.versions.push((
        "1".to_string(),
        VersionEntry {
            version: "V1".to_string(),
            file: "V2026.8.18/offsets.json".to_string(),
            offsets_version: i64::MAX,
        }
        .to_json(),
    ));
    let error = publish(&offsets, &image, &types, &version, None, full, &current, None)
        .err()
        .expect("refused");
    assert_eq!(
        error.to_string(),
        "offsetsVersion cannot be counted any further"
    );

    // A file that fails a check is not published.
    offsets.player.role_team = vec![-1];
    assert!(check_file(&offsets, &image, &types).is_err());
    let error = publish(
        &offsets,
        &image,
        &types,
        &version,
        Some(method),
        lookup(sig("12 34")),
        &current,
        None,
    )
    .err()
    .expect("refused");
    assert!(error.to_string().contains(
        "player.roleTeam[0] is -1, which is the marker for \"resolved by signature at runtime\"."
    ));
}

#[test]
fn slot_zero_of_a_chain_does_not_count() {
    let (file, method) = build_game(Arch::X86);
    let image = Image::parse(&file).expect("parse");
    let dump = Dump::parse(&dump_text(4, "", method));
    let types = types();
    let base = base(sig("90 90"));
    let generator = Generator::new(&dump, &types, &image, &base, 92);
    assert!(generator.fits());
    let mut offsets = generator.generate().ok().expect("generated").offsets;
    // Something has to be wrong for the comparison to mean anything.
    offsets.player.role_team = vec![-1];
    offsets.signatures.palette = Signature::default();
    let before = validate(&offsets, &image, &types);
    let structural = structural_problems(&offsets);
    assert_eq!(structural.len(), 2);
    assert_eq!(before.problems.len(), 3);
    assert_eq!(before.problems[..2], structural[..]);
    assert_eq!(before.warnings.len(), 1);
    for other in [65535, 0, -77, i64::MAX] {
        offsets.meeting_hud[0] = other;
        offsets.all_players_ptr[0] = other;
        offsets.ship_status[0] = other;
        offsets.mini_game[0] = other;
        offsets.palette[0] = other;
        offsets.gameoptions_data[0] = other;
        offsets.server_manager_current_server[0] = other;
        offsets.inner_net_client.base[0] = other;
        offsets.player_control_game_options[0] = other;
        let after = validate(&offsets, &image, &types);
        assert_eq!(after.problems, before.problems);
        assert_eq!(after.warnings, before.warnings);
        assert_eq!(after.checks_run, before.checks_run);
        assert_eq!(structural_problems(&offsets), structural);
    }
    offsets.meeting_hud[1] = 184;
    assert_eq!(structural_problems(&offsets).len(), 9);
}
