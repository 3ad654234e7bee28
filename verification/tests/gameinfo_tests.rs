use acl_offsetgen::gameinfo::{is_unity_version, looks_like_a_version, read_game_version};

/// Reproduces the shape of a real `globalgamemanagers`: Unity version near
/// the front, game version further in, both length-prefixed.
fn synthetic_ggm(unity: &str, game: &str) -> Vec<u8> {
    let mut file = vec![0u8; 0x900];
    let put = |offset: usize, text: &str, file: &mut Vec<u8>| {
        file[offset..offset + 4].copy_from_slice(&(text.len() as u32).to_le_bytes());
        file[offset + 4..offset + 4 + text.len()].copy_from_slice(text.as_bytes());
    };
    put(0x2c, unity, &mut file);
    put(0x7a4, game, &mut file);
    file
}

#[test]
fn finds_the_current_layout() {
    let file = synthetic_ggm("2022.3.44f1", "2026.8.18");
    let version = read_game_version(&file).expect("version");
    assert_eq!(version.game, "2026.8.18");
    assert_eq!(version.unity.as_deref(), Some("2022.3.44f1"));
    assert_eq!(version.directory_name(), "V2026.8.18");
}

#[test]
fn handles_the_new_short_version_scheme() {
    // Among Us moved from date-style versions to 17.x in 2025.
    let file = synthetic_ggm("2022.3.44f1", "17.4.0");
    let version = read_game_version(&file).expect("version");
    assert_eq!(version.game, "17.4.0");
    assert_eq!(version.directory_name(), "V17.4.0");
}

#[test]
fn does_not_mistake_the_unity_version_for_the_game_version() {
    let file = synthetic_ggm("2020.3.45f1", "2021.6.30");
    let version = read_game_version(&file).expect("version");
    assert_eq!(version.game, "2021.6.30");
}

#[test]
fn survives_a_layout_move() {
    // Same content, different position.
    let mut file = vec![0u8; 0x4000];
    let unity = "2022.3.44f1";
    let game = "2027.1.1";
    file[0x30..0x34].copy_from_slice(&(unity.len() as u32).to_le_bytes());
    file[0x34..0x34 + unity.len()].copy_from_slice(unity.as_bytes());
    file[0x3000..0x3004].copy_from_slice(&(game.len() as u32).to_le_bytes());
    file[0x3004..0x3004 + game.len()].copy_from_slice(game.as_bytes());
    assert_eq!(read_game_version(&file).expect("version").game, "2027.1.1");
}

#[test]
fn a_file_without_a_version_is_an_error_not_a_silent_none() {
    let file = vec![0u8; 4096];
    let error = read_game_version(&file).expect_err("should fail");
    assert!(error.to_string().contains("no game version string"));
}

#[test]
fn does_not_read_past_the_end() {
    // A length prefix at the very end promising more bytes than exist.
    let mut file = vec![0u8; 8];
    file[4..8].copy_from_slice(&9999u32.to_le_bytes());
    assert!(read_game_version(&file).is_err());
}

#[test]
fn version_shape_filter() {
    assert!(looks_like_a_version("2026.8.18"));
    assert!(looks_like_a_version("17.4.0"));
    assert!(looks_like_a_version("2022.3.44f1"));
    assert!(!looks_like_a_version("hello.world.here"));
    assert!(!looks_like_a_version("1.2"));
    assert!(!looks_like_a_version(""));
    assert!(is_unity_version("2022.3.44f1"));
    assert!(!is_unity_version("2026.8.18"));
}
