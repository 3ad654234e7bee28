use acl_offsetgen::sha256::{hex_digest, to_hex, Sha256};
use acl_offsetgen::tools::{
    check_artifacts, check_digest, check_game_files, check_size, choose_binary, missing_input,
    not_an_offsets_repo, reuses_dump, verify_digest, Dumper, DumperPin, PinnedBinary,
    DUMPER_CONFIG,
};

fn pin(size: u64, sha256: String) -> PinnedBinary {
    PinnedBinary {
        path: "fake.exe".to_string(),
        size,
        sha256,
    }
}

#[test]
fn a_size_mismatch_is_refused_before_hashing() {
    let contents = b"not the real dumper";
    let pin = pin(999_999, "0".repeat(64));
    let error = verify_digest("fake.exe", contents, &pin).expect_err("should refuse");
    assert!(error
        .to_string()
        .contains("Refusing to run an unpinned binary"));
    let error = check_size("fake.exe", 19, &pin).expect_err("should refuse");
    assert_eq!(
        error.to_string(),
        "fake.exe is 19 bytes but tools.lock.json pins 999999. Refusing to run an unpinned binary."
    );
}

#[test]
fn a_digest_mismatch_is_refused() {
    let contents = b"not the real dumper";
    let pin = pin(contents.len() as u64, "a".repeat(64));
    let error = verify_digest("fake2.exe", contents, &pin).expect_err("should refuse");
    assert!(error.to_string().contains("does not match its pin"));
}

#[test]
fn a_matching_digest_is_accepted() {
    let contents = b"hello";
    let pin = pin(contents.len() as u64, hex_digest(contents));
    assert!(verify_digest("fake3.exe", contents, &pin).is_ok());
}

#[test]
fn the_pin_may_be_written_in_capitals() {
    let contents = b"hello";
    let pin = pin(5, hex_digest(contents).to_uppercase());
    assert!(check_digest("fake.exe", contents, &pin).is_ok());
}

#[test]
fn digests_of_known_messages() {
    assert_eq!(
        hex_digest(b""),
        "e3b0c44298fc1c149afbf4c8996fb92427ae41e4649b934ca495991b7852b855"
    );
    assert_eq!(
        hex_digest(b"abc"),
        "ba7816bf8f01cfea414140de5dae2223b00361a396177a9cb410ff61f20015ad"
    );
    assert_eq!(
        hex_digest(b"abcdbcdecdefdefgefghfghighijhijkijkljklmklmnlmnomnopnopq"),
        "248d6a61d20638b8e5c026930c3e6039a33ce45964ff2167f6ecedd419db06c1"
    );
    let mut hasher = Sha256::new();
    for _ in 0..1000 {
        hasher.update(&[b'a'; 1000]);
    }
    assert_eq!(
        to_hex(&hasher.finish()),
        "cdc76e5c9914fb9281a1c7e284d73e67f1809a48a497200e046d39ccc7112cd0"
    );
}

fn dumper_pin() -> DumperPin {
    DumperPin {
        tag: "v6.7.46".to_string(),
        supported_metadata_versions: "16 - 31".to_string(),
        binaries: vec![
            pin(5, hex_digest(b"hello")),
            pin(5, hex_digest(b"other")),
        ],
    }
}

#[test]
fn the_first_installed_binary_is_used() {
    let pin = dumper_pin();
    let candidates = vec![
        ("tools/a.exe".to_string(), false),
        ("tools/b.exe".to_string(), true),
    ];
    assert_eq!(choose_binary(&pin, "tools", &candidates).expect("one"), 1);
    let none = vec![
        ("tools/a.exe".to_string(), false),
        ("tools/b.exe".to_string(), false),
    ];
    let error = choose_binary(&pin, "tools", &none).expect_err("none is there");
    assert_eq!(
        error.to_string(),
        "Il2CppDumper v6.7.46 is not installed in tools (tools/b.exe is not installed).\n\
         Install it with:  pwsh tools/fetch-il2cppdumper.ps1"
    );
    let error = choose_binary(&pin, "tools", &Vec::new()).expect_err("none is there");
    assert!(error.to_string().contains("(no candidate binaries found)"));
}

#[test]
fn only_the_pinned_bytes_make_a_dumper() {
    let dumper = Dumper::pinned(dumper_pin(), 0, "tools/a.exe".to_string(), b"hello")
        .ok()
        .expect("accepted");
    assert_eq!(dumper.executable(), "tools/a.exe");
    assert_eq!(dumper.tag, "v6.7.46");
    assert!(Dumper::pinned(dumper_pin(), 1, "tools/b.exe".to_string(), b"hello").is_err());
}

#[test]
fn a_run_is_judged_by_what_it_says_too() {
    let dumper = Dumper::pinned(dumper_pin(), 0, "a.exe".to_string(), b"hello")
        .ok()
        .expect("accepted");
    assert!(dumper.judge_run(true, "exit code: 0", "Done!", "").is_ok());
    let error = dumper
        .judge_run(false, "exit code: 3", " out \n", " err \n")
        .expect_err("failed");
    assert_eq!(
        error.to_string(),
        "Il2CppDumper exited with exit code: 3.\n--- output ---\nout\n--- stderr ---\nerr"
    );
    let error = dumper
        .judge_run(false, "exit code: 3", "out", " \n")
        .expect_err("failed");
    assert_eq!(
        error.to_string(),
        "Il2CppDumper exited with exit code: 3.\n--- output ---\nout"
    );
    for said in ["ERROR: Metadata file supplied is not a supported version[32].", "System.Exception: x"] {
        let error = dumper
            .judge_run(true, "exit code: 0", said, "")
            .expect_err("reported");
        assert!(error.to_string().starts_with("Il2CppDumper reported a failure:\n"));
        assert!(error
            .to_string()
            .ends_with("the pinned dumper (v6.7.46) is older than the game. It supports metadata 16 - 31."));
    }
}

#[test]
fn the_first_missing_file_is_named() {
    assert!(check_artifacts(true, true, true, "").is_ok());
    let error = check_artifacts(true, false, false, " log ").expect_err("missing");
    assert_eq!(
        error.to_string(),
        "Il2CppDumper finished without writing script.json.\n--- output ---\nlog"
    );
    assert!(check_game_files("game", true, true, true).is_ok());
    let error = check_game_files("game", true, false, true).expect_err("missing");
    assert_eq!(
        error.to_string(),
        "global-metadata.dat is missing under game. Point --game at the folder that contains GameAssembly.dll."
    );
    assert_eq!(
        missing_input("x.dll").to_string(),
        "x.dll does not exist; point --game at an Among Us installation directory"
    );
    assert!(not_an_offsets_repo("..", "C:\\x")
        .to_string()
        .contains("resolved to: C:\\x\nExpected layout"));
}

#[test]
fn a_whole_dump_is_reused_unless_a_new_one_is_asked_for() {
    assert!(reuses_dump(true, true, true, false));
    assert!(!reuses_dump(true, true, true, true));
    assert!(!reuses_dump(true, false, true, false));
}

#[test]
fn the_dumper_is_told_to_write_structs() {
    let value: serde_json::Value = serde_json::from_str(DUMPER_CONFIG).expect("valid JSON");
    assert_eq!(value["GenerateStruct"], true);
    assert_eq!(value["GenerateDummyDll"], false);
    assert_eq!(value["RequireAnyKey"], false);
    assert_eq!(value["ForceVersion"], 16);
}
