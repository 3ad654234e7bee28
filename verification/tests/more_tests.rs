//! Edge cases and exact texts.

use acl_offsetgen::dumpcs::Dump;
use acl_offsetgen::error::{read_to_string_lossy, Error};
use acl_offsetgen::gameinfo::read_game_version;
use acl_offsetgen::generate::struct_members;
use acl_offsetgen::il2cpph::HeaderLayout;
use acl_offsetgen::numbers::{capital_hex_text, decimal_text, hex_text};
use acl_offsetgen::offsets::StructMember;
use acl_offsetgen::pattern::Pattern;
use acl_offsetgen::pe::{Arch, Image};
use acl_offsetgen::siggen::{find_immediate_field, find_relative_field};

#[test]
fn signatures_accept_what_a_byte_can_be_written_as() {
    let pattern = Pattern::parse(" \t00ff +a\u{3000}? ?? 7\n").expect("parse");
    assert_eq!(
        pattern.bytes(),
        &[Some(0xff), Some(0x0a), None, None, Some(7)]
    );
    assert_eq!(pattern.to_string(), "FF 0A ? ? 07");
    for (text, why) in [
        ("100", "'100' is not a hex byte or wildcard in signature"),
        ("-1", "'-1' is not a hex byte or wildcard in signature"),
        ("+", "'+' is not a hex byte or wildcard in signature"),
        ("A1 ???", "'???' is not a hex byte or wildcard in signature"),
        (" \n", "signature is empty"),
    ] {
        let error = Pattern::parse(text).expect_err("must not parse");
        assert_eq!(error.to_string(), why);
    }
}

#[test]
fn searching_stops_at_the_cap_and_always_looks_for_one() {
    let haystack = [1u8, 1, 1, 1];
    let pattern = Pattern::parse("01").expect("parse");
    assert_eq!(pattern.find_all(&haystack, 0), vec![0]);
    assert_eq!(pattern.find_all(&haystack, 2), vec![0, 1]);
    assert_eq!(pattern.find_all(&haystack, 9), vec![0, 1, 2, 3]);
    let wild = Pattern::parse("? ? ?").expect("parse");
    assert_eq!(wild.find_all(&haystack, 9), vec![0, 1]);
    let empty = Pattern::new(Vec::new());
    assert!(empty.is_empty());
    assert_eq!(empty.find_all(&haystack, 9), vec![0, 1, 2, 3, 4]);
    assert!(!pattern.matches_at(&haystack, usize::MAX));
}

#[test]
fn patterns_can_be_grown_and_cut() {
    let mut pattern = Pattern::new(vec![Some(1)]);
    pattern.push(None);
    pattern.push(Some(3));
    assert_eq!(pattern.len(), 3);
    assert_eq!(pattern.literal_count(), 2);
    pattern.truncate(5);
    assert_eq!(pattern.len(), 3);
    pattern.truncate(2);
    assert_eq!(pattern.bytes(), &[Some(1), None]);
}

#[test]
fn numbers_are_written_out() {
    assert_eq!(decimal_text(0), "0");
    assert_eq!(decimal_text(-1234567890), "-1234567890");
    assert_eq!(
        decimal_text(i128::MIN),
        "-170141183460469231731687303715884105728"
    );
    assert_eq!(hex_text(0xdeadbeef), "deadbeef");
    assert_eq!(capital_hex_text(0x1F), "1F");
    assert_eq!(capital_hex_text(0), "0");
}

#[test]
fn each_error_says_what_it_carries() {
    assert_eq!(
        Error::io("a/b".to_string(), "gone".to_string()).to_string(),
        "a/b: gone"
    );
    assert_eq!(Error::malformed("m".to_string()).to_string(), "m");
    assert_eq!(Error::tool("t".to_string()).to_string(), "t");
    assert_eq!(Error::usage("u".to_string()).to_string(), "u");
    assert_eq!(
        Error::unusable("x.json", "lookup.json", "line 3").to_string(),
        "x.json: not a usable lookup.json: line 3"
    );
    let two = Error::Validation(vec!["one".to_string(), "two".to_string()]);
    assert_eq!(
        two.to_string(),
        "the generated offsets did not pass validation (2 problems):\n  - one\n  - two\nnothing was \
         written. Publishing offsets that fail these checks hands the client a wrong pointer, which \
         is worse than shipping nothing."
    );
}

#[test]
fn stray_bytes_do_not_lose_a_file() {
    assert_eq!(read_to_string_lossy("grün".as_bytes()), "grün");
    assert_eq!(read_to_string_lossy(b"a\xffb"), "a\u{fffd}b");
    let dump = Dump::load(b"public class A\xff\n{\n\tpublic int x; // 0x4\n}\n");
    assert_eq!(dump.find_field("A\u{fffd}", &["x"]).expect("found").0, 4);
}

fn header(magic: u16) -> Vec<u8> {
    let mut file = vec![0u8; 0x200];
    file[0] = b'M';
    file[1] = b'Z';
    file[0x3c] = 0x80;
    file[0x80..0x84].copy_from_slice(b"PE\0\0");
    file[0x98..0x9a].copy_from_slice(&magic.to_le_bytes());
    file
}

#[test]
fn a_broken_image_says_where_it_broke() {
    let say = |file: &[u8]| Image::parse(file).err().expect("an error").to_string();
    assert_eq!(say(b"PE"), "not a PE file: missing MZ signature");
    assert_eq!(say(b"MZ"), "PE truncated reading u32 at 0x3c");
    let mut file = header(0x10b);
    file[0x80] = b'Q';
    assert_eq!(say(&file), "not a PE file: missing PE signature");
    assert_eq!(say(&header(0x107)), "unsupported PE optional header magic 0x107");
    assert_eq!(say(&header(0x10b)[..0x98]), "PE truncated reading u16 at 0x98");
    assert_eq!(say(&header(0x10b)[..0xa0]), "PE truncated reading u32 at 0xb4");
    assert_eq!(say(&header(0x20b)[..0xa0]), "PE truncated reading u64 at 0xb0");
    let mut file = header(0x10b);
    file[0x86] = 20;
    assert_eq!(say(&file), "PE truncated in section table");
    let mut file = header(0x10b);
    file[0xd3] = 0x21;
    assert_eq!(
        say(&file),
        "SizeOfImage of 553648128 bytes is implausible for GameAssembly.dll"
    );
    let image = Image::parse(&header(0x20b)).expect("parse");
    assert_eq!(image.arch, Arch::X64);
    assert!(image.mapped().is_empty());
    assert_eq!(image.read_u32(0), None);
    assert!(!image.is_relocated(0));
}

#[test]
fn sections_are_found_by_address() {
    let mut file = header(0x10b);
    file[0x86] = 1;
    file[0xd0..0xd4].copy_from_slice(&0x3000u32.to_le_bytes());
    let table = 0x98;
    file[table + 0..table + 2].copy_from_slice(&0x10bu16.to_le_bytes());
    file[0x94] = 0x80;
    let table = 0x98 + 0x80;
    file[table..table + 8].copy_from_slice(b"il2cpp\0x");
    file[table + 12..table + 16].copy_from_slice(&0x1000u32.to_le_bytes());
    file[table + 36..table + 40].copy_from_slice(&0x2000_0000u32.to_le_bytes());
    let image = Image::parse(&file).expect("parse");
    assert_eq!(image.sections[0].name, "il2cpp");
    // A section of size zero counts as one byte.
    assert!(image.section_of(0x1000).is_some());
    assert!(image.section_of(0x1001).is_none());
    assert_eq!(image.code_sections().len(), 1);
    assert_eq!(image.arch.pointer_size(), 4);
    assert_eq!(image.arch.bitness(), 32);
}

#[test]
fn fields_are_searched_from_the_back() {
    assert_eq!(
        find_immediate_field(&[5, 0, 0, 0, 5, 0, 0, 0], 8, 5),
        Some(4)
    );
    assert_eq!(find_immediate_field(&[0xff; 4], 4, -1), Some(0));
    assert_eq!(find_immediate_field(&[1, 2, 3], 3, 1), None);
    assert_eq!(find_relative_field(&[0xfe, 0xff], 2, 2, 10, 8), Some(0));
    assert_eq!(find_relative_field(&[1, 2, 3, 4], 4, 3, 0, 0), None);
    assert_eq!(find_relative_field(&[1], 1, 4, 0, 1), None);
}

#[test]
fn a_dump_is_read_line_by_line() {
    let text = "// comment\r\nprotected internal static unsafe sealed class A.B<T> : C, D // x : y\r\n\
                {\r\n\tprotected internal readonly static List<int, int> Items = new(); // 0x1f\r\n\
                \t\tpublic int deeper; // 0x1\r\n\t[Attr] public int attr; // 0x2\r\n\
                \t//public int gone; // 0x3\r\n\tpublic int bad; // 0xZZ\r\n\tpublic int;  // 0x4\r\n}\r\n\
                interface  {\nprivate struct S{\n\tint x; // 0x-5";
    let dump = Dump::parse(text);
    assert_eq!(dump.class_count(), 2);
    let class = dump.class("A.B<T>").expect("class");
    assert_eq!(class.field_names(), vec!["Items"]);
    let items = class.static_field("Items").expect("static");
    assert_eq!(items.offset, 0x1f);
    assert_eq!(items.field_type, "List<int, int>");
    assert_eq!(class.line_span, 9);
    assert_eq!(
        dump.find_static_field("A.B<T>", &["No", "Items"]).expect("found").1,
        "A.B<T>.Items (static)"
    );
    assert_eq!(dump.find_field("S", &["x"]).expect("found").0, -5);
}

#[test]
fn an_instance_field_wins_over_a_static_of_its_name() {
    let dump = Dump::parse(
        "class A\n{\n\tpublic static int x; // 0x10\n\tpublic int x; // 0x20\n\tpublic static int y; // 0x30\n}\n",
    );
    let class = dump.class("A").expect("class");
    assert_eq!(class.field("x").expect("x").offset, 0x20);
    assert_eq!(class.static_field("x").expect("x").offset, 0x10);
    assert_eq!(class.field("y").expect("y").offset, 0x30);
    assert!(Dump::default().class("A").is_none());
}

#[test]
fn nested_structs_are_laid_out_and_cycles_end() {
    let filler = "    void* a;\n".repeat(9);
    let text = format!(
        "struct Inner {{\n    uint8_t tag;\n    uint64_t value;\n}};\n\
         struct Il2CppClass\n{{\n{filler}    Inner inner;\n    bool flag;\n    void* static_fields;\n}};\n"
    );
    assert_eq!(
        HeaderLayout::parse(&text, Arch::X64)
            .static_fields_offset()
            .expect("offset"),
        96
    );
    assert_eq!(
        HeaderLayout::load(text.as_bytes(), Arch::X86)
            .static_fields_offset()
            .expect("offset"),
        60
    );
    let cycle = "struct A\n{\n    B b;\n};\nstruct B\n{\n    A a;\n};\n\
                 struct Il2CppClass\n{\n    A a;\n    void* static_fields;\n};\n";
    assert!(HeaderLayout::parse(cycle, Arch::X64)
        .static_fields_offset()
        .is_err());
    let error = HeaderLayout::parse(
        "struct Il2CppClass\n{\n    void* static_fields;\n};",
        Arch::X64,
    )
    .static_fields_offset()
    .expect_err("too small");
    assert_eq!(
        error.to_string(),
        "computed Il2CppClass::static_fields = 0, which is outside the plausible range 80..=320 for \
         x64 -- refusing to build chains on it"
    );
}

#[test]
fn a_struct_is_padded_up_to_its_end() {
    let fields = vec![(8, "b", "UINT"), (0, "a", "BYTE")];
    assert_eq!(
        struct_members(&fields, 16),
        vec![
            StructMember::value("BYTE", "a"),
            StructMember::padding(7),
            StructMember::value("UINT", "b"),
            StructMember::padding(4),
        ]
    );
    assert_eq!(struct_members(&fields, 12).len(), 3);
    assert_eq!(StructMember::value("USHORT_BE", "x").size(), 2);
    assert_eq!(StructMember::value("SKIP", "x").size(), 0);
}

#[test]
fn hotfix_versions_and_missing_ones() {
    let mut file = vec![0u8; 64];
    file[8] = 11;
    file[12..23].copy_from_slice(b"2023.3.28.1");
    let version = read_game_version(&file).expect("version");
    assert_eq!(version.game, "2023.3.28.1");
    assert_eq!(version.unity, None);
    assert_eq!(version.offsets_file(), "V2023.3.28.1/offsets.json");
    let mut file = vec![0u8; 64];
    file[8] = 11;
    file[12..23].copy_from_slice(b"2022.3.44f1");
    let error = read_game_version(&file).expect_err("no game version");
    assert_eq!(
        error.to_string(),
        "no game version string found in globalgamemanagers (64 bytes scanned, Unity version \
         2022.3.44f1 was found). Either the file is not from Among Us or Unity changed how the build \
         version is stored."
    );
}
