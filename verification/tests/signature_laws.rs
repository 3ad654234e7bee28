//! What is promised of signatures, on small images.

use acl_offsetgen::pe::Image;
use acl_offsetgen::siggen::{
    Resolution, SignatureGenerator, MAX_SIGNATURE_BYTES, SHORT_SIGNATURE_BYTES,
};

const IMAGE_BASE: u32 = 0x1000_0000;
const SLOT: u32 = 0x2_0100;
const OTHER: u32 = 0x2_0200;

fn put32(file: &mut Vec<u8>, at: usize, value: u32) {
    file[at..at + 4].copy_from_slice(&value.to_le_bytes());
}

/// A 32-bit image with `code` at 0x1000, where the loader rewrites the four
/// bytes at each of the given offsets.
fn image(code: &[u8], relocations: &[u16]) -> Image {
    let mut file = vec![0u8; 0x1000];
    file[0] = b'M';
    file[1] = b'Z';
    put32(&mut file, 0x3c, 0x80);
    file[0x80..0x84].copy_from_slice(b"PE\0\0");
    file[0x86] = 2;
    file[0x94] = 0xe0;
    let opt = 0x98;
    file[opt..opt + 2].copy_from_slice(&0x10bu16.to_le_bytes());
    put32(&mut file, opt + 28, IMAGE_BASE);
    put32(&mut file, opt + 56, 0x3_0000);
    put32(&mut file, opt + 60, 0x400);
    put32(&mut file, opt + 92, 16);
    put32(&mut file, opt + 136, 0x2000);
    put32(&mut file, opt + 140, 0x100);
    let table = opt + 0xe0;
    put32(&mut file, table + 8, 0x400);
    put32(&mut file, table + 12, 0x1000);
    put32(&mut file, table + 16, 0x400);
    put32(&mut file, table + 20, 0x400);
    put32(&mut file, table + 36, 0x6000_0020);
    let second = table + 40;
    put32(&mut file, second + 8, 0x100);
    put32(&mut file, second + 12, 0x2000);
    put32(&mut file, second + 16, 0x200);
    put32(&mut file, second + 20, 0x800);
    file[0x400..0x400 + code.len()].copy_from_slice(code);
    put32(&mut file, 0x800, 0x1000);
    put32(&mut file, 0x804, 8 + 2 * relocations.len() as u32);
    for (index, offset) in relocations.iter().enumerate() {
        let entry: u16 = (3 << 12) | *offset;
        file[0x808 + 2 * index..0x80a + 2 * index].copy_from_slice(&entry.to_le_bytes());
    }
    Image::parse(&file).expect("parse")
}

fn load(code: &mut Vec<u8>, relocations: &mut Vec<u16>, opcode: &[u8], target: u32) {
    code.extend_from_slice(opcode);
    relocations.push(code.len() as u16);
    code.extend_from_slice(&(IMAGE_BASE + target).to_le_bytes());
}

#[test]
fn a_signature_survives_rebasing() {
    let mut code = Vec::new();
    let mut relocations = Vec::new();
    load(&mut code, &mut relocations, &[0xA1], SLOT);
    load(&mut code, &mut relocations, &[0x8B, 0x0D], OTHER);
    load(&mut code, &mut relocations, &[0xA1], SLOT);
    code.extend_from_slice(&[0x8B, 0x40, 0x5C, 0xC3]);
    let image = image(&code, &relocations);
    let signature = SignatureGenerator::new(&image)
        .generate(SLOT as u64)
        .expect("generate");
    let sites = signature.pattern.find_all(image.mapped(), 8);
    assert_eq!(sites.len(), 1);
    // Whatever the loader writes into the bytes it rewrites.
    for fill in [0x00u8, 0x5A, 0xFF] {
        let mut loaded = image.mapped().to_vec();
        for rva in 0..loaded.len() {
            if image.is_relocated(rva) {
                loaded[rva] = fill;
            }
        }
        assert!(signature.pattern.matches_at(&loaded, sites[0]));
    }
    let at = signature.pattern_offset as usize;
    assert_eq!(&signature.pattern.bytes()[at..at + 4], &[None; 4]);
}

#[test]
fn a_plain_load_is_preferred() {
    let mut code = Vec::new();
    let mut relocations = Vec::new();
    // add eax, [slot]; cmp [slot], eax; mov [slot], eax; mov ecx, [slot]
    load(&mut code, &mut relocations, &[0x03, 0x05], SLOT);
    load(&mut code, &mut relocations, &[0x39, 0x05], SLOT);
    load(&mut code, &mut relocations, &[0xA3], SLOT);
    let anchor = 0x1000 + code.len() as u64;
    load(&mut code, &mut relocations, &[0x8B, 0x0D], SLOT);
    code.push(0xC3);
    let image = image(&code, &relocations);
    let signature = SignatureGenerator::new(&image)
        .generate(SLOT as u64)
        .expect("generate");
    assert_eq!(signature.anchor_rva, anchor);
    assert_eq!(signature.pattern.to_string(), "8B 0D ? ? ? ?");
    assert!(signature.pattern.len() <= SHORT_SIGNATURE_BYTES);
}

#[test]
fn an_anchor_that_cannot_be_made_unique_gives_way_to_the_next() {
    let mut code = Vec::new();
    let mut relocations = Vec::new();
    load(&mut code, &mut relocations, &[0xA1], SLOT);
    code.extend_from_slice(&[0x90, 0x90, 0x90]);
    load(&mut code, &mut relocations, &[0xA1], OTHER);
    code.extend_from_slice(&[0x90, 0x90, 0x90]);
    let anchor = 0x1000 + code.len() as u64;
    load(&mut code, &mut relocations, &[0xA1], SLOT);
    code.extend_from_slice(&[0x40, 0xC3]);
    let image = image(&code, &relocations);
    let signature = SignatureGenerator::new(&image)
        .generate(SLOT as u64)
        .expect("generate");
    assert_eq!(signature.anchor_rva, anchor);
    assert_eq!(signature.pattern.to_string(), "A1 ? ? ? ? 40");
    assert_eq!(signature.resolves_to, Resolution::Slot(SLOT as u64));
}

#[test]
fn the_last_reason_is_given_where_no_anchor_can_be_made_unique() {
    let mut code = Vec::new();
    let mut relocations = Vec::new();
    for target in [SLOT, OTHER] {
        load(&mut code, &mut relocations, &[0xA1], target);
        code.extend_from_slice(&[0x90, 0x90, 0x90]);
    }
    let image = image(&code, &relocations);
    let error = SignatureGenerator::new(&image)
        .generate(SLOT as u64)
        .expect_err("ambiguous");
    assert_eq!(
        error.to_string(),
        "the anchor at 0x1000 cannot be made unique by growing forwards (2 candidate sites remained)"
    );
}

#[test]
fn branch_targets_are_wildcards() {
    let mut code = Vec::new();
    let mut relocations = Vec::new();
    load(&mut code, &mut relocations, &[0xA1], SLOT);
    code.extend_from_slice(&[0xE8, 0x10, 0x20, 0x00, 0x00, 0x75, 0x12]);
    load(&mut code, &mut relocations, &[0xA1], OTHER);
    code.extend_from_slice(&[0xE8, 0x30, 0x20, 0x00, 0x00, 0x74, 0x12]);
    let image = image(&code, &relocations);
    let signature = SignatureGenerator::new(&image).generate(SLOT as u64);
    // The call rules nothing out, since its target is no part of the pattern.
    assert!(signature.is_err());
}

#[test]
fn a_call_in_the_middle_is_masked() {
    let mut code = Vec::new();
    let mut relocations = Vec::new();
    load(&mut code, &mut relocations, &[0xA1], SLOT);
    code.extend_from_slice(&[0xE8, 0x10, 0x20, 0x00, 0x00]);
    load(&mut code, &mut relocations, &[0xA1], OTHER);
    code.push(0xC3);
    let image = image(&code, &relocations);
    let signature = SignatureGenerator::new(&image)
        .generate(SLOT as u64)
        .expect("generate");
    assert_eq!(signature.pattern.to_string(), "A1 ? ? ? ? E8 ? ? ? ?");
}

#[test]
fn no_signature_is_longer_than_the_limit() {
    // Two functions that are the same for further than the limit on both sides.
    let mut code = Vec::new();
    let mut methods = Vec::new();
    for value in [1111i32, 2222] {
        code.extend_from_slice(&[0x90; 120]);
        methods.push(0x1000 + code.len() as u64);
        code.push(0xB8);
        code.extend_from_slice(&value.to_le_bytes());
        code.push(0xC3);
        code.extend_from_slice(&[0x90; 120]);
    }
    let image = image(&code, &[]);
    let error = SignatureGenerator::new(&image)
        .generate_immediate(methods[0])
        .expect_err("ambiguous");
    assert_eq!(
        error.to_string(),
        "signature for the literal 1111 was still ambiguous after 96 bytes (2 candidate sites \
         remained)"
    );
    assert_eq!(MAX_SIGNATURE_BYTES, 96);
}

#[test]
fn a_literal_may_come_after_a_prologue() {
    // push ebp; mov ebp, esp; mov eax, 7; ret
    let code = [0x55, 0x8B, 0xEC, 0xB8, 7, 0, 0, 0, 0xC3];
    let image = image(&code, &[]);
    let signature = SignatureGenerator::new(&image)
        .generate_immediate(0x1000)
        .expect("generate");
    assert_eq!(signature.immediate(), Some(7));
    assert_eq!(signature.anchor_rva, 0x1003);
    assert_eq!(
        signature.describe(),
        format!(
            "{} bytes ({} literal) anchored at 0x1003",
            signature.pattern.len(),
            signature.literal_bytes
        )
    );
    let error = SignatureGenerator::new(&image)
        .generate_immediate(u64::MAX)
        .expect_err("outside");
    assert!(error
        .to_string()
        .starts_with("the method at 0xFFFFFFFFFFFFFFFF does not start with an instruction"));
}
