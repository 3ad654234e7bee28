use acl_offsetgen::pe::{Arch, Image};

/// Builds a tiny but structurally valid 32-bit PE with one code section and
/// one relocation, so the mapping and bitmap logic can be tested without a
/// 49 MB game file.
fn synthetic_x86() -> Vec<u8> {
    let mut file = vec![0u8; 0x600];
    file[0] = b'M';
    file[1] = b'Z';
    let pe = 0x80usize;
    file[0x3c..0x40].copy_from_slice(&(pe as u32).to_le_bytes());
    file[pe..pe + 4].copy_from_slice(b"PE\0\0");
    file[pe + 6..pe + 8].copy_from_slice(&2u16.to_le_bytes()); // sections
    let optional_size = 0xe0u16;
    file[pe + 20..pe + 22].copy_from_slice(&optional_size.to_le_bytes());
    let opt = pe + 24;
    file[opt..opt + 2].copy_from_slice(&0x10bu16.to_le_bytes());
    file[opt + 28..opt + 32].copy_from_slice(&0x1000_0000u32.to_le_bytes()); // ImageBase
    file[opt + 56..opt + 60].copy_from_slice(&0x3000u32.to_le_bytes()); // SizeOfImage
    file[opt + 60..opt + 64].copy_from_slice(&0x200u32.to_le_bytes()); // SizeOfHeaders
    file[opt + 92..opt + 96].copy_from_slice(&16u32.to_le_bytes()); // NumberOfRvaAndSizes
    let dir = opt + 96;
    file[dir + 5 * 8..dir + 5 * 8 + 4].copy_from_slice(&0x2000u32.to_le_bytes()); // reloc rva
    file[dir + 5 * 8 + 4..dir + 5 * 8 + 8].copy_from_slice(&0x10u32.to_le_bytes()); // reloc size

    let table = opt + optional_size as usize;
    // .text at rva 0x1000, raw 0x200
    file[table..table + 5].copy_from_slice(b".text");
    file[table + 8..table + 12].copy_from_slice(&0x100u32.to_le_bytes()); // vsize
    file[table + 12..table + 16].copy_from_slice(&0x1000u32.to_le_bytes()); // rva
    file[table + 16..table + 20].copy_from_slice(&0x200u32.to_le_bytes()); // rawsize
    file[table + 20..table + 24].copy_from_slice(&0x200u32.to_le_bytes()); // rawptr
    file[table + 36..table + 40].copy_from_slice(&0x6000_0020u32.to_le_bytes());
    // .reloc at rva 0x2000, raw 0x400
    let second = table + 40;
    file[second..second + 6].copy_from_slice(b".reloc");
    file[second + 8..second + 12].copy_from_slice(&0x100u32.to_le_bytes());
    file[second + 12..second + 16].copy_from_slice(&0x2000u32.to_le_bytes());
    file[second + 16..second + 20].copy_from_slice(&0x200u32.to_le_bytes());
    file[second + 20..second + 24].copy_from_slice(&0x400u32.to_le_bytes());
    file[second + 36..second + 40].copy_from_slice(&0x4200_0040u32.to_le_bytes());

    // Code: mov eax, [0x10001040]  (A1 40 10 00 10) at rva 0x1000
    file[0x200..0x205].copy_from_slice(&[0xA1, 0x40, 0x10, 0x00, 0x10]);

    // Relocation block: page 0x1000, one HIGHLOW at offset 1 (the abs32).
    file[0x400..0x404].copy_from_slice(&0x1000u32.to_le_bytes());
    file[0x404..0x408].copy_from_slice(&10u32.to_le_bytes()); // block size
    file[0x408..0x40a].copy_from_slice(&((3u16 << 12) | 1u16).to_le_bytes());

    file
}

#[test]
fn parses_and_maps() {
    let image = Image::parse(&synthetic_x86()).expect("parse");
    assert_eq!(image.arch, Arch::X86);
    assert_eq!(image.image_base, 0x1000_0000);
    assert_eq!(image.sections.len(), 2);
    assert_eq!(
        &image.mapped()[0x1000..0x1005],
        &[0xA1, 0x40, 0x10, 0x00, 0x10]
    );
    assert_eq!(image.code_sections().len(), 1);
}

#[test]
fn relocation_bitmap_covers_the_abs32() {
    let image = Image::parse(&synthetic_x86()).expect("parse");
    assert!(
        !image.is_relocated(0x1000),
        "opcode byte must not be marked"
    );
    for byte in 0x1001..0x1005 {
        assert!(
            image.is_relocated(byte),
            "byte 0x{byte:x} should be relocated"
        );
    }
    assert!(!image.is_relocated(0x1005));
    assert!(image.range_relocated(0x1000, 5));
    assert!(!image.range_relocated(0x1005, 4));
}

#[test]
fn rejects_non_pe() {
    assert!(Image::parse(b"not a pe at all").is_err());
}
