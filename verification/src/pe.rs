//! Minimal PE reader.
//!
//! Four things are needed out of `GameAssembly.dll`: whether it is 32- or
//! 64-bit, the preferred image base, the section table, and the base relocation
//! table.
//!
//! The important product is [`Image::mapped`]: the sections laid out at their
//! virtual addresses, which is what the game process sees and therefore what a
//! byte signature has to match. Scanning the raw file instead would give
//! offsets that mean nothing to the client.

use vstd::prelude::*;
use vstd::slice::slice_subrange;

use crate::error::{agrees, agrees_in_view, Error, ErrorView, Result};
use crate::numbers::{decimal, decimal_text, hex, hex_text};
use crate::text::{lossy_text, text_from_bytes};

verus! {

#[derive(Debug, Clone, Copy, PartialEq, Eq, Structural)]
pub enum Arch {
    X86,
    X64,
}

impl Arch {
    pub open spec fn pointer(self) -> int {
        match self {
            Arch::X86 => 4,
            Arch::X64 => 8,
        }
    }

    pub open spec fn bits(self) -> u32 {
        match self {
            Arch::X86 => 32,
            Arch::X64 => 64,
        }
    }

    pub open spec fn name(self) -> Seq<char> {
        match self {
            Arch::X86 => "x86"@,
            Arch::X64 => "x64"@,
        }
    }

    pub fn pointer_size(self) -> (r: u64)
        ensures
            r == self.pointer(),
    {
        match self {
            Arch::X86 => 4,
            Arch::X64 => 8,
        }
    }

    pub fn bitness(self) -> (r: u32)
        ensures
            r == self.bits(),
    {
        match self {
            Arch::X86 => 32,
            Arch::X64 => 64,
        }
    }

    pub fn dir_name(self) -> (r: &'static str)
        ensures
            r@ == self.name(),
    {
        match self {
            Arch::X86 => "x86",
            Arch::X64 => "x64",
        }
    }

    pub fn to_string(self) -> (r: String)
        ensures
            r@ == self.name(),
    {
        self.dir_name().to_owned()
    }
}

#[derive(Debug, Clone)]
pub struct Section {
    pub name: String,
    pub virtual_address: u32,
    pub virtual_size: u32,
    pub raw_pointer: u32,
    pub raw_size: u32,
    pub characteristics: u32,
}

/// What a [`Section`] says.
pub struct SectionView {
    pub name: Seq<char>,
    pub virtual_address: u32,
    pub virtual_size: u32,
    pub raw_pointer: u32,
    pub raw_size: u32,
    pub characteristics: u32,
}

impl View for Section {
    type V = SectionView;

    open spec fn view(&self) -> SectionView {
        SectionView {
            name: self.name@,
            virtual_address: self.virtual_address,
            virtual_size: self.virtual_size,
            raw_pointer: self.raw_pointer,
            raw_size: self.raw_size,
            characteristics: self.characteristics,
        }
    }
}

impl SectionView {
    /// The `IMAGE_SCN_MEM_EXECUTE` flag.
    pub open spec fn executable(self) -> bool {
        self.characteristics & 0x2000_0000 != 0
    }

    /// A section of size zero counts as one byte.
    pub open spec fn holds(self, rva: int) -> bool {
        self.virtual_address <= rva < self.virtual_address + (if self.virtual_size == 0 {
            1
        } else {
            self.virtual_size as int
        })
    }
}

impl Section {
    pub fn is_executable(&self) -> (r: bool)
        ensures
            r == self@.executable(),
    {
        self.characteristics & 0x2000_0000 != 0
    }

    pub fn contains(&self, rva: u32) -> (r: bool)
        ensures
            r == self@.holds(rva as int),
    {
        let size: u64 = if self.virtual_size == 0 {
            1
        } else {
            self.virtual_size as u64
        };
        rva >= self.virtual_address && (rva as u64) < self.virtual_address as u64 + size
    }
}

/// A module as the loader produces it.
pub struct Memory {
    /// Sections laid out at their RVAs.
    mapped: Vec<u8>,
    /// One bit per byte of `mapped`: set when a base relocation covers it.
    relocated: Vec<u64>,
}

/// What a [`Memory`] holds: the bytes, and of each whether the loader rewrites it.
pub struct MemoryView {
    pub mapped: Seq<u8>,
    pub relocated: Seq<bool>,
}

pub struct Image {
    pub arch: Arch,
    pub image_base: u64,
    pub size_of_image: u32,
    pub sections: Vec<Section>,
    pub memory: Memory,
}

/// What an [`Image`] holds.
pub struct ImageView {
    pub arch: Arch,
    pub image_base: u64,
    pub size_of_image: u32,
    pub sections: Seq<SectionView>,
    pub mapped: Seq<u8>,
    pub relocated: Seq<bool>,
}

impl ImageView {
    /// Whether the loader rewrites the byte at `rva`.
    pub open spec fn rewritten(self, rva: int) -> bool {
        0 <= rva < self.relocated.len() && self.relocated[rva]
    }

    /// The executable sections, in file order.
    pub open spec fn code(self) -> Seq<SectionView> {
        self.sections.filter(|s: SectionView| s.executable())
    }
}

pub open spec fn section_views(sections: Seq<Section>) -> Seq<SectionView> {
    sections.map_values(|s: Section| s@)
}

pub open spec fn section_ref_views(sections: Seq<&Section>) -> Seq<SectionView> {
    sections.map_values(|s: &Section| s@)
}

spec fn bit_set(bitmap: Seq<u64>, i: int) -> bool {
    0 <= i < 64 * bitmap.len() && bitmap[i / 64] & (1u64 << ((i % 64) as u64)) != 0
}

impl View for Memory {
    type V = MemoryView;

    closed spec fn view(&self) -> MemoryView {
        MemoryView {
            mapped: self.mapped@,
            relocated: Seq::new(self.mapped@.len(), |i: int| bit_set(self.relocated@, i)),
        }
    }
}

impl View for Image {
    type V = ImageView;

    open spec fn view(&self) -> ImageView {
        ImageView {
            arch: self.arch,
            image_base: self.image_base,
            size_of_image: self.size_of_image,
            sections: section_views(self.sections@),
            mapped: self.memory@.mapped,
            relocated: self.memory@.relocated,
        }
    }
}

/// The sixteen-bit number whose lower byte stands at `at`.
pub open spec fn le16(data: Seq<u8>, at: int) -> int {
    data[at] + 0x100 * data[at + 1]
}

/// The thirty-two-bit number whose lowest byte stands at `at`.
pub open spec fn le32(data: Seq<u8>, at: int) -> int {
    data[at] + 0x100 * data[at + 1] + 0x1_0000 * data[at + 2] + 0x100_0000 * data[at + 3]
}

/// The sixty-four-bit number whose lowest byte stands at `at`.
pub open spec fn le64(data: Seq<u8>, at: int) -> int {
    le32(data, at) + 0x1_0000_0000 * le32(data, at + 4)
}

/// A thirty-two-bit number read as a signed one.
pub open spec fn signed32(n: int) -> int {
    if n < 0x8000_0000 {
        n
    } else {
        n - 0x1_0000_0000
    }
}

pub open spec fn u16_in(data: Seq<u8>, at: int) -> std::result::Result<u16, ErrorView> {
    if at + 2 <= data.len() {
        Ok(le16(data, at) as u16)
    } else {
        Err(ErrorView::Malformed("PE truncated reading u16 at 0x"@ + hex(at as nat)))
    }
}

pub open spec fn u32_in(data: Seq<u8>, at: int) -> std::result::Result<u32, ErrorView> {
    if at + 4 <= data.len() {
        Ok(le32(data, at) as u32)
    } else {
        Err(ErrorView::Malformed("PE truncated reading u32 at 0x"@ + hex(at as nat)))
    }
}

pub open spec fn u64_in(data: Seq<u8>, at: int) -> std::result::Result<u64, ErrorView> {
    if at + 8 <= data.len() {
        Ok(le64(data, at) as u64)
    } else {
        Err(ErrorView::Malformed("PE truncated reading u64 at 0x"@ + hex(at as nat)))
    }
}

/// What the headers of a PE file say.
pub struct Header {
    pub arch: Arch,
    pub image_base: u64,
    pub size_of_image: u32,
    pub size_of_headers: u32,
    pub section_count: u16,
    /// File offset of the section table.
    pub table: u64,
    /// RVA and size of the base relocation table.
    pub relocations: Option<(u32, u32)>,
}

/// The architecture and image base out of the optional header at `optional`.
pub open spec fn base_in(file: Seq<u8>, optional: int) -> std::result::Result<
    (Arch, u64),
    ErrorView,
> {
    match u16_in(file, optional) {
        Err(e) => Err(e),
        Ok(0x10b) => match u32_in(file, optional + 28) {
            Err(e) => Err(e),
            Ok(base) => Ok((Arch::X86, base as u64)),
        },
        Ok(0x20b) => match u64_in(file, optional + 24) {
            Err(e) => Err(e),
            Ok(base) => Ok((Arch::X64, base)),
        },
        Ok(other) => Err(
            ErrorView::Malformed("unsupported PE optional header magic 0x"@ + hex(other as nat)),
        ),
    }
}

/// Data directory 5, where there is one: RVA and size of the base relocation table.
pub open spec fn relocation_directory(
    file: Seq<u8>,
    optional: int,
    arch: Arch,
) -> std::result::Result<Option<(u32, u32)>, ErrorView> {
    let count_at = optional + match arch {
        Arch::X86 => 92int,
        Arch::X64 => 108int,
    };
    let entry = count_at + 4 + 5 * 8;
    match u32_in(file, count_at) {
        Err(e) => Err(e),
        Ok(count) => if count <= 5 {
            Ok(None)
        } else {
            match u32_in(file, entry) {
                Err(e) => Err(e),
                Ok(rva) => match u32_in(file, entry + 4) {
                    Err(e) => Err(e),
                    Ok(size) => Ok(Some((rva, size))),
                },
            }
        },
    }
}

/// The headers of the PE file whose `PE` signature stands at `pe`.
pub open spec fn header_in(file: Seq<u8>, pe: int) -> std::result::Result<Header, ErrorView> {
    let optional = pe + 24;
    match u16_in(file, pe + 6) {
        Err(e) => Err(e),
        Ok(section_count) => match u16_in(file, pe + 20) {
            Err(e) => Err(e),
            Ok(optional_size) => match base_in(file, optional) {
                Err(e) => Err(e),
                Ok((arch, image_base)) => match u32_in(file, optional + 56) {
                    Err(e) => Err(e),
                    Ok(size_of_image) => match u32_in(file, optional + 60) {
                        Err(e) => Err(e),
                        Ok(size_of_headers) => match relocation_directory(file, optional, arch) {
                            Err(e) => Err(e),
                            Ok(relocations) => Ok(
                                Header {
                                    arch,
                                    image_base,
                                    size_of_image,
                                    size_of_headers,
                                    section_count,
                                    table: (optional + optional_size) as u64,
                                    relocations,
                                },
                            ),
                        },
                    },
                },
            },
        },
    }
}

/// What stands before the first zero byte.
pub open spec fn until_zero(bytes: Seq<u8>) -> Seq<u8>
    decreases bytes.len(),
{
    if bytes.len() == 0 || bytes[0] == 0 {
        Seq::empty()
    } else {
        seq![bytes[0]] + until_zero(bytes.skip(1))
    }
}

/// The section table entry at `base`.
pub open spec fn section_in(file: Seq<u8>, base: int) -> std::result::Result<
    SectionView,
    ErrorView,
> {
    if base + 8 > file.len() {
        Err(ErrorView::Malformed("PE truncated in section table"@))
    } else {
        match u32_in(file, base + 8) {
            Err(e) => Err(e),
            Ok(virtual_size) => match u32_in(file, base + 12) {
                Err(e) => Err(e),
                Ok(virtual_address) => match u32_in(file, base + 16) {
                    Err(e) => Err(e),
                    Ok(raw_size) => match u32_in(file, base + 20) {
                        Err(e) => Err(e),
                        Ok(raw_pointer) => match u32_in(file, base + 36) {
                            Err(e) => Err(e),
                            Ok(characteristics) => Ok(
                                SectionView {
                                    name: lossy_text(until_zero(file.subrange(base, base + 8))),
                                    virtual_address,
                                    virtual_size,
                                    raw_pointer,
                                    raw_size,
                                    characteristics,
                                },
                            ),
                        },
                    },
                },
            },
        }
    }
}

/// The first `count` entries of the section table at `table`.
pub open spec fn sections_in(file: Seq<u8>, table: int, count: nat) -> std::result::Result<
    Seq<SectionView>,
    ErrorView,
>
    decreases count,
{
    if count == 0 {
        Ok(Seq::empty())
    } else {
        match sections_in(file, table, (count - 1) as nat) {
            Err(e) => Err(e),
            Ok(before) => match section_in(file, table + (count - 1) * 40) {
                Err(e) => Err(e),
                Ok(section) => Ok(before.push(section)),
            },
        }
    }
}

pub open spec fn least(a: int, b: int) -> int {
    if a <= b {
        a
    } else {
        b
    }
}

/// `base` with `part` laid over it from `start` on.
pub open spec fn overlay(base: Seq<u8>, start: int, part: Seq<u8>) -> Seq<u8> {
    Seq::new(
        base.len(),
        |i: int|
            if start <= i < start + part.len() {
                part[i - start]
            } else {
                base[i]
            },
    )
}

/// How many bytes of the file the loader copies for a section.
pub open spec fn copied(section: SectionView, file_len: int, image_len: int) -> int {
    let wanted = if section.virtual_size == 0 {
        section.raw_size as int
    } else {
        least(section.raw_size as int, section.virtual_size as int)
    };
    let n = least(
        wanted,
        least(file_len - section.raw_pointer, image_len - section.virtual_address),
    );
    if n < 0 {
        0
    } else {
        n
    }
}

/// The image with the headers and these sections laid out, a later section over an earlier one.
pub open spec fn laid_out(
    file: Seq<u8>,
    size_of_image: u32,
    size_of_headers: u32,
    sections: Seq<SectionView>,
) -> Seq<u8>
    decreases sections.len(),
{
    if sections.len() == 0 {
        overlay(
            Seq::new(size_of_image as nat, |i: int| 0u8),
            0,
            file.take(least(size_of_headers as int, least(file.len() as int, size_of_image as int))),
        )
    } else {
        let before = laid_out(file, size_of_image, size_of_headers, sections.drop_last());
        let section = sections.last();
        let n = copied(section, file.len() as int, size_of_image as int);
        if n == 0 {
            before
        } else {
            overlay(
                before,
                section.virtual_address as int,
                file.subrange(section.raw_pointer as int, section.raw_pointer + n),
            )
        }
    }
}

/// How many bytes a relocation of this kind rewrites: 3 is `HIGHLOW`, 10 is `DIR64`.
pub open spec fn relocation_width(kind: int) -> int {
    if kind == 3 {
        4
    } else if kind == 10 {
        8
    } else {
        0
    }
}

/// Whether entry `k` of the relocation block at `block` covers the byte at `rva`.
pub open spec fn entry_covers(mapped: Seq<u8>, block: int, k: int, rva: int) -> bool {
    let entry = le16(mapped, block + 8 + 2 * k);
    let target = le32(mapped, block) + entry % 0x1000;
    target <= rva < target + relocation_width(entry / 0x1000)
}

/// Whether one of the relocation blocks from `cursor` to `end` covers the byte at `rva`.
pub open spec fn covered(mapped: Seq<u8>, cursor: int, end: int, rva: int) -> bool
    decreases end - cursor,
{
    if cursor + 8 > end {
        false
    } else {
        let size = le32(mapped, cursor + 4);
        if size < 8 || cursor + size > end {
            false
        } else {
            (exists|k: int| 0 <= k < (size - 8) / 2 && entry_covers(mapped, cursor, k, rva))
                || covered(mapped, cursor + size, end, rva)
        }
    }
}

/// Whether the relocation table at `directory` covers the byte at `rva`.
pub open spec fn table_covers(mapped: Seq<u8>, directory: Option<(u32, u32)>, rva: int) -> bool {
    match directory {
        Some((start, size)) => start != 0 && size != 0 && covered(
            mapped,
            start as int,
            least(start + size, mapped.len() as int),
            rva,
        ),
        None => false,
    }
}

/// The image that a PE file describes.
pub open spec fn image_of(file: Seq<u8>) -> std::result::Result<ImageView, ErrorView> {
    if !(file.len() >= 2 && file[0] == 0x4d && file[1] == 0x5a) {
        Err(ErrorView::Malformed("not a PE file: missing MZ signature"@))
    } else {
        match u32_in(file, 0x3c) {
            Err(e) => Err(e),
            Ok(pe) => if !(pe + 4 <= file.len() && le32(file, pe as int) == 0x4550) {
                Err(ErrorView::Malformed("not a PE file: missing PE signature"@))
            } else {
                match header_in(file, pe as int) {
                    Err(e) => Err(e),
                    Ok(header) => match sections_in(
                        file,
                        header.table as int,
                        header.section_count as nat,
                    ) {
                        Err(e) => Err(e),
                        Ok(sections) => if header.size_of_image > 512 * 1024 * 1024 {
                            Err(
                                ErrorView::Malformed(
                                    "SizeOfImage of "@ + decimal(header.size_of_image as int)
                                        + " bytes is implausible for GameAssembly.dll"@,
                                ),
                            )
                        } else {
                            let mapped = laid_out(
                                file,
                                header.size_of_image,
                                header.size_of_headers,
                                sections,
                            );
                            Ok(
                                ImageView {
                                    arch: header.arch,
                                    image_base: header.image_base,
                                    size_of_image: header.size_of_image,
                                    sections,
                                    mapped,
                                    relocated: Seq::new(
                                        mapped.len(),
                                        |i: int| table_covers(mapped, header.relocations, i),
                                    ),
                                },
                            )
                        },
                    },
                }
            },
        }
    }
}

fn get16(data: &[u8], at: usize) -> (r: u16)
    requires
        at + 2 <= data@.len(),
    ensures
        r == le16(data@, at as int),
{
    let _limit: usize = data.len();
    data[at] as u16 + 0x100 * data[at + 1] as u16
}

pub fn get32(data: &[u8], at: usize) -> (r: u32)
    requires
        at + 4 <= data@.len(),
    ensures
        r == le32(data@, at as int),
{
    let _limit: usize = data.len();
    data[at] as u32 + 0x100 * data[at + 1] as u32 + 0x1_0000 * data[at + 2] as u32 + 0x100_0000
        * data[at + 3] as u32
}

fn truncated(kind: &str, at: u64) -> (r: Error)
    ensures
        r@ == ErrorView::Malformed(kind@ + hex(at as nat)),
{
    let mut message = kind.to_owned();
    message.append(hex_text(at as u128).as_str());
    Error::malformed(message)
}

fn u16_at(data: &[u8], offset: u64) -> (r: Result<u16>)
    requires
        offset <= u64::MAX - 2,
    ensures
        agrees(r, u16_in(data@, offset as int)),
{
    if offset + 2 <= data.len() as u64 {
        Ok(get16(data, offset as usize))
    } else {
        Err(truncated("PE truncated reading u16 at 0x", offset))
    }
}

fn u32_at(data: &[u8], offset: u64) -> (r: Result<u32>)
    requires
        offset <= u64::MAX - 4,
    ensures
        agrees(r, u32_in(data@, offset as int)),
{
    if offset + 4 <= data.len() as u64 {
        Ok(get32(data, offset as usize))
    } else {
        Err(truncated("PE truncated reading u32 at 0x", offset))
    }
}

fn u64_at(data: &[u8], offset: u64) -> (r: Result<u64>)
    requires
        offset <= u64::MAX - 8,
    ensures
        agrees(r, u64_in(data@, offset as int)),
{
    if offset + 8 <= data.len() as u64 {
        let low: u32 = get32(data, offset as usize);
        let high: u32 = get32(data, offset as usize + 4);
        Ok(low as u64 + 0x1_0000_0000 * high as u64)
    } else {
        Err(truncated("PE truncated reading u64 at 0x", offset))
    }
}

fn read_base(file: &[u8], optional: u64) -> (r: Result<(Arch, u64)>)
    requires
        optional <= 0x2_0000_0000,
    ensures
        agrees(r, base_in(file@, optional as int)),
{
    let magic: u16 = u16_at(file, optional)?;
    if magic == 0x10b {
        let base: u32 = u32_at(file, optional + 28)?;
        Ok((Arch::X86, base as u64))
    } else if magic == 0x20b {
        let base: u64 = u64_at(file, optional + 24)?;
        Ok((Arch::X64, base))
    } else {
        let mut message = "unsupported PE optional header magic 0x".to_owned();
        message.append(hex_text(magic as u128).as_str());
        Err(Error::malformed(message))
    }
}

fn read_relocation_directory(file: &[u8], optional: u64, arch: Arch) -> (r: Result<
    Option<(u32, u32)>,
>)
    requires
        optional <= 0x2_0000_0000,
    ensures
        agrees(r, relocation_directory(file@, optional as int, arch)),
{
    let count_at: u64 = optional + match arch {
        Arch::X86 => 92,
        Arch::X64 => 108,
    };
    let count: u32 = u32_at(file, count_at)?;
    if count <= 5 {
        return Ok(None);
    }
    let entry: u64 = count_at + 4 + 5 * 8;
    let rva: u32 = u32_at(file, entry)?;
    let size: u32 = u32_at(file, entry + 4)?;
    Ok(Some((rva, size)))
}

fn read_header(file: &[u8], pe: u64) -> (r: Result<Header>)
    requires
        pe <= 0x1_0000_0000,
    ensures
        agrees(r, header_in(file@, pe as int)),
        r is Ok ==> r->Ok_0.table <= 0x2_0000_0000,
{
    let section_count: u16 = u16_at(file, pe + 6)?;
    let optional_size: u16 = u16_at(file, pe + 20)?;
    let optional: u64 = pe + 24;
    let (arch, image_base): (Arch, u64) = read_base(file, optional)?;
    // SizeOfImage and SizeOfHeaders sit at the same place in both variants.
    let size_of_image: u32 = u32_at(file, optional + 56)?;
    let size_of_headers: u32 = u32_at(file, optional + 60)?;
    let relocations: Option<(u32, u32)> = read_relocation_directory(file, optional, arch)?;
    Ok(
        Header {
            arch,
            image_base,
            size_of_image,
            size_of_headers,
            section_count,
            table: optional + optional_size as u64,
            relocations,
        },
    )
}

fn before_zero<'a>(bytes: &'a [u8]) -> (r: &'a [u8])
    ensures
        r@ == until_zero(bytes@),
{
    let mut i: usize = 0;
    assert(bytes@.skip(0) =~= bytes@);
    assert(bytes@.take(0) + until_zero(bytes@) =~= until_zero(bytes@));
    while i < bytes.len() && bytes[i] != 0
        invariant
            i <= bytes@.len(),
            bytes@.take(i as int) + until_zero(bytes@.skip(i as int)) == until_zero(bytes@),
        decreases bytes@.len() - i,
    {
        assert(bytes@.skip(i as int).skip(1) =~= bytes@.skip(i + 1));
        assert(bytes@.take(i as int) + (seq![bytes@[i as int]] + until_zero(bytes@.skip(i + 1)))
            =~= bytes@.take(i + 1) + until_zero(bytes@.skip(i + 1)));
        i += 1;
    }
    assert(bytes@.take(i as int) + Seq::<u8>::empty() =~= bytes@.take(i as int));
    slice_subrange(bytes, 0, i)
}

fn read_section(file: &[u8], base: u64) -> (r: Result<Section>)
    requires
        base <= 0x3_0000_0000,
    ensures
        agrees_in_view(r, section_in(file@, base as int)),
{
    if base + 8 > file.len() as u64 {
        return Err(Error::malformed("PE truncated in section table".to_owned()));
    }
    let raw_name = slice_subrange(file, base as usize, base as usize + 8);
    let name = text_from_bytes(before_zero(raw_name));
    let virtual_size: u32 = u32_at(file, base + 8)?;
    let virtual_address: u32 = u32_at(file, base + 12)?;
    let raw_size: u32 = u32_at(file, base + 16)?;
    let raw_pointer: u32 = u32_at(file, base + 20)?;
    let characteristics: u32 = u32_at(file, base + 36)?;
    Ok(Section { name, virtual_address, virtual_size, raw_pointer, raw_size, characteristics })
}

proof fn lemma_sections_fail(file: Seq<u8>, table: int, i: nat, count: nat)
    requires
        i <= count,
        sections_in(file, table, i) is Err,
    ensures
        sections_in(file, table, count) == sections_in(file, table, i),
    decreases count,
{
    if i < count {
        lemma_sections_fail(file, table, i, (count - 1) as nat);
    }
}

fn read_sections(file: &[u8], table: u64, count: u16) -> (r: Result<Vec<Section>>)
    requires
        table <= 0x2_0000_0000,
    ensures
        match (r, sections_in(file@, table as int, count as nat)) {
            (Ok(sections), Ok(wanted)) => section_views(sections@) == wanted,
            (Err(error), Err(wanted)) => error@ == wanted,
            _ => false,
        },
{
    let mut sections: Vec<Section> = Vec::new();
    let mut index: u16 = 0;
    assert(section_views(sections@) =~= Seq::empty());
    while index < count
        invariant
            table <= 0x2_0000_0000,
            index <= count,
            sections_in(file@, table as int, index as nat) == Ok::<Seq<SectionView>, ErrorView>(
                section_views(sections@),
            ),
        decreases count - index,
    {
        let ghost before = section_views(sections@);
        match read_section(file, table + index as u64 * 40) {
            Ok(section) => {
                sections.push(section);
                assert(section_views(sections@) =~= before.push(section@));
            },
            Err(error) => {
                proof {
                    lemma_sections_fail(
                        file@,
                        table as int,
                        (index + 1) as nat,
                        count as nat,
                    );
                }
                return Err(error);
            },
        }
        index += 1;
    }
    Ok(sections)
}

fn copy_into(mapped: &mut Vec<u8>, start: usize, part: &[u8])
    requires
        start + part@.len() <= old(mapped)@.len(),
    ensures
        final(mapped)@ == overlay(old(mapped)@, start as int, part@),
{
    let ghost before = mapped@;
    let limit: usize = mapped.len();
    let n: usize = part.len();
    let mut i: usize = 0;
    assert(mapped@ =~= overlay(before, start as int, part@.take(0)));
    while i < n
        invariant
            i <= n == part@.len(),
            start + n <= limit == before.len(),
            mapped@ == overlay(before, start as int, part@.take(i as int)),
        decreases n - i,
    {
        let byte: u8 = part[i];
        mapped.set(start + i, byte);
        i += 1;
        assert(mapped@ =~= overlay(before, start as int, part@.take(i as int)));
    }
    assert(part@.take(n as int) =~= part@);
}

fn smaller(a: u64, b: u64) -> (r: u64)
    ensures
        r == least(a as int, b as int),
{
    if a <= b {
        a
    } else {
        b
    }
}

fn lay_out(file: &[u8], size_of_image: u32, size_of_headers: u32, sections: &Vec<Section>) -> (r:
    Vec<u8>)
    ensures
        r@ == laid_out(file@, size_of_image, size_of_headers, section_views(sections@)),
        r@.len() == size_of_image,
{
    let file_len: u64 = file.len() as u64;
    let image_len: u64 = size_of_image as u64;
    let mut mapped: Vec<u8> = vec![0u8; size_of_image as usize];
    let header_bytes: u64 = smaller(size_of_headers as u64, smaller(file_len, image_len));
    assert(mapped@ =~= Seq::new(size_of_image as nat, |i: int| 0u8));
    copy_into(&mut mapped, 0, slice_subrange(file, 0, header_bytes as usize));
    let ghost views = section_views(sections@);
    assert(views.take(0) =~= Seq::empty());
    for i in 0..sections.len()
        invariant
            views == section_views(sections@),
            file_len == file@.len() <= usize::MAX,
            image_len == size_of_image,
            mapped@.len() == size_of_image,
            mapped@ == laid_out(file@, size_of_image, size_of_headers, views.take(i as int)),
    {
        let section = &sections[i];
        assert(views.take(i + 1).drop_last() =~= views.take(i as int));
        assert(views.take(i + 1).last() == section@);
        let wanted: u64 = if section.virtual_size == 0 {
            section.raw_size as u64
        } else {
            smaller(section.raw_size as u64, section.virtual_size as u64)
        };
        let start: u64 = section.virtual_address as u64;
        let raw_start: u64 = section.raw_pointer as u64;
        if file_len > raw_start && image_len > start && wanted > 0 {
            let copy: u64 = smaller(wanted, smaller(file_len - raw_start, image_len - start));
            copy_into(
                &mut mapped,
                start as usize,
                slice_subrange(file, raw_start as usize, (raw_start + copy) as usize),
            );
        }
    }
    assert(views.take(views.len() as int) =~= views);
    mapped
}

proof fn lemma_set_bit(word: u64, a: u64, b: u64)
    requires
        a < 64,
        b < 64,
    ensures
        ((word | (1u64 << a)) & (1u64 << b) != 0) == (a == b || word & (1u64 << b) != 0),
{
    assert(((word | (1u64 << a)) & (1u64 << b) != 0) == (a == b || word & (1u64 << b) != 0))
        by (bit_vector)
        requires
            a < 64,
            b < 64,
    ;
}

proof fn lemma_clear_bit(b: u64)
    requires
        b < 64,
    ensures
        0u64 & (1u64 << b) == 0,
{
    assert(0u64 & (1u64 << b) == 0) by (bit_vector);
}

fn mark(bitmap: &mut Vec<u64>, byte: usize)
    requires
        byte < 64 * old(bitmap)@.len(),
    ensures
        final(bitmap)@.len() == old(bitmap)@.len(),
        forall|i: int|
            #[trigger] bit_set(final(bitmap)@, i) == (i == byte || bit_set(old(bitmap)@, i)),
{
    let ghost before = bitmap@;
    let word: usize = byte / 64;
    let bit: u64 = (byte % 64) as u64;
    let value: u64 = bitmap[word] | (1u64 << bit);
    bitmap.set(word, value);
    assert forall|i: int| #[trigger] bit_set(bitmap@, i) == (i == byte || bit_set(before, i)) by {
        if 0 <= i < 64 * before.len() && i / 64 == word {
            lemma_set_bit(before[word as int], bit, (i % 64) as u64);
        }
    }
}

/// Marks the bytes that one entry covers.
fn mark_entry(bitmap: &mut Vec<u64>, mapped: &[u8], block: usize, index: usize)
    requires
        mapped@.len() <= 64 * old(bitmap)@.len(),
        block + 10 + 2 * index <= mapped@.len(),
    ensures
        final(bitmap)@.len() == old(bitmap)@.len(),
        forall|i: int|
            0 <= i < mapped@.len() ==> #[trigger] bit_set(final(bitmap)@, i) == (entry_covers(
                mapped@,
                block as int,
                index as int,
                i,
            ) || bit_set(old(bitmap)@, i)),
{
    let ghost before = bitmap@;
    let length: usize = mapped.len();
    let limit: u64 = length as u64;
    let page_rva: u32 = get32(mapped, block);
    let entry: u16 = get16(mapped, block + 8 + 2 * index);
    let kind: u16 = entry / 0x1000;
    // 3 = HIGHLOW (4 bytes, x86), 10 = DIR64 (8 bytes, x64).
    let width: u64 = if kind == 3 {
        4
    } else if kind == 10 {
        8
    } else {
        0
    };
    let target: u64 = page_rva as u64 + (entry % 0x1000) as u64;
    let end: u64 = smaller(target + width, limit);
    let mut byte: u64 = target;
    while byte < end
        invariant
            end <= limit == length == mapped@.len(),
            target <= byte,
            byte <= end || byte == target,
            mapped@.len() <= 64 * bitmap@.len(),
            bitmap@.len() == before.len(),
            forall|i: int|
                #[trigger] bit_set(bitmap@, i) == ((target <= i < byte) || bit_set(before, i)),
        decreases end - byte,
    {
        mark(bitmap, byte as usize);
        byte += 1;
    }
}

/// The byte at `i` is marked, or one of the blocks from `cursor` on covers it.
spec fn covered_beyond(
    bitmap: Seq<u64>,
    mapped: Seq<u8>,
    cursor: int,
    end: int,
    i: int,
) -> bool {
    bit_set(bitmap, i) || covered(mapped, cursor, end, i)
}

/// What the blocks from `start` to `cursor` cover is marked, and nothing else.
spec fn marked_up_to(
    bitmap: Seq<u64>,
    mapped: Seq<u8>,
    start: int,
    cursor: int,
    end: int,
) -> bool {
    forall|i: int|
        0 <= i < mapped.len() ==> covered_beyond(bitmap, mapped, cursor, end, i) == covered(
            mapped,
            start,
            end,
            i,
        )
}

/// Marks every byte covered by a base relocation.
///
/// This is what makes generated signatures survive ASLR. A `HIGHLOW`
/// relocation means the loader rewrites those four bytes at load time, so a
/// signature that spelled them out would only ever match the one process
/// that happened to load at the preferred base. Masking exactly the
/// relocated dwords -- rather than guessing which immediates look like
/// addresses -- is both correct and provable from the file itself.
#[verifier::rlimit(40)]
fn build_relocation_bitmap(mapped: &Vec<u8>, directory: Option<(u32, u32)>) -> (r: Vec<u64>)
    requires
        mapped@.len() <= u32::MAX,
    ensures
        mapped@.len() <= 64 * r@.len(),
        forall|i: int|
            0 <= i < mapped@.len() ==> #[trigger] bit_set(r@, i) == table_covers(
                mapped@,
                directory,
                i,
            ),
{
    let length: usize = mapped.len();
    let words: usize = if length % 64 == 0 {
        length / 64
    } else {
        length / 64 + 1
    };
    let mut bitmap: Vec<u64> = vec![0u64; words];
    assert forall|i: int| !(#[trigger] bit_set(bitmap@, i)) by {
        lemma_clear_bit((i % 64) as u64);
    }
    let (rva, size): (u32, u32) = match directory {
        Some((rva, size)) => (rva, size),
        None => {
            return bitmap;
        },
    };
    if rva == 0 || size == 0 {
        return bitmap;
    }
    let end: u64 = smaller(rva as u64 + size as u64, length as u64);
    let mut cursor: u64 = rva as u64;
    while cursor + 8 <= end
        invariant
            end <= length == mapped@.len(),
            length <= u32::MAX,
            cursor <= u32::MAX,
            mapped@.len() <= 64 * bitmap@.len(),
            marked_up_to(bitmap@, mapped@, rva as int, cursor as int, end as int),
        ensures
            forall|i: int|
                0 <= i < mapped@.len() ==> #[trigger] bit_set(bitmap@, i) == covered(
                    mapped@,
                    rva as int,
                    end as int,
                    i,
                ),
        decreases end - cursor,
    {
        let block: usize = cursor as usize;
        let block_size: u32 = get32(mapped.as_slice(), block + 4);
        if block_size < 8 || cursor + block_size as u64 > end {
            break;
        }
        let entries: u32 = (block_size - 8) / 2;
        let ghost before = bitmap@;
        let mut index: u32 = 0;
        while index < entries
            invariant
                index <= entries,
                entries == (block_size - 8) / 2,
                block_size >= 8,
                block + block_size <= mapped@.len(),
                mapped@.len() <= 64 * bitmap@.len(),
                forall|i: int|
                    0 <= i < mapped@.len() ==> #[trigger] bit_set(bitmap@, i) == ((exists|k: int|
                        0 <= k < index && entry_covers(mapped@, block as int, k, i)) || bit_set(
                        before,
                        i,
                    )),
            decreases entries - index,
        {
            let ghost middle = bitmap@;
            mark_entry(&mut bitmap, mapped.as_slice(), block, index as usize);
            assert forall|i: int| 0 <= i < mapped@.len() implies #[trigger] bit_set(bitmap@, i) == ((
            exists|k: int| 0 <= k < index + 1 && entry_covers(mapped@, block as int, k, i))
                || bit_set(before, i)) by {
                assert(bit_set(middle, i) == ((exists|k: int|
                    0 <= k < index && entry_covers(mapped@, block as int, k, i)) || bit_set(
                    before,
                    i,
                )));
                if entry_covers(mapped@, block as int, index as int, i) {
                    assert(exists|k: int|
                        0 <= k < index + 1 && entry_covers(mapped@, block as int, k, i));
                }
            }
            index += 1;
        }
        assert(marked_up_to(bitmap@, mapped@, rva as int, cursor + block_size, end as int)) by {
            assert forall|i: int|
                0 <= i < mapped@.len() implies covered_beyond(
                bitmap@,
                mapped@,
                cursor + block_size,
                end as int,
                i,
            ) == covered(mapped@, rva as int, end as int, i) by {
                let size = le32(mapped@, cursor + 4);
                assert(size == block_size);
                assert(covered_beyond(before, mapped@, cursor as int, end as int, i) == covered(
                    mapped@,
                    rva as int,
                    end as int,
                    i,
                ));
                assert(bit_set(bitmap@, i) == ((exists|k: int|
                    0 <= k < index && entry_covers(mapped@, block as int, k, i)) || bit_set(
                    before,
                    i,
                )));
                assert((exists|k: int|
                    0 <= k < index && entry_covers(mapped@, block as int, k, i)) == (exists|k: int|
                    0 <= k < (size - 8) / 2 && entry_covers(mapped@, cursor as int, k, i)));
            }
        }
        cursor = cursor + block_size as u64;
    }
    bitmap
}

impl Image {
    pub fn parse(file: &[u8]) -> (r: Result<Self>)
        ensures
            agrees_in_view(r, image_of(file@)),
    {
        if !(file.len() >= 2 && file[0] == 0x4d && file[1] == 0x5a) {
            return Err(Error::malformed("not a PE file: missing MZ signature".to_owned()));
        }
        let pe: u32 = u32_at(file, 0x3c)?;
        if !(pe as u64 + 4 <= file.len() as u64 && get32(file, pe as usize) == 0x4550) {
            return Err(Error::malformed("not a PE file: missing PE signature".to_owned()));
        }
        let header: Header = read_header(file, pe as u64)?;
        let sections: Vec<Section> = read_sections(file, header.table, header.section_count)?;
        if header.size_of_image > 512 * 1024 * 1024 {
            let mut message = "SizeOfImage of ".to_owned();
            message.append(decimal_text(header.size_of_image as i128).as_str());
            message.append(" bytes is implausible for GameAssembly.dll");
            return Err(Error::malformed(message));
        }
        let mapped: Vec<u8> = lay_out(
            file,
            header.size_of_image,
            header.size_of_headers,
            &sections,
        );
        let relocated: Vec<u64> = build_relocation_bitmap(&mapped, header.relocations);
        let image = Self {
            arch: header.arch,
            image_base: header.image_base,
            size_of_image: header.size_of_image,
            sections,
            memory: Memory { mapped, relocated },
        };
        assert(image@.relocated =~= Seq::new(
            image.memory.mapped@.len(),
            |i: int| table_covers(image.memory.mapped@, header.relocations, i),
        ));
        Ok(image)
    }

    pub fn arch(&self) -> (r: Arch)
        ensures
            r == self@.arch,
    {
        self.arch
    }

    pub fn image_base(&self) -> (r: u64)
        ensures
            r == self@.image_base,
    {
        self.image_base
    }

    pub fn size_of_image(&self) -> (r: u32)
        ensures
            r == self@.size_of_image,
    {
        self.size_of_image
    }

    pub fn mapped(&self) -> (r: &[u8])
        ensures
            r@ == self@.mapped,
    {
        self.memory.mapped.as_slice()
    }

    pub fn is_relocated(&self, rva: usize) -> (r: bool)
        ensures
            r == self@.rewritten(rva as int),
    {
        let bits = &self.memory.relocated;
        rva < self.memory.mapped.len() && rva / 64 < bits.len() && bits[rva / 64] & (1u64 << ((rva
            % 64) as u64)) != 0
    }

    /// True when any byte of `[rva, rva+len)` is subject to a relocation.
    pub fn range_relocated(&self, rva: usize, len: usize) -> (r: bool)
        ensures
            r == exists|i: int| rva <= i < rva + len && self@.rewritten(i),
    {
        let limit: usize = self.memory.mapped.len();
        if rva >= limit {
            return false;
        }
        let end: usize = if len <= limit - rva {
            rva + len
        } else {
            limit
        };
        let mut byte: usize = rva;
        while byte < end
            invariant
                rva <= byte <= end <= limit == self.memory.mapped@.len(),
                end <= rva + len,
                forall|i: int| rva <= i < byte ==> !self@.rewritten(i),
            decreases end - byte,
        {
            if self.is_relocated(byte) {
                assert(rva <= byte < rva + len && self@.rewritten(byte as int));
                return true;
            }
            byte += 1;
        }
        false
    }

    pub fn read_u32(&self, rva: usize) -> (r: Option<u32>)
        ensures
            r == (if rva + 4 <= self@.mapped.len() {
                Some(le32(self@.mapped, rva as int) as u32)
            } else {
                None
            }),
    {
        let limit: usize = self.memory.mapped.len();
        if limit >= 4 && rva <= limit - 4 {
            Some(get32(self.memory.mapped.as_slice(), rva))
        } else {
            None
        }
    }

    pub fn read_i32(&self, rva: usize) -> (r: Option<i32>)
        ensures
            r == (if rva + 4 <= self@.mapped.len() {
                Some(signed32(le32(self@.mapped, rva as int)) as i32)
            } else {
                None
            }),
    {
        match self.read_u32(rva) {
            Some(value) => Some(as_signed(value)),
            None => None,
        }
    }

    /// The first section that holds `rva`.
    pub fn section_of(&self, rva: u32) -> (r: Option<&Section>)
        ensures
            match r {
                Some(section) => exists|i: int|
                    0 <= i < self@.sections.len() && section@ == #[trigger] self@.sections[i]
                        && section@.holds(rva as int) && forall|j: int|
                        0 <= j < i ==> !(#[trigger] self@.sections[j]).holds(rva as int),
                None => forall|j: int|
                    0 <= j < self@.sections.len() ==> !(#[trigger] self@.sections[j]).holds(
                        rva as int,
                    ),
            },
    {
        for i in 0..self.sections.len()
            invariant
                forall|j: int|
                    0 <= j < i ==> !(#[trigger] self@.sections[j]).holds(rva as int),
        {
            assert(self@.sections[i as int] == self.sections@[i as int]@);
            if self.sections[i].contains(rva) {
                return Some(&self.sections[i]);
            }
        }
        None
    }

    /// Executable sections, in file order. For Among Us this is `.text` (the
    /// IL2CPP runtime) and `il2cpp` (the compiled game code) -- the game's own
    /// static accesses live almost entirely in the latter, which is why
    /// searching only `.text` finds nothing.
    pub fn code_sections(&self) -> (r: Vec<&Section>)
        ensures
            section_ref_views(r@) == self@.code(),
    {
        let mut found: Vec<&Section> = Vec::new();
        let ghost all = section_views(self.sections@);
        let ghost wanted = |s: SectionView| s.executable();
        proof {
            reveal(Seq::filter);
        }
        assert(section_ref_views(found@) =~= all.take(0).filter(wanted));
        for i in 0..self.sections.len()
            invariant
                all == section_views(self.sections@),
                wanted == (|s: SectionView| s.executable()),
                section_ref_views(found@) == all.take(i as int).filter(wanted),
        {
            proof {
                reveal(Seq::filter);
            }
            let ghost before = section_ref_views(found@);
            assert(all.take(i + 1).drop_last() =~= all.take(i as int));
            let section = &self.sections[i];
            if section.is_executable() {
                found.push(section);
                assert(section_ref_views(found@) =~= before.push(section@));
            }
        }
        assert(all.take(all.len() as int) =~= all);
        found
    }
}

/// A thirty-two-bit number read as a signed one.
pub fn as_signed(value: u32) -> (r: i32)
    ensures
        r == signed32(value as int),
{
    if value < 0x8000_0000 {
        value as i32
    } else {
        (value as i64 - 0x1_0000_0000) as i32
    }
}

} // verus!
