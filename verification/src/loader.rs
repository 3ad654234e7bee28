//! What the loader makes of a PE file, said of the bytes of the file: the
//! headers, the sections, the mapped bytes and the relocated ones.

use vstd::prelude::*;

use crate::pe::{
    copied, covered, entry_covers, header_in, image_of, laid_out, le16, le32, le64, section_in,
    sections_in, table_covers, until_zero, Arch, ImageView, SectionView,
};
use crate::text::lossy_text;

verus! {

/// A block of a base relocation table: the page it is for, and its entries as
/// `(kind, offset in the page)`.
pub struct Block {
    pub page: int,
    pub entries: Seq<(int, int)>,
}

impl Block {
    /// How many bytes the block takes.
    pub open spec fn size(self) -> int {
        8 + 2 * self.entries.len() as int
    }
}

/// How many bytes these blocks take.
pub open spec fn table_size(blocks: Seq<Block>) -> int
    decreases blocks.len(),
{
    if blocks.len() == 0 {
        0
    } else {
        table_size(blocks.drop_last()) + blocks.last().size()
    }
}

/// The bytes from `at` on are this block.
pub open spec fn spells_block(mapped: Seq<u8>, at: int, block: Block) -> bool {
    &&& le32(mapped, at) == block.page
    &&& le32(mapped, at + 4) == block.size()
    &&& forall|k: int|
        0 <= k < block.entries.len() ==> {
            let (kind, offset) = #[trigger] block.entries[k];
            0 <= kind < 16 && 0 <= offset < 4096 && le16(mapped, at + 8 + 2 * k) == 4096 * kind
                + offset
        }
}

/// The bytes from `at` on are these blocks, one after the other.
pub open spec fn spells_table(mapped: Seq<u8>, at: int, blocks: Seq<Block>) -> bool {
    forall|b: int|
        0 <= b < blocks.len() ==> spells_block(
            mapped,
            at + table_size(blocks.take(b)),
            #[trigger] blocks[b],
        )
}

/// An entry of a block rewrites this byte: four bytes for an address of 32 bits,
/// eight for one of 64, nothing for any other kind.
pub open spec fn rewrites(block: Block, k: int, rva: int) -> bool {
    let (kind, offset) = block.entries[k];
    let start = block.page + offset;
    (kind == 3 && start <= rva < start + 4) || (kind == 10 && start <= rva < start + 8)
}

/// Some entry of some block rewrites this byte.
pub open spec fn some_entry_rewrites(blocks: Seq<Block>, rva: int) -> bool {
    exists|b: int, k: int|
        0 <= b < blocks.len() && 0 <= k < blocks[b].entries.len() && #[trigger] rewrites(
            blocks[b],
            k,
            rva,
        )
}

proof fn lemma_table_size(blocks: Seq<Block>)
    requires
        blocks.len() > 0,
    ensures
        table_size(blocks) == blocks[0].size() + table_size(blocks.skip(1)),
        table_size(blocks) >= 8,
    decreases blocks.len(),
{
    let last = blocks.last();
    let front = blocks.drop_last();
    lemma_table_size_positive(blocks.skip(1));
    if blocks.len() == 1 {
        assert(front =~= Seq::empty());
        assert(blocks.skip(1) =~= Seq::empty());
    } else {
        lemma_table_size(front);
        assert(front.skip(1) =~= blocks.skip(1).drop_last());
        assert(blocks.skip(1).last() == last);
    }
}

proof fn lemma_table_size_positive(blocks: Seq<Block>)
    ensures
        table_size(blocks) >= 0,
    decreases blocks.len(),
{
    if blocks.len() > 0 {
        lemma_table_size_positive(blocks.drop_last());
    }
}

proof fn lemma_entry(mapped: Seq<u8>, at: int, block: Block, k: int, rva: int)
    requires
        spells_block(mapped, at, block),
        0 <= k < block.entries.len(),
    ensures
        entry_covers(mapped, at, k, rva) == rewrites(block, k, rva),
{
    let (kind, offset) = block.entries[k];
    let entry = le16(mapped, at + 8 + 2 * k);
    assert(entry == 4096 * kind + offset);
    assert(entry % 0x1000 == offset && entry / 0x1000 == kind) by (nonlinear_arith)
        requires
            entry == 4096 * kind + offset,
            0 <= offset < 4096,
            0 <= kind,
    ;
}

proof fn lemma_covered(mapped: Seq<u8>, at: int, blocks: Seq<Block>, rva: int)
    requires
        spells_table(mapped, at, blocks),
    ensures
        covered(mapped, at, at + table_size(blocks), rva) == some_entry_rewrites(blocks, rva),
    decreases blocks.len(),
{
    let end = at + table_size(blocks);
    if blocks.len() > 0 {
        let first = blocks[0];
        let others = blocks.skip(1);
        let next = at + first.size();
        lemma_table_size(blocks);
        lemma_table_size_positive(others);
        assert(blocks.take(0) =~= Seq::empty());
        assert(spells_block(mapped, at, first));
        assert forall|b: int| 0 <= b < others.len() implies spells_block(
            mapped,
            next + table_size(others.take(b)),
            #[trigger] others[b],
        ) by {
            assert(others[b] == blocks[b + 1]);
            lemma_table_size(blocks.take(b + 1));
            assert(blocks.take(b + 1)[0] == first);
            assert(blocks.take(b + 1).skip(1) =~= others.take(b));
        }
        lemma_covered(mapped, next, others, rva);
        assert((first.size() - 8) / 2 == first.entries.len());
        if covered(mapped, at, end, rva) {
            if exists|k: int|
                0 <= k < (first.size() - 8) / 2 && entry_covers(mapped, at, k, rva) {
                let k = choose|k: int|
                    0 <= k < (first.size() - 8) / 2 && entry_covers(mapped, at, k, rva);
                lemma_entry(mapped, at, first, k, rva);
                assert(rewrites(blocks[0], k, rva));
            } else {
                let (b, k) = choose|b: int, k: int|
                    0 <= b < others.len() && 0 <= k < others[b].entries.len()
                        && #[trigger] rewrites(others[b], k, rva);
                assert(rewrites(blocks[b + 1], k, rva));
            }
        }
        if some_entry_rewrites(blocks, rva) {
            let (b, k) = choose|b: int, k: int|
                0 <= b < blocks.len() && 0 <= k < blocks[b].entries.len() && #[trigger] rewrites(
                    blocks[b],
                    k,
                    rva,
                );
            if b == 0 {
                lemma_entry(mapped, at, first, k, rva);
                assert(0 <= k < (first.size() - 8) / 2 && entry_covers(mapped, at, k, rva));
            } else {
                assert(rewrites(others[b - 1], k, rva));
            }
        }
    }
}

/// Where the PE headers start.
pub open spec fn pe_of(file: Seq<u8>) -> int {
    le32(file, 0x3c)
}

/// Where the optional header starts.
pub open spec fn optional_of(file: Seq<u8>) -> int {
    pe_of(file) + 24
}

/// Whether the headers are those of a 64-bit module.
pub open spec fn is_wide(file: Seq<u8>) -> bool {
    le16(file, optional_of(file)) == 0x20b
}

/// Where the data directories start: behind their count.
pub open spec fn directories_of(file: Seq<u8>) -> int {
    optional_of(file) + (if is_wide(file) {
        112int
    } else {
        96int
    })
}

/// Where the entry of a section in the section table starts.
pub open spec fn entry_of(file: Seq<u8>, i: int) -> int {
    optional_of(file) + le16(file, pe_of(file) + 20) + 40 * i
}

/// The file is a PE module whose headers and section table it holds in full.
pub open spec fn is_module(file: Seq<u8>) -> bool {
    let pe = pe_of(file);
    let optional = optional_of(file);
    let directories = directories_of(file);
    &&& file.len() >= 0x40
    &&& file[0] == 'M' as u8 && file[1] == 'Z' as u8
    &&& pe + 4 <= file.len()
    &&& file[pe] == 'P' as u8 && file[pe + 1] == 'E' as u8 && file[pe + 2] == 0 && file[pe + 3] == 0
    &&& directories <= file.len()
    &&& le16(file, optional) == 0x10b || le16(file, optional) == 0x20b
    &&& le32(file, directories - 4) > 5 ==> directories + 48 <= file.len()
    &&& le16(file, pe + 6) > 0 ==> entry_of(file, le16(file, pe + 6)) <= file.len()
    &&& le32(file, optional + 56) <= 512 * 1024 * 1024
}

proof fn lemma_bytes(file: Seq<u8>, at: int)
    ensures
        0 <= le16(file, at) < 0x1_0000,
        0 <= le32(file, at) < 0x1_0000_0000,
        0 <= le64(file, at) < 0x1_0000_0000_0000_0000,
{
}

proof fn lemma_sections_ok(file: Seq<u8>, table: int, count: nat)
    requires
        0 <= table,
    ensures
        sections_in(file, table, count) is Ok <==> (count > 0 ==> table + 40 * count <= file.len()),
        sections_in(file, table, count) matches Ok(all) ==> all.len() == count && forall|i: int|
            0 <= i < count ==> section_in(file, table + i * 40) == Ok::<
                SectionView,
                crate::error::ErrorView,
            >(#[trigger] all[i]),
    decreases count,
{
    if count > 0 {
        lemma_sections_ok(file, table, (count - 1) as nat);
        lemma_section_ok(file, table + (count - 1) * 40);
        if let Ok(all) = sections_in(file, table, count) {
            let before = sections_in(file, table, (count - 1) as nat)->Ok_0;
            assert forall|i: int| 0 <= i < count implies section_in(file, table + i * 40) == Ok::<
                SectionView,
                crate::error::ErrorView,
            >(#[trigger] all[i]) by {
                if i < count - 1 {
                    assert(all[i] == before[i]);
                }
            }
        }
    }
}

proof fn lemma_section_ok(file: Seq<u8>, base: int)
    requires
        0 <= base,
    ensures
        section_in(file, base) is Ok <==> base + 40 <= file.len(),
{
}

/// A file is accepted if and only if it is a module whose headers and section
/// table it holds in full, and whose image is no larger than half a gigabyte.
pub proof fn exactly_modules_are_accepted(file: Seq<u8>)
    ensures
        image_of(file) is Ok <==> is_module(file),
{
    let pe = pe_of(file);
    let optional = optional_of(file);
    lemma_bytes(file, 0x3c);
    lemma_bytes(file, pe);
    lemma_bytes(file, pe + 6);
    lemma_bytes(file, pe + 20);
    lemma_bytes(file, optional);
    assert(le32(file, pe) == 0x4550 <==> file[pe] == 0x50 && file[pe + 1] == 0x45 && file[pe + 2]
        == 0 && file[pe + 3] == 0);
    assert('M' as u8 == 0x4d && 'Z' as u8 == 0x5a && 'P' as u8 == 0x50 && 'E' as u8 == 0x45);
    let table = optional + le16(file, pe + 20);
    lemma_sections_ok(file, table, le16(file, pe + 6) as nat);
}

/// What the headers of an accepted file say, where the format has it.
pub proof fn an_image_is_what_its_headers_say(file: Seq<u8>)
    requires
        is_module(file),
    ensures
        image_of(file) matches Ok(image) && {
            &&& image.arch == (if is_wide(file) {
                Arch::X64
            } else {
                Arch::X86
            })
            &&& image.image_base == (if is_wide(file) {
                le64(file, optional_of(file) + 24)
            } else {
                le32(file, optional_of(file) + 28)
            })
            &&& image.size_of_image == le32(file, optional_of(file) + 56)
            &&& image.mapped.len() == image.size_of_image
            &&& image.relocated.len() == image.size_of_image
            &&& image.sections.len() == le16(file, pe_of(file) + 6)
            &&& forall|i: int|
                0 <= i < image.sections.len() ==> {
                    let base = entry_of(file, i);
                    let section = #[trigger] image.sections[i];
                    &&& section.virtual_size == le32(file, base + 8)
                    &&& section.virtual_address == le32(file, base + 12)
                    &&& section.raw_size == le32(file, base + 16)
                    &&& section.raw_pointer == le32(file, base + 20)
                    &&& section.characteristics == le32(file, base + 36)
                    &&& section.name == lossy_text(until_zero(file.subrange(base, base + 8)))
                }
        },
{
    exactly_modules_are_accepted(file);
    let pe = pe_of(file);
    let optional = optional_of(file);
    lemma_bytes(file, 0x3c);
    lemma_bytes(file, pe + 6);
    lemma_bytes(file, pe + 20);
    lemma_bytes(file, optional + 56);
    lemma_bytes(file, optional + 28);
    lemma_bytes(file, optional + 24);
    let table = optional + le16(file, pe + 20);
    lemma_sections_ok(file, table, le16(file, pe + 6) as nat);
    let image = image_of(file)->Ok_0;
    let header = header_in(file, pe)->Ok_0;
    lemma_laid_out_length(file, header.size_of_image, header.size_of_headers, image.sections);
    assert forall|i: int| 0 <= i < image.sections.len() implies section_in(file, entry_of(file, i))
        == Ok::<SectionView, crate::error::ErrorView>(#[trigger] image.sections[i]) by {
        assert(table + i * 40 == entry_of(file, i));
    }
}

/// A section's name ends at its first zero byte.
pub proof fn a_name_ends_at_its_first_zero(bytes: Seq<u8>)
    ensures
        until_zero(bytes).len() <= bytes.len(),
        until_zero(bytes) == bytes.take(until_zero(bytes).len() as int),
        forall|i: int| 0 <= i < until_zero(bytes).len() ==> #[trigger] bytes[i] != 0,
        until_zero(bytes).len() < bytes.len() ==> bytes[until_zero(bytes).len() as int] == 0,
    decreases bytes.len(),
{
    if bytes.len() > 0 && bytes[0] != 0 {
        let rest = bytes.skip(1);
        a_name_ends_at_its_first_zero(rest);
        let n = until_zero(bytes).len() as int;
        assert(until_zero(bytes) =~= bytes.take(n)) by {
            assert forall|i: int| 0 <= i < n implies until_zero(bytes)[i] == bytes[i] by {
                if i > 0 {
                    assert(until_zero(bytes)[i] == until_zero(rest)[i - 1]);
                    assert(until_zero(rest)[i - 1] == rest.take(until_zero(rest).len() as int)[i
                        - 1]);
                }
            }
        }
        assert forall|i: int| 0 <= i < n implies #[trigger] bytes[i] != 0 by {
            if i > 0 {
                assert(rest[i - 1] != 0);
            }
        }
    } else {
        assert(until_zero(bytes) =~= bytes.take(0));
    }
}

proof fn lemma_laid_out_length(
    file: Seq<u8>,
    size_of_image: u32,
    size_of_headers: u32,
    sections: Seq<SectionView>,
)
    ensures
        laid_out(file, size_of_image, size_of_headers, sections).len() == size_of_image,
    decreases sections.len(),
{
    if sections.len() > 0 {
        lemma_laid_out_length(file, size_of_image, size_of_headers, sections.drop_last());
    }
}

/// The file has the byte of a section that is loaded at `rva`: as many bytes as
/// the section has both in the file and in memory are loaded, all it has in the
/// file where its size in memory is zero.
pub open spec fn loads(file: Seq<u8>, section: SectionView, rva: int) -> bool {
    let into = rva - section.virtual_address;
    &&& 0 <= into < section.raw_size
    &&& section.virtual_size == 0 || into < section.virtual_size
    &&& section.raw_pointer + into < file.len()
}

/// The byte that these sections load at `rva`, the last of those that load one.
proof fn lemma_loaded(
    file: Seq<u8>,
    size_of_image: u32,
    size_of_headers: u32,
    sections: Seq<SectionView>,
    rva: int,
    i: int,
)
    requires
        0 <= rva < size_of_image,
        -1 <= i < sections.len(),
        i >= 0 ==> loads(file, sections[i], rva),
        forall|j: int| i < j < sections.len() ==> !loads(file, #[trigger] sections[j], rva),
    ensures
        laid_out(file, size_of_image, size_of_headers, sections)[rva] == (if i >= 0 {
            file[sections[i].raw_pointer + (rva - sections[i].virtual_address)]
        } else if rva < size_of_headers && rva < file.len() {
            file[rva]
        } else {
            0
        }),
    decreases sections.len(),
{
    if sections.len() > 0 {
        let before = sections.drop_last();
        let last = sections.len() - 1;
        let section = sections[last];
        let n = copied(section, file.len() as int, size_of_image as int);
        lemma_laid_out_length(file, size_of_image, size_of_headers, before);
        assert(loads(file, section, rva) <==> section.virtual_address <= rva
            < section.virtual_address + n);
        if i < last {
            assert(!loads(file, sections[last], rva));
            if i >= 0 {
                assert(before[i] == sections[i]);
            }
            assert forall|j: int| i < j < before.len() implies !loads(
                file,
                #[trigger] before[j],
                rva,
            ) by {
                assert(before[j] == sections[j]);
            }
            lemma_loaded(file, size_of_image, size_of_headers, before, rva, i);
        }
    }
}

/// Every byte of the image is the one that the last section to load one there
/// has in the file; the file's headers where no section loads any; else zero.
pub proof fn every_byte_is_loaded_from_its_place(file: Seq<u8>, rva: int, i: int)
    requires
        is_module(file),
        0 <= rva < image_of(file)->Ok_0.mapped.len(),
        -1 <= i < image_of(file)->Ok_0.sections.len(),
        i >= 0 ==> loads(file, image_of(file)->Ok_0.sections[i], rva),
        forall|j: int|
            i < j < image_of(file)->Ok_0.sections.len() ==> !loads(
                file,
                #[trigger] image_of(file)->Ok_0.sections[j],
                rva,
            ),
    ensures
        image_of(file)->Ok_0.mapped[rva] == ({
            let sections = image_of(file)->Ok_0.sections;
            if i >= 0 {
                file[sections[i].raw_pointer + (rva - sections[i].virtual_address)]
            } else if rva < le32(file, optional_of(file) + 60) && rva < file.len() {
                file[rva]
            } else {
                0
            }
        }),
{
    an_image_is_what_its_headers_say(file);
    exactly_modules_are_accepted(file);
    lemma_bytes(file, 0x3c);
    lemma_bytes(file, optional_of(file) + 60);
    let header = header_in(file, pe_of(file))->Ok_0;
    let image = image_of(file)->Ok_0;
    lemma_loaded(file, header.size_of_image, header.size_of_headers, image.sections, rva, i);
}

/// A byte of the image is rewritten by the loader if and only if some entry of
/// some block of the relocation table says so, whatever page the block is for and
/// wherever it stands in the table.
pub proof fn exactly_relocated_bytes_are_rewritten(file: Seq<u8>, blocks: Seq<Block>, rva: int)
    requires
        is_module(file),
        le32(file, directories_of(file) - 4) > 5,
        ({
            let image = image_of(file)->Ok_0;
            let start = le32(file, directories_of(file) + 40);
            &&& start > 0
            &&& le32(file, directories_of(file) + 44) == table_size(blocks)
            &&& start + table_size(blocks) <= image.mapped.len()
            &&& spells_table(image.mapped, start, blocks)
        }),
    ensures
        image_of(file)->Ok_0.rewritten(rva) <==> 0 <= rva < image_of(file)->Ok_0.mapped.len()
            && some_entry_rewrites(blocks, rva),
{
    an_image_is_what_its_headers_say(file);
    exactly_modules_are_accepted(file);
    lemma_bytes(file, 0x3c);
    let directories = directories_of(file);
    lemma_bytes(file, directories - 4);
    lemma_bytes(file, directories + 40);
    lemma_bytes(file, directories + 44);
    let image = image_of(file)->Ok_0;
    let start = le32(file, directories + 40);
    lemma_covered(image.mapped, start, blocks, rva);
    let header = header_in(file, pe_of(file))->Ok_0;
    assert(header.relocations == Some((start as u32, table_size(blocks) as u32)));
    if blocks.len() == 0 {
        assert(!some_entry_rewrites(blocks, rva));
    }
    assert(table_covers(image.mapped, header.relocations, rva) == some_entry_rewrites(blocks, rva));
}

/// Without a relocation table the loader rewrites nothing.
pub proof fn without_a_table_nothing_is_rewritten(file: Seq<u8>, rva: int)
    requires
        is_module(file),
        le32(file, directories_of(file) - 4) <= 5 || le32(file, directories_of(file) + 40) == 0
            || le32(file, directories_of(file) + 44) == 0,
    ensures
        !image_of(file)->Ok_0.rewritten(rva),
{
    an_image_is_what_its_headers_say(file);
    exactly_modules_are_accepted(file);
    lemma_bytes(file, 0x3c);
    lemma_bytes(file, directories_of(file) - 4);
    lemma_bytes(file, directories_of(file) + 40);
    lemma_bytes(file, directories_of(file) + 44);
}

/// A section holds code if and only if the flag for executable memory is set.
pub proof fn code_is_what_may_be_executed(section: SectionView)
    ensures
        section.executable() <==> (section.characteristics / 0x2000_0000) % 2 == 1,
{
    let c = section.characteristics;
    assert((c & 0x2000_0000 != 0) == ((c / 0x2000_0000) % 2 == 1)) by (bit_vector);
}

/// A pointer is as wide as the code that uses it: four bytes in 32-bit code, eight
/// in 64-bit code.
pub proof fn a_pointer_is_as_wide_as_its_code(arch: Arch)
    ensures
        arch.bits() == 8 * arch.pointer(),
        arch == Arch::X86 ==> arch.pointer() == 4 && arch.name() == "x86"@,
        arch == Arch::X64 ==> arch.pointer() == 8 && arch.name() == "x64"@,
{
}

/// A section holds the addresses from its own on, as many as it has bytes in
/// memory, and one where it has none.
pub proof fn a_section_holds_its_own_addresses(section: SectionView, rva: int)
    ensures
        section.virtual_size > 0 ==> (section.holds(rva) <==> section.virtual_address <= rva
            < section.virtual_address + section.virtual_size),
        section.virtual_size == 0 ==> (section.holds(rva) <==> rva == section.virtual_address),
{
}

/// Numbers stand in the file and in memory with their lowest byte first.
pub proof fn numbers_stand_lowest_byte_first(data: Seq<u8>, at: int)
    ensures
        le16(data, at) == data[at] + 256 * data[at + 1],
        le32(data, at) == le16(data, at) + 65536 * le16(data, at + 2),
        le64(data, at) == le32(data, at) + 0x1_0000_0000 * le32(data, at + 4),
        crate::pe::signed32(le32(data, at)) == (if data[at + 3] < 128 {
            le32(data, at)
        } else {
            le32(data, at) - 0x1_0000_0000
        }),
{
}

proof fn lemma_filter(all: Seq<SectionView>, wanted: spec_fn(SectionView) -> bool)
    ensures
        forall|s: SectionView| #[trigger] all.filter(wanted).contains(s) <==> all.contains(s)
            && wanted(s),
    decreases all.len(),
{
    reveal(Seq::filter);
    if all.len() > 0 {
        let shorter = all.drop_last();
        let last = all.len() - 1;
        lemma_filter(shorter, wanted);
        assert forall|s: SectionView| #[trigger] all.filter(wanted).contains(s) <==> all.contains(s)
            && wanted(s) by {
            let kept = all.filter(wanted);
            let fewer = shorter.filter(wanted);
            if kept.contains(s) {
                let i = choose|i: int| 0 <= i < kept.len() && kept[i] == s;
                if i < fewer.len() {
                    assert(fewer[i] == s);
                    assert(fewer.contains(s));
                    assert(shorter.contains(s));
                    let k = choose|k: int| 0 <= k < shorter.len() && shorter[k] == s;
                    assert(all[k] == s);
                } else {
                    assert(all[last] == s);
                }
            }
            if all.contains(s) && wanted(s) {
                let k = choose|k: int| 0 <= k < all.len() && all[k] == s;
                if k < last {
                    assert(shorter[k] == s);
                    assert(shorter.contains(s));
                    assert(fewer.contains(s));
                    let i = choose|i: int| 0 <= i < fewer.len() && fewer[i] == s;
                    assert(kept[i] == s);
                } else {
                    assert(kept[kept.len() - 1] == s);
                }
            }
        }
    }
}

/// Code is looked for in every section that may be executed, and in no other.
pub proof fn every_executable_section_holds_code(image: ImageView, section: SectionView)
    ensures
        image.code().contains(section) <==> image.sections.contains(section) && (
        section.characteristics / 0x2000_0000) % 2 == 1,
{
    lemma_filter(image.sections, |s: SectionView| s.executable());
    code_is_what_may_be_executed(section);
    assert(image.sections.filter(|s: SectionView| s.executable()).contains(section)
        <==> image.sections.contains(section) && section.executable());
}

} // verus!
