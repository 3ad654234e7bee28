//! Generates the byte signatures the client uses to locate static classes.
//!
//! # How it works
//!
//! For each type, `script.json` gives the RVA of the global slot holding its
//! `Il2CppClass*`. Any instruction in the binary that loads that slot is a
//! usable anchor, so we do not need to recognise a particular accessor method:
//!
//!   1. find every instruction whose memory operand resolves to the slot;
//!   2. take one, and start the signature at that instruction with the
//!      address field wildcarded;
//!   3. append whole instructions until the pattern matches exactly once in
//!      the mapped image;
//!   4. resolve the finished signature the way the client will, and check it
//!      lands back on the slot we started from.
//!
//! Step 4 is what makes the output trustworthy: a signature is only emitted
//! after it has been shown to produce the right address by the same arithmetic
//! the client performs. [`trustworthy`] states it.
//!
//! # Wildcarding
//!
//! Anything the loader or linker may rewrite has to be a wildcard, or the
//! signature only matches the one process that happened to load at the
//! preferred image base:
//!
//!   * bytes covered by a base relocation (this is every absolute address on
//!     x86, taken from the PE's own `.reloc` table rather than guessed);
//!   * RIP-relative displacements on x64;
//!   * branch and call targets.
//!
//! Everything else stays literal, because literal bytes are what make a
//! signature specific.

use vstd::prelude::*;
use vstd::slice::slice_subrange;

use crate::decode::{
    decode_instruction, decoded, Instruction, IMMEDIATE_32, MEMORY, NEAR_BRANCH_16, NEAR_BRANCH_32,
    NEAR_BRANCH_64, REGISTER,
};
use crate::error::{agrees, agrees_in_view, Error, ErrorView, Result};
use crate::masking::{lemma_grown_from_anchor, made_of};
use crate::numbers::{capital_hex, capital_hex_text, decimal, decimal_text};
use crate::pattern::{
    all_matches, appending_only_rules_out, fits, lemma_only_match, literals,
    moved_back, narrowing_keeps_the_list_complete, prepending_keeps_the_list_complete, Pattern,
};
use crate::pe::{as_signed, get32, le16, le32, least, signed32, Arch, Image, ImageView, SectionView};
use crate::pe::section_ref_views;

verus! {

/// Longest signature we are willing to emit. Past this the pattern is covering
/// so much code that the next game build is bound to shift something inside it.
pub const MAX_SIGNATURE_BYTES: usize = 96;

/// How many anchor instructions to try before giving up on a type.
pub const MAX_CANDIDATES: usize = 24;

/// How many anchor instructions are looked for.
pub const MAX_ANCHORS: usize = 96;

/// Bytes prepended per step when a signature has to grow backwards.
pub const BACKWARD_STEP: usize = 4;

/// Cap on match positions collected while probing.
///
/// The growth loop only ever filters this set, so it has to start out complete
/// -- a truncated set could shrink to one entry while other matches sat beyond
/// the cut and the signature would look unique when it is not. Hitting the cap
/// is therefore treated as an error, not as a result. Real anchors land in the
/// low hundreds of thousands at worst (a one-literal-byte opcode across 33 MB
/// of code), so this is a guard against pathology rather than a working limit.
pub const MATCH_PROBE_CAP: usize = 2_000_000;

/// A signature of at most this many bytes is as good as they get.
pub const SHORT_SIGNATURE_BYTES: usize = 24;

/// What a signature is supposed to point at, and therefore how it is checked.
#[derive(Debug, Clone, Copy, PartialEq, Eq, Structural)]
pub enum Expectation {
    /// A global holding an `Il2CppClass*`. The client turns the field into an
    /// address (RIP-relative on x64, absolute minus module base on x86).
    Slot(u64),
    /// A literal baked into the code. The client reads the field as an `int`
    /// and uses the value directly -- `findPattern`'s `getLocation` path.
    Immediate(i32),
}

#[derive(Debug, Clone, Copy, PartialEq, Eq, Structural)]
pub enum Resolution {
    Slot(u64),
    Immediate(i32),
}

#[derive(Debug, Clone)]
pub struct GeneratedSignature {
    pub pattern: Pattern,
    pub pattern_offset: i64,
    pub address_offset: i64,
    /// What the finished signature actually produced, recomputed with the
    /// client's arithmetic rather than taken on trust.
    pub resolves_to: Resolution,
    /// RVA of the anchor instruction, for diagnostics.
    pub anchor_rva: u64,
    pub literal_bytes: usize,
}

/// What a [`GeneratedSignature`] says.
pub struct SignatureView {
    pub pattern: Seq<Option<u8>>,
    pub pattern_offset: i64,
    pub address_offset: i64,
    pub resolves_to: Resolution,
    pub anchor_rva: u64,
    pub literal_bytes: usize,
}

impl View for GeneratedSignature {
    type V = SignatureView;

    open spec fn view(&self) -> SignatureView {
        SignatureView {
            pattern: self.pattern@,
            pattern_offset: self.pattern_offset,
            address_offset: self.address_offset,
            resolves_to: self.resolves_to,
            anchor_rva: self.anchor_rva,
            literal_bytes: self.literal_bytes,
        }
    }
}

impl SignatureView {
    pub open spec fn description(self) -> Seq<char> {
        decimal(self.pattern.len() as int) + " bytes ("@ + decimal(self.literal_bytes as int)
            + " literal) anchored at 0x"@ + capital_hex(self.anchor_rva as nat)
    }
}

impl GeneratedSignature {
    pub fn describe(&self) -> (r: String)
        ensures
            r@ == self@.description(),
    {
        let mut out = decimal_text(self.pattern.len() as i128);
        out.append(" bytes (");
        out.append(decimal_text(self.literal_bytes as i128).as_str());
        out.append(" literal) anchored at 0x");
        out.append(capital_hex_text(self.anchor_rva as u128).as_str());
        out
    }

    pub fn immediate(&self) -> (r: Option<i32>)
        ensures
            r == (match self.resolves_to {
                Resolution::Immediate(value) => Some(value),
                Resolution::Slot(_) => None,
            }),
    {
        match self.resolves_to {
            Resolution::Immediate(value) => Some(value),
            Resolution::Slot(_) => None,
        }
    }
}

/// An instruction that loads what a signature is for.
#[derive(Debug, Clone, Copy)]
pub struct Anchor {
    pub start: usize,
    pub length: usize,
    /// Where in the instruction the four-byte field stands.
    pub field_offset: usize,
    /// Lower is better.
    pub quality: u8,
}

/// The instruction at `rva`, where there is one.
pub open spec fn instruction_at(image: ImageView, rva: int) -> Option<Instruction> {
    if 0 <= rva < image.mapped.len() {
        let code = image.mapped.subrange(rva, least(rva + 16, image.mapped.len() as int));
        let instruction = decoded(image.arch.bits(), code, rva as u64);
        if instruction.invalid {
            None
        } else {
            Some(instruction)
        }
    } else {
        None
    }
}

/// A sixty-four-bit number read as a signed one.
pub open spec fn signed64(n: u64) -> int {
    if n < 0x8000_0000_0000_0000 {
        n as int
    } else {
        n - 0x1_0000_0000_0000_0000
    }
}

/// Whether the four bytes at `field` hold the address of the slot. On x86 the
/// address is absolute and the loader must be rewriting it -- an unrelocated
/// dword that happens to equal the address is a constant, not a pointer load.
pub open spec fn points_at(image: ImageView, field: int, slot: u64) -> bool {
    &&& 0 <= field
    &&& field + 4 <= image.mapped.len()
    &&& match image.arch {
        Arch::X86 => le32(image.mapped, field) == image.image_base + slot && image.rewritten(field),
        Arch::X64 => field + 4 + signed32(le32(image.mapped, field)) == signed64(slot),
    }
}

/// Whether the memory operand of an instruction is the slot.
pub open spec fn targets(image: ImageView, instruction: Instruction, slot: u64) -> bool {
    match image.arch {
        Arch::X86 => instruction.displacement == image.image_base + slot && instruction.base_free
            && instruction.index_free,
        Arch::X64 => instruction.ip_relative && instruction.ip_target == slot,
    }
}

/// Lower is better. A plain register load is the shape the hand-written
/// signatures used and the one least likely to be reshuffled by the optimiser.
pub open spec fn quality(instruction: Instruction) -> u8 {
    let loads_into_register = instruction.op_count == 2 && instruction.operands[0]
        == REGISTER && instruction.operands[1] == MEMORY;
    if loads_into_register {
        if instruction.is_mov {
            0
        } else {
            1
        }
    } else if instruction.is_mov {
        2
    } else {
        3
    }
}

/// Whether the instruction at `start` loads the slot with the field at `field`
/// as its last four bytes.
pub open spec fn owns(image: ImageView, start: int, field: int, slot: u64) -> bool {
    match instruction_at(image, start) {
        Some(instruction) => instruction.next_ip == field + 4 && targets(image, instruction, slot),
        None => false,
    }
}

/// The anchor with the latest start from `start` down to `earliest` that owns the field.
pub open spec fn owner_from(
    image: ImageView,
    field: int,
    slot: u64,
    earliest: int,
    start: int,
) -> Option<Anchor>
    decreases start - earliest + 1,
{
    if start < earliest {
        None
    } else if owns(image, start, field, slot) {
        let instruction = instruction_at(image, start)->0;
        Some(
            Anchor {
                start: start as usize,
                length: instruction.length,
                field_offset: (field - start) as usize,
                quality: quality(instruction),
            },
        )
    } else {
        owner_from(image, field, slot, earliest, start - 1)
    }
}

/// The instruction that owns the address field at `field`. x86/x64 instructions
/// top out at 15 bytes, so its start is within 15 bytes before the field.
pub open spec fn owner(image: ImageView, field: int, slot: u64) -> Option<Anchor> {
    let earliest = if field < 15 {
        0
    } else {
        field - 15
    };
    owner_from(image, field, slot, earliest, field - 1)
}

/// The anchors whose fields lie from `start` to `end`, in order.
pub open spec fn anchors_between(image: ImageView, slot: u64, start: int, end: int) -> Seq<Anchor>
    decreases end - start,
{
    if end <= start {
        Seq::empty()
    } else {
        let before = anchors_between(image, slot, start, end - 1);
        if points_at(image, end - 1, slot) {
            match owner(image, end - 1, slot) {
                Some(anchor) => before.push(anchor),
                None => before,
            }
        } else {
            before
        }
    }
}

/// Where the last field that is looked at in a section ends before its last byte.
pub open spec fn fields_end(image: ImageView, section: SectionView) -> int {
    least(section.virtual_address + section.virtual_size, image.mapped.len() as int) - 4
}

/// The anchors in these sections, in order.
pub open spec fn anchors_in(image: ImageView, slot: u64, sections: Seq<SectionView>) -> Seq<Anchor>
    decreases sections.len(),
{
    if sections.len() == 0 {
        Seq::empty()
    } else {
        anchors_in(image, slot, sections.drop_last()) + anchors_between(
            image,
            slot,
            sections.last().virtual_address as int,
            fields_end(image, sections.last()),
        )
    }
}

/// Whether `a` comes before `b` by quality and then by start.
pub open spec fn ranks_before(a: Anchor, b: Anchor) -> bool {
    a.quality < b.quality || (a.quality == b.quality && a.start < b.start)
}

/// `anchor` put in its place in a ranked row, behind those of its own rank.
pub open spec fn placed(ranked: Seq<Anchor>, anchor: Anchor) -> Seq<Anchor>
    decreases ranked.len(),
{
    if ranked.len() > 0 && ranks_before(anchor, ranked.last()) {
        placed(ranked.drop_last(), anchor).push(ranked.last())
    } else {
        ranked.push(anchor)
    }
}

/// The anchors, best first; those of one rank stay in their order.
pub open spec fn ranked(anchors: Seq<Anchor>) -> Seq<Anchor>
    decreases anchors.len(),
{
    if anchors.len() == 0 {
        Seq::empty()
    } else {
        placed(ranked(anchors.drop_last()), anchors.last())
    }
}

/// The anchors for a slot that are considered, best first.
pub open spec fn anchors_for(image: ImageView, slot: u64) -> Seq<Anchor> {
    let all = anchors_in(image, slot, image.code());
    ranked(
        if all.len() <= MAX_ANCHORS {
            all
        } else {
            all.take(MAX_ANCHORS as int)
        },
    )
}

/// The bytes from `rva` on, with those that the loader rewrites wildcarded.
pub open spec fn masked(image: ImageView, rva: int, length: int) -> Seq<Option<u8>> {
    Seq::new(
        length as nat,
        |i: int|
            if image.rewritten(rva + i) {
                None
            } else {
                Some(image.mapped[rva + i])
            },
    )
}

/// `bytes` with `width` of them from `offset` on wildcarded.
pub open spec fn blanked(bytes: Seq<Option<u8>>, offset: int, width: int) -> Seq<Option<u8>> {
    Seq::new(
        bytes.len(),
        |i: int|
            if offset <= i < offset + width {
                None
            } else {
                bytes[i]
            },
    )
}

/// `bytes` with each of these `(offset, width)` fields wildcarded.
pub open spec fn all_blanked(bytes: Seq<Option<u8>>, fields: Seq<(usize, usize)>) -> Seq<
    Option<u8>,
>
    decreases fields.len(),
{
    if fields.len() == 0 {
        bytes
    } else {
        blanked(
            all_blanked(bytes, fields.drop_last()),
            fields.last().0 as int,
            fields.last().1 as int,
        )
    }
}

/// The signed number of `width` bytes at `offset`.
pub open spec fn relative_value(bytes: Seq<u8>, offset: int, width: int) -> int {
    if width == 1 {
        if bytes[offset] < 0x80 {
            bytes[offset] as int
        } else {
            bytes[offset] - 0x100
        }
    } else if width == 2 {
        if le16(bytes, offset) < 0x8000 {
            le16(bytes, offset)
        } else {
            le16(bytes, offset) - 0x1_0000
        }
    } else {
        signed32(le32(bytes, offset))
    }
}

/// The last place up to `offset` where a number of `width` bytes stands that,
/// added to `end`, gives `target`.
pub open spec fn relative_field_from(
    bytes: Seq<u8>,
    width: int,
    end: int,
    target: int,
    offset: int,
) -> Option<usize>
    decreases offset + 1,
{
    if offset < 0 {
        None
    } else if end + relative_value(bytes, offset, width) == target {
        Some(offset as usize)
    } else {
        relative_field_from(bytes, width, end, target, offset - 1)
    }
}

/// The last place in the first `length` bytes where a number of `width` bytes
/// stands that, added to `end`, gives `target`.
pub open spec fn relative_field(
    bytes: Seq<u8>,
    length: int,
    width: int,
    end: int,
    target: int,
) -> Option<usize> {
    if width == 1 || width == 2 || width == 4 {
        relative_field_from(bytes, width, end, target, length - width)
    } else {
        None
    }
}

/// The last place up to `offset` where `value` stands as a four-byte number.
pub open spec fn immediate_field_from(bytes: Seq<u8>, value: i32, offset: int) -> Option<usize>
    decreases offset + 1,
{
    if offset < 0 {
        None
    } else if signed32(le32(bytes, offset)) == value {
        Some(offset as usize)
    } else {
        immediate_field_from(bytes, value, offset - 1)
    }
}

/// Whether the first operand of an instruction is a near branch target.
pub open spec fn is_branch(instruction: Instruction) -> bool {
    ||| instruction.operands[0] == NEAR_BRANCH_16
    ||| instruction.operands[0] == NEAR_BRANCH_32
    ||| instruction.operands[0] == NEAR_BRANCH_64
}

/// The `(offset, width)` of the widest field that gives the branch target.
pub open spec fn branch_field(bytes: Seq<u8>, length: int, end: int, target: int) -> Seq<
    (usize, usize),
> {
    match relative_field(bytes, length, 4, end, target) {
        Some(offset) => seq![(offset, 4usize)],
        None => match relative_field(bytes, length, 2, end, target) {
            Some(offset) => seq![(offset, 2usize)],
            None => match relative_field(bytes, length, 1, end, target) {
                Some(offset) => seq![(offset, 1usize)],
                None => Seq::empty(),
            },
        },
    }
}

/// Byte ranges inside one instruction that a different build may change:
/// RIP-relative displacements and branch/call targets, as `(offset, width)`
/// pairs relative to the instruction start.
pub open spec fn variable(instruction: Instruction, bytes: Seq<u8>, rva: int) -> Seq<
    (usize, usize),
> {
    let length = instruction.length as int;
    let memory = if instruction.ip_relative {
        match relative_field(bytes, length, 4, rva + length, signed64(instruction.ip_target)) {
            Some(offset) => seq![(offset, 4usize)],
            None => Seq::empty(),
        }
    } else {
        Seq::empty()
    };
    let branch = if is_branch(instruction) {
        branch_field(bytes, length, rva + length, signed64(instruction.branch_target))
    } else {
        Seq::empty()
    };
    memory + branch
}

/// Instruction bytes with everything load-time-variable wildcarded, and the
/// four bytes at `forced` too.
pub open spec fn masked_instruction(
    image: ImageView,
    rva: int,
    length: int,
    forced: Option<usize>,
) -> Seq<Option<u8>> {
    let bytes = match forced {
        Some(offset) => blanked(masked(image, rva, length), offset as int, 4),
        None => masked(image, rva, length),
    };
    match instruction_at(image, rva) {
        Some(instruction) => if instruction.length == length {
            all_blanked(
                bytes,
                variable(instruction, image.mapped.subrange(rva, rva + length), rva),
            )
        } else {
            bytes
        },
        None => bytes,
    }
}

/// A signature that is being grown.
pub struct Growth {
    pub pattern: Seq<Option<u8>>,
    /// RVA of the first byte of the pattern.
    pub start: int,
    /// Where in the pattern the four-byte field stands.
    pub field_offset: int,
}

/// The number of places at which a pattern matches.
pub open spec fn sites(image: ImageView, pattern: Seq<Option<u8>>) -> int {
    all_matches(pattern, image.mapped).len() as int
}

/// Where a signature starts: at its anchor, with the field wildcarded.
pub open spec fn seed(image: ImageView, anchor: Anchor) -> Growth {
    Growth {
        pattern: masked_instruction(
            image,
            anchor.start as int,
            anchor.length as int,
            Some(anchor.field_offset),
        ),
        start: anchor.start as int,
        field_offset: anchor.field_offset as int,
    }
}

/// The signature with the next instruction appended, where there is one that fits.
pub open spec fn extended_forward(image: ImageView, g: Growth) -> Option<Growth> {
    let cursor = g.start + g.pattern.len();
    match instruction_at(image, cursor) {
        Some(next) => if next.length > 0 && cursor + next.length <= image.mapped.len()
            && g.pattern.len() + next.length <= MAX_SIGNATURE_BYTES {
            Some(
                Growth {
                    pattern: g.pattern + masked_instruction(
                        image,
                        cursor,
                        next.length as int,
                        None,
                    ),
                    start: g.start,
                    field_offset: g.field_offset,
                },
            )
        } else {
            None
        },
        None => None,
    }
}

/// How many bytes can be put before a pattern in one step.
pub open spec fn backward_step(g: Growth) -> int {
    least(least(BACKWARD_STEP as int, g.start), MAX_SIGNATURE_BYTES - g.pattern.len())
}

/// The signature with the bytes before it prepended.
pub open spec fn extended_backward(image: ImageView, g: Growth) -> Growth {
    let step = backward_step(g);
    Growth {
        pattern: masked(image, g.start - step, step) + g.pattern,
        start: g.start - step,
        field_offset: g.field_offset + step,
    }
}

pub open spec fn expectation_text(expected: Expectation) -> Seq<char> {
    match expected {
        Expectation::Slot(rva) => "the slot at 0x"@ + capital_hex(rva as nat),
        Expectation::Immediate(value) => "the literal "@ + decimal(value as int),
    }
}

pub open spec fn still_ambiguous(expected: Expectation, count: int) -> ErrorView {
    ErrorView::Malformed(
        "signature for "@ + expectation_text(expected) + " was still ambiguous after "@ + decimal(
            MAX_SIGNATURE_BYTES as int,
        ) + " bytes ("@ + decimal(count) + " candidate sites remained)"@,
    )
}

/// The signature grown until it matches exactly once.
///
/// Forward first: appending whole instructions keeps the pattern readable and
/// leaves `patternOffset` where it started. When there is nothing ahead, or
/// what is ahead does not distinguish this site from the others, a slot gives
/// up and lets its next anchor run; a literal, which has exactly one anchor,
/// reaches backwards.
pub open spec fn grown(
    image: ImageView,
    anchor_start: int,
    expected: Expectation,
    g: Growth,
) -> std::result::Result<Growth, ErrorView>
    decreases MAX_SIGNATURE_BYTES - g.pattern.len(),
{
    let count = sites(image, g.pattern);
    if count == 1 {
        Ok(g)
    } else if count == 0 {
        Err(
            ErrorView::Malformed(
                "signature for "@ + expectation_text(expected) + " stopped matching its own anchor"@,
            ),
        )
    } else if g.pattern.len() >= MAX_SIGNATURE_BYTES {
        Err(still_ambiguous(expected, count))
    } else {
        proof {
            lemma_forward_grows(image, g);
        }
        let ahead = extended_forward(image, g);
        if ahead is Some && sites(image, ahead->0.pattern) < count {
            grown(image, anchor_start, expected, ahead->0)
        } else {
            let stuck = if ahead is Some {
                ahead->0
            } else {
                g
            };
            let left = sites(image, stuck.pattern);
            if expected is Slot {
                Err(
                    ErrorView::Malformed(
                        "the anchor at 0x"@ + capital_hex(anchor_start as nat)
                            + " cannot be made unique by growing forwards ("@ + decimal(left)
                            + " candidate sites remained)"@,
                    ),
                )
            } else if stuck.start <= 0 {
                Err(
                    ErrorView::Malformed(
                        "signature for "@ + expectation_text(expected)
                            + " is ambiguous and cannot be extended in either direction ("@
                            + decimal(left) + " candidate sites)"@,
                    ),
                )
            } else if stuck.pattern.len() >= MAX_SIGNATURE_BYTES {
                Err(still_ambiguous(expected, left))
            } else {
                grown(image, anchor_start, expected, extended_backward(image, stuck))
            }
        }
    }
}

/// What the client makes of a match at `match_start`: the address the field
/// stands for, relative to the module.
pub open spec fn client_resolution(
    image: ImageView,
    match_start: int,
    pattern_offset: int,
    address_offset: int,
) -> std::result::Result<u64, ErrorView> {
    let location = match_start + pattern_offset;
    if location < 0 || location + 4 > image.mapped.len() {
        Err(ErrorView::Malformed("signature match points outside the image"@))
    } else {
        let raw = le32(image.mapped, location);
        let resolved = match image.arch {
            Arch::X64 => signed32(raw) + location + address_offset,
            Arch::X86 => raw - image.image_base,
        };
        if 0 <= resolved < image.size_of_image {
            Ok(resolved as u64)
        } else {
            Err(
                ErrorView::Malformed(
                    "signature resolves to 0x"@ + capital_hex(
                        (resolved % 0x1_0000_0000_0000_0000) as nat,
                    ) + ", which is outside the module"@,
                ),
            )
        }
    }
}

/// The `int` that the client reads for a match at `match_start`.
pub open spec fn client_immediate(
    image: ImageView,
    match_start: int,
    pattern_offset: int,
    address_offset: int,
) -> std::result::Result<i32, ErrorView> {
    let location = match_start + pattern_offset + address_offset;
    if location < 0 {
        Err(ErrorView::Malformed("signature location is before the start of the module"@))
    } else if location + 4 > image.mapped.len() {
        Err(ErrorView::Malformed("signature match points outside the image"@))
    } else {
        Ok(signed32(le32(image.mapped, location)) as i32)
    }
}

/// What completes the address: RIP-relative displacements are measured from the
/// end of the instruction, four bytes past the start of the displacement; on
/// x86 nothing is added, and a literal is read where it lies.
pub open spec fn address_offset_for(image: ImageView, expected: Expectation) -> i64 {
    if expected is Slot && image.arch == Arch::X64 {
        4
    } else {
        0
    }
}

/// What the client gets out of a signature that matches at `match_start`, where
/// it is what was expected.
pub open spec fn checked(
    image: ImageView,
    expected: Expectation,
    match_start: int,
    field_offset: int,
) -> std::result::Result<Resolution, ErrorView> {
    let address_offset = address_offset_for(image, expected) as int;
    match expected {
        Expectation::Slot(slot) => match client_resolution(
            image,
            match_start,
            field_offset,
            address_offset,
        ) {
            Err(e) => Err(e),
            Ok(resolved) => if resolved == slot {
                Ok(Resolution::Slot(resolved))
            } else {
                Err(
                    ErrorView::Malformed(
                        "generated signature resolves to 0x"@ + capital_hex(resolved as nat)
                            + " but the slot is at 0x"@ + capital_hex(slot as nat)
                            + " -- refusing to emit it"@,
                    ),
                )
            },
        },
        Expectation::Immediate(value) => match client_immediate(
            image,
            match_start,
            field_offset,
            address_offset,
        ) {
            Err(e) => Err(e),
            Ok(read) => if read == value {
                Ok(Resolution::Immediate(read))
            } else {
                Err(
                    ErrorView::Malformed(
                        "generated signature reads "@ + decimal(read as int)
                            + " but the immediate is "@ + decimal(value as int)
                            + " -- refusing to emit it"@,
                    ),
                )
            },
        },
    }
}

/// The signature that grows from an anchor.
pub open spec fn signature_from(
    image: ImageView,
    anchor: Anchor,
    expected: Expectation,
) -> std::result::Result<SignatureView, ErrorView> {
    let g = seed(image, anchor);
    if sites(image, g.pattern) >= MATCH_PROBE_CAP {
        Err(
            ErrorView::Malformed(
                "the anchor instruction at 0x"@ + capital_hex(anchor.start as nat)
                    + " is too generic to start a signature from ("@ + decimal(
                    MATCH_PROBE_CAP as int,
                ) + "+ matches)"@,
            ),
        )
    } else {
        match grown(image, anchor.start as int, expected, g) {
            Err(e) => Err(e),
            Ok(done) => match checked(
                image,
                expected,
                all_matches(done.pattern, image.mapped)[0] as int,
                done.field_offset,
            ) {
                Err(e) => Err(e),
                Ok(resolves_to) => Ok(
                    SignatureView {
                        pattern: done.pattern,
                        pattern_offset: done.field_offset as i64,
                        address_offset: address_offset_for(image, expected),
                        resolves_to,
                        anchor_rva: anchor.start as u64,
                        literal_bytes: literals(done.pattern) as usize,
                    },
                ),
            },
        }
    }
}

/// The shortest signature that the anchors from `k` on give, or `best`; the
/// search ends at the first that is short enough.
pub open spec fn shortest_from(
    image: ImageView,
    slot: u64,
    anchors: Seq<Anchor>,
    k: int,
    best: Option<SignatureView>,
    last_error: ErrorView,
) -> std::result::Result<SignatureView, ErrorView>
    decreases anchors.len() - k,
{
    if k >= anchors.len() {
        match best {
            Some(signature) => Ok(signature),
            None => Err(last_error),
        }
    } else {
        match signature_from(image, anchors[k], Expectation::Slot(slot)) {
            Ok(signature) => {
                let better = if best is None || signature.pattern.len() < best->0.pattern.len() {
                    signature
                } else {
                    best->0
                };
                if better.pattern.len() <= SHORT_SIGNATURE_BYTES {
                    Ok(better)
                } else {
                    shortest_from(image, slot, anchors, k + 1, Some(better), last_error)
                }
            },
            Err(error) => shortest_from(image, slot, anchors, k + 1, best, error),
        }
    }
}

/// The signature for a slot.
pub open spec fn slot_signature(image: ImageView, slot: u64) -> std::result::Result<
    SignatureView,
    ErrorView,
> {
    let anchors = anchors_for(image, slot);
    if anchors.len() == 0 {
        Err(
            ErrorView::Malformed(
                "no instruction in any code section loads the type-info slot at 0x"@ + capital_hex(
                    slot as nat,
                )
                    + "; the type exists in the metadata but its class pointer is never read, so there is nothing to anchor a signature to"@,
            ),
        )
    } else {
        shortest_from(
            image,
            slot,
            anchors.take(least(MAX_CANDIDATES as int, anchors.len() as int)),
            0,
            None,
            ErrorView::Malformed(
                "could not build a unique signature for the slot at 0x"@ + capital_hex(slot as nat)
                    + " within "@ + decimal(MAX_SIGNATURE_BYTES as int) + " bytes"@,
            ),
        )
    }
}

/// How many of the first `n` operands are 32-bit literals.
pub open spec fn literal_operands(instruction: Instruction, n: nat) -> nat
    decreases n,
{
    if n == 0 {
        0
    } else {
        literal_operands(instruction, (n - 1) as nat) + (if instruction.operands[n - 1]
            == IMMEDIATE_32 {
            1nat
        } else {
            0nat
        })
    }
}

/// The 32-bit literal an instruction carries, if it has exactly one.
pub open spec fn literal_of(instruction: Instruction) -> Option<i32> {
    if literal_operands(instruction, instruction.op_count as nat) == 1 {
        Some(signed32(instruction.immediate32 as int) as i32)
    } else {
        None
    }
}

/// The signature over the first 32-bit literal in the next `steps` instructions
/// from `cursor` on.
pub open spec fn literal_signature_from(
    image: ImageView,
    method_rva: u64,
    cursor: int,
    steps: nat,
) -> std::result::Result<SignatureView, ErrorView>
    decreases steps,
{
    let none = Err(
        ErrorView::Malformed(
            "the method at 0x"@ + capital_hex(method_rva as nat)
                + " does not start with an instruction carrying a 32-bit literal, so there is nothing to anchor a signature on"@,
        ),
    );
    if steps == 0 {
        none
    } else {
        match instruction_at(image, cursor) {
            None => none,
            Some(instruction) => if instruction.length == 0 {
                none
            } else {
                let length = instruction.length as int;
                let bytes = image.mapped.subrange(cursor, cursor + length);
                let field = match literal_of(instruction) {
                    Some(value) => immediate_field_from(bytes, value, length - 4),
                    None => None,
                };
                match field {
                    Some(field_offset) => signature_from(
                        image,
                        Anchor {
                            start: cursor as usize,
                            length: instruction.length,
                            field_offset,
                            quality: 0,
                        },
                        Expectation::Immediate(literal_of(instruction)->0),
                    ),
                    None => literal_signature_from(
                        image,
                        method_rva,
                        cursor + length,
                        (steps - 1) as nat,
                    ),
                }
            },
        }
    }
}

/// The signature over a 32-bit literal inside a known method. A few
/// instructions are looked at rather than only the first: a different compiler
/// could emit a prologue before loading the constant.
pub open spec fn literal_signature(image: ImageView, method_rva: u64) -> std::result::Result<
    SignatureView,
    ErrorView,
> {
    literal_signature_from(image, method_rva, method_rva as int, 8)
}

/// The pattern spells out the bytes from `start` on, and none that the loader rewrites.
pub open spec fn faithful(image: ImageView, pattern: Seq<Option<u8>>, start: int) -> bool {
    &&& 0 <= start
    &&& start + pattern.len() <= image.mapped.len()
    &&& forall|i: int|
        0 <= i < pattern.len() && (#[trigger] pattern[i]) is Some ==> pattern[i] == Some(
            image.mapped[start + i],
        ) && !image.rewritten(start + i)
}

/// What is promised of every signature that is emitted: it matches at exactly
/// one place, the client's arithmetic at that place gives what was asked for,
/// the four bytes that the client reads are wildcards, no byte that the loader
/// rewrites is spelled out, and it is not longer than the longest that is
/// allowed. It is made of whole instructions, and beside those bytes exactly the
/// displacements and branch targets that the linker settles are wildcards.
pub open spec fn trustworthy(
    image: ImageView,
    signature: SignatureView,
    expected: Expectation,
) -> bool {
    let sites = all_matches(signature.pattern, image.mapped);
    &&& sites.len() == 1
    &&& faithful(image, signature.pattern, sites[0] as int)
    &&& match expected {
        Expectation::Slot(slot) => signature.resolves_to == Resolution::Slot(slot)
            && client_resolution(
            image,
            sites[0] as int,
            signature.pattern_offset as int,
            signature.address_offset as int,
        ) == Ok::<u64, ErrorView>(slot),
        Expectation::Immediate(value) => signature.resolves_to == Resolution::Immediate(value)
            && client_immediate(
            image,
            sites[0] as int,
            signature.pattern_offset as int,
            signature.address_offset as int,
        ) == Ok::<i32, ErrorView>(value),
    }
    &&& 0 <= signature.pattern_offset
    &&& signature.pattern_offset + 4 <= signature.pattern.len() <= MAX_SIGNATURE_BYTES
    &&& forall|i: int|
        signature.pattern_offset <= i < signature.pattern_offset + 4
            ==> signature.pattern[i] is None
    &&& signature.literal_bytes == literals(signature.pattern)
    &&& exists|cuts: Seq<int>|
        #[trigger] made_of(image, signature, expected, sites[0] as int, cuts)
}

/// A signature still matches at its place after the loader has rewritten the
/// relocated bytes, whatever it wrote there.
pub proof fn signatures_survive_relocation(
    image: ImageView,
    signature: SignatureView,
    expected: Expectation,
    loaded: Seq<u8>,
)
    requires
        trustworthy(image, signature, expected),
        loaded.len() == image.mapped.len(),
        forall|i: int|
            0 <= i < loaded.len() && !image.rewritten(i) ==> #[trigger] loaded[i]
                == image.mapped[i],
    ensures
        fits(
            signature.pattern,
            loaded,
            all_matches(signature.pattern, image.mapped)[0] as int,
        ),
{
    let at = all_matches(signature.pattern, image.mapped)[0] as int;
    assert forall|i: int| 0 <= i < signature.pattern.len() implies (
    #[trigger] signature.pattern[i] is None || signature.pattern[i] == Some(loaded[at + i])) by {
        if signature.pattern[i] is Some {
            assert(loaded[at + i] == image.mapped[at + i]);
        }
    }
}

proof fn lemma_all_blanked(bytes: Seq<Option<u8>>, fields: Seq<(usize, usize)>)
    ensures
        all_blanked(bytes, fields).len() == bytes.len(),
        forall|i: int|
            0 <= i < bytes.len() && (#[trigger] all_blanked(bytes, fields)[i]) is Some
                ==> all_blanked(bytes, fields)[i] == bytes[i],
    decreases fields.len(),
{
    if fields.len() > 0 {
        lemma_all_blanked(bytes, fields.drop_last());
    }
}

proof fn lemma_masked_instruction(
    image: ImageView,
    rva: int,
    length: int,
    forced: Option<usize>,
)
    requires
        0 <= length,
    ensures
        masked_instruction(image, rva, length, forced).len() == length,
        forall|i: int|
            0 <= i < length && (#[trigger] masked_instruction(image, rva, length, forced)[i])
                is Some ==> masked_instruction(image, rva, length, forced)[i] == Some(
                image.mapped[rva + i],
            ) && !image.rewritten(rva + i),
        forced is Some ==> forall|i: int|
            forced->0 <= i < forced->0 + 4 && i < length
                ==> #[trigger] masked_instruction(image, rva, length, forced)[i] is None,
{
    let bytes = match forced {
        Some(offset) => blanked(masked(image, rva, length), offset as int, 4),
        None => masked(image, rva, length),
    };
    if let Some(instruction) = instruction_at(image, rva) {
        lemma_all_blanked(
            bytes,
            variable(instruction, image.mapped.subrange(rva, rva + length), rva),
        );
    }
}

pub proof fn lemma_forward_grows(image: ImageView, g: Growth)
    ensures
        extended_forward(image, g) matches Some(ahead) ==> ahead.pattern.len() > g.pattern.len()
            && ahead.pattern.len() <= MAX_SIGNATURE_BYTES,
{
    let cursor = (g.start + g.pattern.len()) as int;
    if let Some(next) = instruction_at(image, cursor) {
        lemma_masked_instruction(image, cursor, next.length as int, None);
    }
}

/// A faithful pattern matches where it was taken from.
proof fn lemma_faithful_fits(image: ImageView, pattern: Seq<Option<u8>>, start: int)
    requires
        faithful(image, pattern, start),
    ensures
        fits(pattern, image.mapped, start),
{
    assert forall|i: int| 0 <= i < pattern.len() implies (#[trigger] pattern[i] is None
        || pattern[i] == Some(image.mapped[start + i])) by {}
}

fn signed_at(bytes: &[u8], offset: usize, width: usize) -> (r: i64)
    requires
        width == 1 || width == 2 || width == 4,
        offset + width <= bytes@.len(),
    ensures
        r == relative_value(bytes@, offset as int, width as int),
{
    let _limit: usize = bytes.len();
    if width == 1 {
        let byte: u8 = bytes[offset];
        if byte < 0x80 {
            byte as i64
        } else {
            byte as i64 - 0x100
        }
    } else if width == 2 {
        let value: u16 = bytes[offset] as u16 + 0x100 * bytes[offset + 1] as u16;
        if value < 0x8000 {
            value as i64
        } else {
            value as i64 - 0x1_0000
        }
    } else {
        as_signed(get32(bytes, offset)) as i64
    }
}

/// The last place in the first `length` bytes where a number of `width` bytes
/// stands that, added to `end`, gives `target`.
///
/// Searched from the back: displacements and relatives sit late in the
/// encoding, and the last match is the real field if an earlier byte sequence
/// coincidentally works out.
pub fn find_relative_field(
    bytes: &[u8],
    length: usize,
    width: usize,
    end: i64,
    target: i64,
) -> (r: Option<usize>)
    requires
        length <= bytes@.len(),
    ensures
        r == relative_field(bytes@, length as int, width as int, end as int, target as int),
{
    relative_place(bytes, length, width, end as i128, target as i128)
}

fn relative_place(bytes: &[u8], length: usize, width: usize, end: i128, target: i128) -> (r: Option<
    usize,
>)
    requires
        length <= bytes@.len(),
        i64::MIN <= end <= 2 * u64::MAX,
    ensures
        r == relative_field(bytes@, length as int, width as int, end as int, target as int),
{
    if length < width || !(width == 1 || width == 2 || width == 4) {
        return None;
    }
    let mut offset: usize = length - width;
    loop
        invariant
            width == 1 || width == 2 || width == 4,
            offset + width <= length <= bytes@.len(),
            i64::MIN <= end <= 2 * u64::MAX,
            relative_field_from(
                bytes@,
                width as int,
                end as int,
                target as int,
                offset as int,
            ) == relative_field(bytes@, length as int, width as int, end as int, target as int),
        decreases offset,
    {
        let value: i64 = signed_at(bytes, offset, width);
        if end + value as i128 == target {
            return Some(offset);
        }
        if offset == 0 {
            assert(relative_field_from(
                bytes@,
                width as int,
                end as int,
                target as int,
                -1,
            ) is None);
            return None;
        }
        offset -= 1;
    }
}

/// Byte offset of a literal inside an instruction's encoding.
///
/// Searched from the back because immediates are encoded last; an earlier
/// coincidental match would point at the wrong bytes.
pub fn find_immediate_field(bytes: &[u8], length: usize, value: i32) -> (r: Option<usize>)
    requires
        length <= bytes@.len(),
    ensures
        r == immediate_field_from(bytes@, value, length - 4),
        r is Some ==> r->0 + 4 <= length,
{
    if length < 4 {
        return None;
    }
    let mut offset: usize = length - 4;
    loop
        invariant
            offset + 4 <= length <= bytes@.len(),
            immediate_field_from(bytes@, value, offset as int) == immediate_field_from(
                bytes@,
                value,
                length - 4,
            ),
        decreases offset,
    {
        if as_signed(get32(bytes, offset)) == value {
            return Some(offset);
        }
        if offset == 0 {
            assert(immediate_field_from(bytes@, value, -1) is None);
            return None;
        }
        offset -= 1;
    }
}

fn as_signed64(n: u64) -> (r: i64)
    ensures
        r == signed64(n),
{
    if n < 0x8000_0000_0000_0000 {
        n as i64
    } else {
        (n as i128 - 0x1_0000_0000_0000_0000) as i64
    }
}

/// `n` modulo `2^64`.
fn wrapped64(n: i128) -> (r: u64)
    requires
        -0x4_0000_0000_0000_0000 <= n <= 0x4_0000_0000_0000_0000,
    ensures
        r == n as int % 0x1_0000_0000_0000_0000,
{
    let moved: i128 = n + 0x8_0000_0000_0000_0000;
    let rest: i128 = moved % 0x1_0000_0000_0000_0000;
    assert(rest == n as int % 0x1_0000_0000_0000_0000);
    rest as u64
}

/// Lower is better.
fn anchor_quality(instruction: &Instruction) -> (r: u8)
    ensures
        r == quality(*instruction),
{
    let is_mov = instruction.is_mov;
    let loads_into_register = instruction.op_count == 2 && instruction.operands[0]
        == REGISTER && instruction.operands[1] == MEMORY;
    match (is_mov, loads_into_register) {
        (true, true) => 0,
        (false, true) => 1,
        (true, false) => 2,
        _ => 3,
    }
}

/// Byte ranges inside one instruction that a different build may change.
///
/// The field is located by arithmetic rather than by asking the decoder for an
/// encoding offset: try each candidate position and keep the one that
/// reproduces the target the decoder reported. That is exact, and it does not
/// depend on how the instruction happens to be encoded.
fn variable_fields(instruction: &Instruction, bytes: &[u8], rva: usize) -> (r: Vec<(usize, usize)>)
    requires
        instruction.length == bytes@.len(),
    ensures
        r@ == variable(*instruction, bytes@, rva as int),
{
    let mut fields: Vec<(usize, usize)> = Vec::new();
    let length: usize = instruction.length;
    let end: i128 = rva as i128 + length as i128;
    if instruction.ip_relative {
        let target: i128 = as_signed64(instruction.ip_target) as i128;
        if let Some(offset) = relative_place(bytes, length, 4, end, target) {
            fields.push((offset, 4));
        }
    }
    let ghost memory = fields@;
    let first: u32 = instruction.operands[0];
    if first == NEAR_BRANCH_16 || first == NEAR_BRANCH_32 || first
        == NEAR_BRANCH_64 {
        let target: i128 = as_signed64(instruction.branch_target) as i128;
        if let Some(offset) = relative_place(bytes, length, 4, end, target) {
            fields.push((offset, 4));
        } else if let Some(offset) = relative_place(bytes, length, 2, end, target) {
            fields.push((offset, 2));
        } else if let Some(offset) = relative_place(bytes, length, 1, end, target) {
            fields.push((offset, 1));
        }
    }
    assert(fields@ =~= variable(*instruction, bytes@, rva as int));
    fields
}

/// Whether a stuck signature may reach back before its anchor: only when there
/// is no second anchor to fall back on.
fn allows_backward_growth(expected: Expectation) -> (r: bool)
    ensures
        r == !(expected is Slot),
{
    match expected {
        Expectation::Slot(_) => false,
        Expectation::Immediate(_) => true,
    }
}

fn describe_expectation(expected: Expectation) -> (r: String)
    ensures
        r@ == expectation_text(expected),
{
    match expected {
        Expectation::Slot(rva) => {
            let mut out = "the slot at 0x".to_owned();
            out.append(capital_hex_text(rva as u128).as_str());
            out
        },
        Expectation::Immediate(value) => {
            let mut out = "the literal ".to_owned();
            out.append(decimal_text(value as i128).as_str());
            out
        },
    }
}

/// The 32-bit literal an instruction carries, if it has exactly one.
fn immediate32(instruction: &Instruction) -> (r: Option<i32>)
    requires
        instruction.op_count <= 5,
    ensures
        r == literal_of(*instruction),
{
    let mut found: usize = 0;
    let mut index: usize = 0;
    while index < instruction.op_count as usize
        invariant
            instruction.op_count <= 5,
            index <= instruction.op_count,
            found == literal_operands(*instruction, index as nat),
            found <= index,
        decreases instruction.op_count - index,
    {
        if instruction.operands[index] == IMMEDIATE_32 {
            found += 1;
        }
        index += 1;
    }
    if found == 1 {
        Some(as_signed(instruction.immediate32))
    } else {
        None
    }
}

fn blank(bytes: &mut Vec<Option<u8>>, offset: usize, width: usize)
    ensures
        final(bytes)@ == blanked(old(bytes)@, offset as int, width as int),
{
    let ghost before = bytes@;
    let limit: usize = bytes.len();
    let mut i: usize = 0;
    while i < limit
        invariant
            i <= limit == before.len() == bytes@.len(),
            forall|j: int|
                0 <= j < limit ==> #[trigger] bytes@[j] == (if j < i && offset <= j < offset
                    + width {
                    None
                } else {
                    before[j]
                }),
        decreases limit - i,
    {
        if offset <= i && i - offset < width {
            bytes.set(i, None);
        }
        i += 1;
    }
    assert(bytes@ =~= blanked(before, offset as int, width as int));
}

fn rank(anchors: Vec<Anchor>) -> (r: Vec<Anchor>)
    ensures
        r@ == ranked(anchors@),
{
    let mut sorted: Vec<Anchor> = Vec::new();
    for i in 0..anchors.len()
        invariant
            sorted@ == ranked(anchors@.take(i as int)),
    {
        let anchor: Anchor = anchors[i];
        assert(anchors@.take(i + 1).drop_last() =~= anchors@.take(i as int));
        place(&mut sorted, anchor);
    }
    assert(anchors@.take(anchors@.len() as int) =~= anchors@);
    sorted
}

fn place(sorted: &mut Vec<Anchor>, anchor: Anchor)
    ensures
        final(sorted)@ == placed(old(sorted)@, anchor),
{
    let ghost before = sorted@;
    let mut at: usize = sorted.len();
    assert(before.take(at as int) =~= before);
    assert(before.skip(at as int) =~= Seq::empty());
    assert(placed(before.take(at as int), anchor) + before.skip(at as int) =~= placed(
        before,
        anchor,
    ));
    while at > 0 && (anchor.quality < sorted[at - 1].quality || (anchor.quality == sorted[at
        - 1].quality && anchor.start < sorted[at - 1].start))
        invariant
            at <= sorted@.len(),
            sorted@ == before,
            placed(before.take(at as int), anchor) + before.skip(at as int) == placed(
                before,
                anchor,
            ),
        decreases at,
    {
        assert(before.take(at as int).drop_last() =~= before.take(at - 1));
        assert(placed(before.take(at - 1), anchor).push(before[at - 1]) + before.skip(at as int)
            =~= placed(before.take(at - 1), anchor) + before.skip(at - 1));
        at -= 1;
    }
    assert(placed(before.take(at as int), anchor) == before.take(at as int).push(anchor));
    sorted.insert(at, anchor);
    assert(sorted@ =~= before.take(at as int).push(anchor) + before.skip(at as int));
}

pub struct SignatureGenerator<'a> {
    image: &'a Image,
}

impl<'a> View for SignatureGenerator<'a> {
    type V = ImageView;

    closed spec fn view(&self) -> ImageView {
        self.image@
    }
}

/// The whole instruction of an anchor lies in the image, and its field in the instruction.
pub open spec fn lies_in(anchor: Anchor, image: ImageView) -> bool {
    &&& anchor.start + anchor.length <= image.mapped.len()
    &&& anchor.field_offset + 4 <= anchor.length
    &&& anchor.length <= 15
    &&& instruction_at(image, anchor.start as int) matches Some(instruction) && instruction.length
        == anchor.length
}

proof fn lemma_anchors_between_prefix(image: ImageView, slot: u64, start: int, a: int, b: int)
    requires
        a <= b,
    ensures
        anchors_between(image, slot, start, a).is_prefix_of(
            anchors_between(image, slot, start, b),
        ),
    decreases b - a,
{
    if a < b {
        lemma_anchors_between_prefix(image, slot, start, a, b - 1);
    }
}

proof fn lemma_anchors_in_prefix(image: ImageView, slot: u64, sections: Seq<SectionView>, k: int)
    requires
        0 <= k <= sections.len(),
    ensures
        anchors_in(image, slot, sections.take(k)).is_prefix_of(anchors_in(image, slot, sections)),
    decreases sections.len() - k,
{
    if k < sections.len() {
        lemma_anchors_in_prefix(image, slot, sections, k + 1);
        assert(sections.take(k + 1).drop_last() =~= sections.take(k));
    } else {
        assert(sections.take(k) =~= sections);
    }
}

impl<'a> SignatureGenerator<'a> {
    pub fn new(image: &'a Image) -> (r: Self)
        ensures
            r@ == image@,
    {
        Self { image }
    }

    fn decode_at(&self, rva: usize) -> (r: Option<Instruction>)
        ensures
            r == instruction_at(self@, rva as int),
            r matches Some(instruction) ==> rva + instruction.length <= self@.mapped.len()
                && instruction.length <= 15 && instruction.op_count <= 5 && instruction.next_ip
                == rva + instruction.length,
    {
        let mapped = self.image.mapped();
        let limit: usize = mapped.len();
        if rva >= limit {
            return None;
        }
        let end: usize = if limit - rva <= 16 {
            limit
        } else {
            rva + 16
        };
        let instruction: Instruction = decode_instruction(
            self.image.arch().bitness(),
            slice_subrange(mapped, rva, end),
            rva as u64,
        );
        if instruction.invalid {
            None
        } else {
            Some(instruction)
        }
    }

    fn field_points_at(&self, field_rva: usize, slot_rva: u64) -> (r: bool)
        ensures
            r == points_at(self@, field_rva as int, slot_rva),
    {
        match self.image.arch() {
            Arch::X86 => match self.image.read_u32(field_rva) {
                Some(value) => value as u128 == self.image.image_base() as u128 + slot_rva as u128
                    && self.image.is_relocated(field_rva),
                None => false,
            },
            Arch::X64 => match self.image.read_i32(field_rva) {
                Some(displacement) => field_rva as i128 + 4 + displacement as i128 == as_signed64(
                    slot_rva,
                ) as i128,
                None => false,
            },
        }
    }

    fn instruction_targets(&self, instruction: &Instruction, slot_rva: u64) -> (r: bool)
        ensures
            r == targets(self@, *instruction, slot_rva),
    {
        match self.image.arch() {
            Arch::X86 => instruction.displacement as u128 == self.image.image_base() as u128
                + slot_rva as u128 && instruction.base_free && instruction.index_free,
            Arch::X64 => instruction.ip_relative && instruction.ip_target == slot_rva,
        }
    }

    /// Finds the instruction that owns the address field at `field_rva`.
    ///
    /// The address has to be the instruction's final field. That rules out
    /// forms with a trailing immediate (`mov [addr], imm32`) and keeps us on
    /// plain loads, which are both the common case and the stable one.
    fn decode_backwards(&self, field_rva: usize, slot_rva: u64) -> (r: Option<Anchor>)
        requires
            field_rva + 4 <= self@.mapped.len(),
        ensures
            r == owner(self@, field_rva as int, slot_rva),
            r matches Some(anchor) ==> lies_in(anchor, self@),
    {
        let limit: usize = self.image.mapped().len();
        let earliest: usize = if field_rva < 15 {
            0
        } else {
            field_rva - 15
        };
        let mut start: usize = field_rva;
        while start > earliest
            invariant
                earliest <= start <= field_rva <= earliest + 15,
                field_rva + 4 <= self@.mapped.len() == limit,
                owner_from(
                    self@,
                    field_rva as int,
                    slot_rva,
                    earliest as int,
                    start - 1,
                ) == owner(self@, field_rva as int, slot_rva),
            decreases start,
        {
            start -= 1;
            if let Some(instruction) = self.decode_at(start) {
                if instruction.next_ip == (field_rva + 4) as u64 && self.instruction_targets(
                    &instruction,
                    slot_rva,
                ) {
                    return Some(
                        Anchor {
                            start,
                            length: instruction.length,
                            field_offset: field_rva - start,
                            quality: anchor_quality(&instruction),
                        },
                    );
                }
            }
        }
        None
    }

    /// Instruction starts whose memory operand points at `slot_rva`.
    ///
    /// Found by locating the address field first and then decoding backwards,
    /// which is far cheaper and more reliable than a linear sweep of 32 MB of
    /// code that has data interleaved in it.
    #[verifier::rlimit(40)]
    fn find_anchors(&self, slot_rva: u64) -> (r: Vec<Anchor>)
        ensures
            r@ == anchors_for(self@, slot_rva),
            forall|i: int| 0 <= i < r@.len() ==> lies_in(#[trigger] r@[i], self@),
    {
        let limit: usize = self.image.mapped().len();
        let mut anchors: Vec<Anchor> = Vec::new();
        let sections = self.image.code_sections();
        let ghost code = self@.code();
        let ghost all = anchors_in(self@, slot_rva, code);
        assert(code.take(0) =~= Seq::empty());
        for k in 0..sections.len()
            invariant
                limit == self@.mapped.len(),
                code == section_ref_views(sections@),
                all == anchors_in(self@, slot_rva, code),
                anchors@ == anchors_in(self@, slot_rva, code.take(k as int)),
                anchors@.len() < MAX_ANCHORS,
                code == self@.code(),
                forall|i: int| 0 <= i < anchors@.len() ==> lies_in(#[trigger] anchors@[i], self@),
        {
            let section = sections[k];
            assert(section@ == code[k as int]);
            assert(code.take(k + 1).drop_last() =~= code.take(k as int));
            assert(code.take(k + 1).last() == section@);
            let ghost before = anchors@;
            let start: u64 = section.virtual_address as u64;
            let total: u64 = start + section.virtual_size as u64;
            let end: u64 = if total <= limit as u64 {
                total
            } else {
                limit as u64
            };
            let mut field: u64 = start;
            assert(anchors@ =~= before + anchors_between(
                self@,
                slot_rva,
                start as int,
                start as int,
            ));
            if end > 4 {
                while field < end - 4
                    invariant
                        limit == self@.mapped.len(),
                        4 < end <= limit,
                        start <= field,
                        field <= end - 4 || field == start,
                        end - 4 == fields_end(self@, section@),
                        start == section@.virtual_address,
                        anchors@ == before + anchors_between(
                            self@,
                            slot_rva,
                            start as int,
                            field as int,
                        ),
                        anchors@.len() < MAX_ANCHORS,
                        code == self@.code(),
                        0 <= k < code.len(),
                        code.take(k + 1).drop_last() == code.take(k as int),
                        code.take(k + 1).last() == section@,
                        before == anchors_in(self@, slot_rva, code.take(k as int)),
                        all == anchors_in(self@, slot_rva, code),
                        forall|i: int|
                            0 <= i < anchors@.len() ==> lies_in(#[trigger] anchors@[i], self@),
                    decreases end - field,
                {
                    let ghost middle = anchors@;
                    let at: usize = field as usize;
                    if self.field_points_at(at, slot_rva) {
                        if let Some(anchor) = self.decode_backwards(at, slot_rva) {
                            anchors.push(anchor);
                            assert(anchors@ =~= before + anchors_between(
                                self@,
                                slot_rva,
                                start as int,
                                field + 1,
                            ));
                            if anchors.len() >= MAX_ANCHORS {
                                proof {
                                    lemma_anchors_between_prefix(
                                        self@,
                                        slot_rva,
                                        start as int,
                                        field + 1,
                                        end - 4,
                                    );
                                    lemma_anchors_in_prefix(self@, slot_rva, code, k + 1);
                                    assert(anchors@.is_prefix_of(all));
                                    assert(all.take(MAX_ANCHORS as int) =~= anchors@);
                                    assert(all.len() <= MAX_ANCHORS ==> all =~= anchors@);
                                }
                                let ghost kept = anchors@;
                                let best = rank(anchors);
                                proof {
                                    lemma_ranked_members(kept, |a: Anchor| lies_in(a, self@));
                                }
                                return best;
                            }
                        }
                    }
                    field += 1;
                    assert(anchors@ =~= before + anchors_between(
                        self@,
                        slot_rva,
                        start as int,
                        field as int,
                    ));
                }
            }
            proof {
                assert(anchors@ =~= before + anchors_between(
                    self@,
                    slot_rva,
                    start as int,
                    fields_end(self@, section@),
                )) by {
                    if field > fields_end(self@, section@) {
                        lemma_no_fields(
                            self@,
                            slot_rva,
                            start as int,
                            field as int,
                            fields_end(self@, section@),
                        );
                    }
                }
            }
        }
        assert(code.take(code.len() as int) =~= code);
        let ghost kept = anchors@;
        let best = rank(anchors);
        proof {
            lemma_ranked_members(kept, |a: Anchor| lies_in(a, self@));
        }
        best
    }
}

impl<'a> SignatureGenerator<'a> {
    /// The `getLocation` path of `findPattern`: the field is read as an `int`
    /// at `match + patternOffset + addressOffset` and used as-is.
    pub fn read_immediate(
        &self,
        match_start: usize,
        pattern_offset: i64,
        address_offset: i64,
    ) -> (r: Result<i32>)
        ensures
            agrees(
                r,
                client_immediate(
                    self@,
                    match_start as int,
                    pattern_offset as int,
                    address_offset as int,
                ),
            ),
    {
        let location: i128 = match_start as i128 + pattern_offset as i128 + address_offset as i128;
        if location < 0 {
            return Err(
                Error::malformed("signature location is before the start of the module".to_owned()),
            );
        }
        if location + 4 > self.image.mapped().len() as i128 {
            return Err(Error::malformed("signature match points outside the image".to_owned()));
        }
        Ok(as_signed(get32(self.image.mapped(), location as usize)))
    }

    /// What the client's `GameReader.findPattern` computes, as an independent check.
    pub fn resolve_like_the_client(
        &self,
        match_start: usize,
        pattern_offset: i64,
        address_offset: i64,
    ) -> (r: Result<u64>)
        ensures
            agrees(
                r,
                client_resolution(
                    self@,
                    match_start as int,
                    pattern_offset as int,
                    address_offset as int,
                ),
            ),
    {
        let location: i128 = match_start as i128 + pattern_offset as i128;
        if location < 0 || location + 4 > self.image.mapped().len() as i128 {
            return Err(Error::malformed("signature match points outside the image".to_owned()));
        }
        let raw: u32 = get32(self.image.mapped(), location as usize);
        let resolved: i128 = match self.image.arch() {
            Arch::X64 => as_signed(raw) as i128 + location + address_offset as i128,
            Arch::X86 => raw as i128 - self.image.image_base() as i128,
        };
        if resolved < 0 || resolved >= self.image.size_of_image() as i128 {
            let mut message = "signature resolves to 0x".to_owned();
            message.append(capital_hex_text(wrapped64(resolved) as u128).as_str());
            message.append(", which is outside the module");
            return Err(Error::malformed(message));
        }
        Ok(resolved as u64)
    }

    /// Raw bytes with relocated ones wildcarded, without decoding.
    ///
    /// Used when extending backwards, where instruction boundaries are unknown.
    /// Relocations are the only thing that has to be masked for correctness --
    /// they are what the loader rewrites when the module is rebased. Everything
    /// else is stable for the lifetime of the build the signature was made for.
    fn mask_bytes(&self, rva: usize, length: usize) -> (r: Vec<Option<u8>>)
        requires
            rva + length <= self@.mapped.len(),
        ensures
            r@ == masked(self@, rva as int, length as int),
    {
        let mapped = self.image.mapped();
        let limit: usize = mapped.len();
        let mut bytes: Vec<Option<u8>> = Vec::new();
        let mut i: usize = 0;
        while i < length
            invariant
                i <= length,
                mapped@ == self@.mapped,
                rva + length <= mapped@.len() == limit,
                bytes@ == masked(self@, rva as int, i as int),
            decreases length - i,
        {
            if self.image.is_relocated(rva + i) {
                bytes.push(None);
            } else {
                bytes.push(Some(mapped[rva + i]));
            }
            i += 1;
            assert(bytes@ =~= masked(self@, rva as int, i as int));
        }
        bytes
    }

    /// Instruction bytes with everything load-time-variable wildcarded.
    fn mask_instruction(&self, rva: usize, length: usize, force_wildcard_at: Option<usize>) -> (r:
        Vec<Option<u8>>)
        requires
            rva + length <= self@.mapped.len(),
        ensures
            r@ == masked_instruction(self@, rva as int, length as int, force_wildcard_at),
    {
        let mapped = self.image.mapped();
        let _limit: usize = mapped.len();
        let mut bytes = self.mask_bytes(rva, length);
        if let Some(offset) = force_wildcard_at {
            blank(&mut bytes, offset, 4);
        }
        let ghost forced = bytes@;
        if let Some(instruction) = self.decode_at(rva) {
            if instruction.length == length {
                let fields = variable_fields(
                    &instruction,
                    slice_subrange(mapped, rva, rva + length),
                    rva,
                );
                let ghost all = fields@;
                for i in 0..fields.len()
                    invariant
                        all == fields@,
                        bytes@ == all_blanked(forced, all.take(i as int)),
                {
                    assert(all.take(i + 1).drop_last() =~= all.take(i as int));
                    blank(&mut bytes, fields[i].0, fields[i].1);
                }
                assert(all.take(all.len() as int) =~= all);
            }
        }
        bytes
    }

    /// What the client gets out of the signature, where it is what was expected.
    fn check(&self, expected: Expectation, match_start: usize, field_offset: usize) -> (r: Result<
        Resolution,
    >)
        requires
            field_offset <= i64::MAX,
        ensures
            agrees(r, checked(self@, expected, match_start as int, field_offset as int)),
    {
        let pattern_offset: i64 = field_offset as i64;
        let address_offset: i64 = self.address_offset(expected);
        match expected {
            Expectation::Slot(slot_rva) => {
                let resolved: u64 = self.resolve_like_the_client(
                    match_start,
                    pattern_offset,
                    address_offset,
                )?;
                if resolved != slot_rva {
                    let mut message = "generated signature resolves to 0x".to_owned();
                    message.append(capital_hex_text(resolved as u128).as_str());
                    message.append(" but the slot is at 0x");
                    message.append(capital_hex_text(slot_rva as u128).as_str());
                    message.append(" -- refusing to emit it");
                    return Err(Error::malformed(message));
                }
                Ok(Resolution::Slot(resolved))
            },
            Expectation::Immediate(value) => {
                let read: i32 = self.read_immediate(match_start, pattern_offset, address_offset)?;
                if read != value {
                    let mut message = "generated signature reads ".to_owned();
                    message.append(decimal_text(read as i128).as_str());
                    message.append(" but the immediate is ");
                    message.append(decimal_text(value as i128).as_str());
                    message.append(" -- refusing to emit it");
                    return Err(Error::malformed(message));
                }
                Ok(Resolution::Immediate(read))
            },
        }
    }

    fn address_offset(&self, expected: Expectation) -> (r: i64)
        ensures
            r == address_offset_for(self@, expected),
    {
        match expected {
            Expectation::Slot(_) => match self.image.arch() {
                Arch::X64 => 4,
                Arch::X86 => 0,
            },
            Expectation::Immediate(_) => 0,
        }
    }

    /// Moves candidate starts back by `step`; anything that would run off the
    /// front of the image, or no longer matches, is not a candidate any more.
    fn move_back(&self, pattern: &Pattern, positions: &Vec<usize>, step: usize) -> (r: Vec<usize>)
        ensures
            r@ == moved_back(positions@, step as int, pattern@, self@.mapped),
    {
        let mapped = self.image.mapped();
        let mut kept: Vec<usize> = Vec::new();
        for i in 0..positions.len()
            invariant
                mapped@ == self@.mapped,
                kept@ == moved_back(positions@.take(i as int), step as int, pattern@, self@.mapped),
        {
            assert(positions@.take(i + 1).drop_last() =~= positions@.take(i as int));
            let position: usize = positions[i];
            if position >= step && pattern.matches_at(mapped, position - step) {
                kept.push(position - step);
            }
        }
        assert(positions@.take(positions@.len() as int) =~= positions@);
        kept
    }
}

/// What the growth loop keeps of a pattern that starts at `start` and has its
/// field at `field_offset`.
spec fn well_grown(image: ImageView, pattern: Seq<Option<u8>>, start: int, field_offset: int) -> bool {
    &&& faithful(image, pattern, start)
    &&& 0 <= field_offset
    &&& field_offset + 4 <= pattern.len() <= MAX_SIGNATURE_BYTES
    &&& forall|i: int| field_offset <= i < field_offset + 4 ==> #[trigger] pattern[i] is None
}

proof fn lemma_seed(image: ImageView, anchor: Anchor)
    requires
        lies_in(anchor, image),
    ensures
        well_grown(
            image,
            seed(image, anchor).pattern,
            anchor.start as int,
            anchor.field_offset as int,
        ),
{
    lemma_masked_instruction(
        image,
        anchor.start as int,
        anchor.length as int,
        Some(anchor.field_offset),
    );
}

/// Appending a masked instruction keeps a pattern well grown, and its matches
/// are those of the shorter pattern at which it still fits.
proof fn lemma_append(
    image: ImageView,
    pattern: Seq<Option<u8>>,
    more: Seq<Option<u8>>,
    start: int,
    field_offset: int,
)
    requires
        well_grown(image, pattern, start, field_offset),
        image.mapped.len() <= usize::MAX,
        start + pattern.len() + more.len() <= image.mapped.len(),
        pattern.len() + more.len() <= MAX_SIGNATURE_BYTES,
        more == masked_instruction(image, start + pattern.len(), more.len() as int, None),
    ensures
        well_grown(image, pattern + more, start, field_offset),
        all_matches(pattern + more, image.mapped) == all_matches(pattern, image.mapped).filter(
            |at: usize| fits(pattern + more, image.mapped, at as int),
        ),
{
    let whole = pattern + more;
    lemma_masked_instruction(
        image,
        (start + pattern.len()) as int,
        more.len() as int,
        None,
    );
    assert forall|i: int| 0 <= i < whole.len() && (#[trigger] whole[i]) is Some implies whole[i]
        == Some(image.mapped[start + i]) && !image.rewritten(start + i) by {
        if i < pattern.len() {
            assert(whole[i] == pattern[i]);
        } else {
            assert(whole[i] == more[i - pattern.len()]);
        }
    }
    assert forall|at: int| #[trigger] fits(whole, image.mapped, at) implies fits(
        pattern,
        image.mapped,
        at,
    ) by {
        appending_only_rules_out(pattern, more, image.mapped, at);
    }
    narrowing_keeps_the_list_complete(pattern, whole, image.mapped);
}

/// Prepending masked bytes keeps a pattern well grown.
proof fn lemma_prepend(
    image: ImageView,
    pattern: Seq<Option<u8>>,
    start: int,
    field_offset: int,
    step: int,
)
    requires
        well_grown(image, pattern, start, field_offset),
        0 <= step <= start,
        step + pattern.len() <= MAX_SIGNATURE_BYTES,
    ensures
        well_grown(
            image,
            masked(image, start - step, step) + pattern,
            start - step,
            field_offset + step,
        ),
{
    let front = masked(image, start - step, step);
    let whole = front + pattern;
    assert forall|i: int| 0 <= i < whole.len() && (#[trigger] whole[i]) is Some implies whole[i]
        == Some(image.mapped[start - step + i]) && !image.rewritten(start - step + i) by {
        if i >= step {
            assert(whole[i] == pattern[i - step]);
        } else {
            assert(whole[i] == front[i]);
        }
    }
    assert forall|i: int|
        field_offset + step <= i < field_offset + step + 4 implies #[trigger] whole[i] is None by {
        assert(whole[i] == pattern[i - step]);
    }
}

impl<'a> SignatureGenerator<'a> {
    /// Appends the next instruction to the pattern, where there is one that
    /// fits, and keeps the matches up to date.
    #[verifier::rlimit(40)]
    fn append_next(
        &self,
        pattern: &mut Pattern,
        positions: &mut Vec<usize>,
        start: usize,
        field_offset: Ghost<int>,
    ) -> (r: bool)
        requires
            old(positions)@ == all_matches(old(pattern)@, self@.mapped),
            well_grown(self@, old(pattern)@, start as int, field_offset@),
        ensures
            final(positions)@ == all_matches(final(pattern)@, self@.mapped),
            well_grown(self@, final(pattern)@, start as int, field_offset@),
            ({
                let g = Growth {
                    pattern: old(pattern)@,
                    start: start as int,
                    field_offset: field_offset@,
                };
                match extended_forward(self@, g) {
                    Some(ahead) => r && ahead == (Growth { pattern: final(pattern)@, ..g }),
                    None => !r && final(pattern)@ == old(pattern)@,
                }
            }),
    {
        let mapped = self.image.mapped();
        let _limit: usize = mapped.len();
        let ghost shorter = pattern@;
        let cursor: usize = start + pattern.len();
        let length: usize = match self.decode_at(cursor) {
            Some(next) => next.length,
            None => 0,
        };
        if length == 0 || pattern.len() + length > MAX_SIGNATURE_BYTES {
            return false;
        }
        let more: Vec<Option<u8>> = self.mask_instruction(cursor, length, None);
        proof {
            lemma_masked_instruction(self@, cursor as int, length as int, None);
            lemma_append(self@, shorter, more@, start as int, field_offset@);
        }
        let mut i: usize = 0;
        assert(pattern@ =~= shorter + more@.take(0));
        while i < more.len()
            invariant
                i <= more@.len(),
                pattern@ == shorter + more@.take(i as int),
            decreases more@.len() - i,
        {
            pattern.push(more[i]);
            i += 1;
            assert(pattern@ =~= shorter + more@.take(i as int));
        }
        assert(more@.take(more@.len() as int) =~= more@);
        pattern.retain_matches(mapped, positions);
        true
    }

    /// Puts the bytes before the pattern in front of it, and keeps the matches
    /// up to date. Returns how many there were.
    fn prepend_some(
        &self,
        pattern: &mut Pattern,
        positions: &mut Vec<usize>,
        start: usize,
        field_offset: Ghost<int>,
    ) -> (r: usize)
        requires
            old(positions)@ == all_matches(old(pattern)@, self@.mapped),
            well_grown(self@, old(pattern)@, start as int, field_offset@),
            start > 0,
            old(pattern)@.len() < MAX_SIGNATURE_BYTES,
        ensures
            0 < r <= start,
            final(positions)@ == all_matches(final(pattern)@, self@.mapped),
            well_grown(self@, final(pattern)@, start - r, field_offset@ + r),
            extended_backward(
                self@,
                Growth {
                    pattern: old(pattern)@,
                    start: start as int,
                    field_offset: field_offset@,
                },
            ) == (Growth {
                pattern: final(pattern)@,
                start: start - r,
                field_offset: field_offset@ + r,
            }),
            final(pattern)@.len() == old(pattern)@.len() + r,
    {
        let _limit: usize = self.image.mapped().len();
        let ghost shorter = pattern@;
        let room: usize = MAX_SIGNATURE_BYTES - pattern.len();
        let mut step: usize = BACKWARD_STEP;
        if start < step {
            step = start;
        }
        if room < step {
            step = room;
        }
        proof {
            lemma_prepend(self@, shorter, start as int, field_offset@, step as int);
            prepending_keeps_the_list_complete(
                masked(self@, start - step, step as int),
                shorter,
                self@.mapped,
            );
        }
        let mut prefix: Vec<Option<u8>> = self.mask_bytes(start - step, step);
        prefix.extend_from_slice(pattern.bytes());
        assert(prefix@ =~= masked(self@, start - step, step as int) + shorter);
        *pattern = Pattern::new(prefix);
        *positions = self.move_back(pattern, positions, step);
        step
    }

    /// Grows a signature from `anchor` until it matches exactly once.
    ///
    /// Reaching back past the start of a function couples the signature to
    /// whatever the linker happened to place before it, and for a type-info
    /// slot there are usually dozens of other sites to try instead. So a slot
    /// gives up where growing forwards no longer helps and lets the next
    /// candidate run; a literal, which has exactly one anchor, reaches
    /// backwards -- the pattern is matched as bytes, so it need not begin on an
    /// instruction boundary.
    #[verifier::rlimit(40)]
    fn grow(&self, anchor: &Anchor, expected: Expectation) -> (r: Result<GeneratedSignature>)
        requires
            lies_in(*anchor, self@),
        ensures
            agrees_in_view(r, signature_from(self@, *anchor, expected)),
            r is Ok ==> trustworthy(self@, r->Ok_0@, expected),
    {
        let mapped = self.image.mapped();
        let limit: usize = mapped.len();
        let target = describe_expectation(expected);
        let mut pattern = Pattern::new(
            self.mask_instruction(anchor.start, anchor.length, Some(anchor.field_offset)),
        );
        let mut positions: Vec<usize> = pattern.find_all(mapped, MATCH_PROBE_CAP);
        if positions.len() >= MATCH_PROBE_CAP {
            let mut message = "the anchor instruction at 0x".to_owned();
            message.append(capital_hex_text(anchor.start as u128).as_str());
            message.append(" is too generic to start a signature from (");
            message.append(decimal_text(MATCH_PROBE_CAP as i128).as_str());
            message.append("+ matches)");
            return Err(Error::malformed(message));
        }
        proof {
            lemma_seed(self@, *anchor);
        }
        let ghost first = seed(self@, *anchor);
        let mut start: usize = anchor.start;
        let mut field_offset: usize = anchor.field_offset;
        while positions.len() != 1
            invariant
                mapped@ == self@.mapped,
                limit == mapped@.len(),
                target@ == expectation_text(expected),
                positions@ == all_matches(pattern@, self@.mapped),
                well_grown(self@, pattern@, start as int, field_offset as int),
                first == seed(self@, *anchor),
                sites(self@, first.pattern) < MATCH_PROBE_CAP,
                grown(
                    self@,
                    anchor.start as int,
                    expected,
                    Growth {
                        pattern: pattern@,
                        start: start as int,
                        field_offset: field_offset as int,
                    },
                ) == grown(self@, anchor.start as int, expected, first),
            decreases MAX_SIGNATURE_BYTES - pattern@.len(),
        {
            let ghost g = Growth {
                pattern: pattern@,
                start: start as int,
                field_offset: field_offset as int,
            };
            if positions.len() == 0 {
                let mut message = "signature for ".to_owned();
                message.append(target.as_str());
                message.append(" stopped matching its own anchor");
                return Err(Error::malformed(message));
            }
            if pattern.len() >= MAX_SIGNATURE_BYTES {
                return Err(ambiguous(&target, Ghost(expected), positions.len()));
            }
            let before: usize = positions.len();
            let appended = self.append_next(
                &mut pattern,
                &mut positions,
                start,
                Ghost(field_offset as int),
            );
            if appended && positions.len() < before {
                continue;
            }
            let ghost stuck = Growth {
                pattern: pattern@,
                start: start as int,
                field_offset: field_offset as int,
            };
            if !allows_backward_growth(expected) {
                let mut message = "the anchor at 0x".to_owned();
                message.append(capital_hex_text(anchor.start as u128).as_str());
                message.append(" cannot be made unique by growing forwards (");
                message.append(decimal_text(positions.len() as i128).as_str());
                message.append(" candidate sites remained)");
                return Err(Error::malformed(message));
            }
            if start == 0 {
                let mut message = "signature for ".to_owned();
                message.append(target.as_str());
                message.append(" is ambiguous and cannot be extended in either direction (");
                message.append(decimal_text(positions.len() as i128).as_str());
                message.append(" candidate sites)");
                return Err(Error::malformed(message));
            }
            if pattern.len() >= MAX_SIGNATURE_BYTES {
                return Err(ambiguous(&target, Ghost(expected), positions.len()));
            }
            let step: usize = self.prepend_some(
                &mut pattern,
                &mut positions,
                start,
                Ghost(field_offset as int),
            );
            start -= step;
            field_offset += step;
        }
        let match_start: usize = positions[0];
        proof {
            lemma_faithful_fits(self@, pattern@, start as int);
            lemma_only_match(pattern@, self@.mapped, start as int);
        }
        let resolves_to: Resolution = self.check(expected, match_start, field_offset)?;
        let literal_bytes: usize = pattern.literal_count();
        let signature = GeneratedSignature {
            pattern,
            pattern_offset: field_offset as i64,
            address_offset: self.address_offset(expected),
            resolves_to,
            anchor_rva: anchor.start as u64,
            literal_bytes,
        };
        proof {
            let cuts = lemma_grown_from_anchor(self@, *anchor, expected);
            assert(grown(self@, anchor.start as int, expected, first) == Ok::<Growth, ErrorView>(
                Growth {
                    pattern: signature@.pattern,
                    start: start as int,
                    field_offset: field_offset as int,
                },
            ));
            assert(made_of(self@, signature@, expected, match_start as int, cuts));
        }
        Ok(signature)
    }
}

spec fn best_view(best: Option<GeneratedSignature>) -> Option<SignatureView> {
    match best {
        Some(signature) => Some(signature@),
        None => None,
    }
}

impl<'a> SignatureGenerator<'a> {
    /// Builds a signature that resolves to `slot_rva`.
    pub fn generate(&self, slot_rva: u64) -> (r: Result<GeneratedSignature>)
        ensures
            agrees_in_view(r, slot_signature(self@, slot_rva)),
            r is Ok ==> trustworthy(self@, r->Ok_0@, Expectation::Slot(slot_rva)),
    {
        let candidates: Vec<Anchor> = self.find_anchors(slot_rva);
        if candidates.len() == 0 {
            let mut message =
                "no instruction in any code section loads the type-info slot at 0x".to_owned();
            message.append(capital_hex_text(slot_rva as u128).as_str());
            message.append(
                "; the type exists in the metadata but its class pointer is never read, so there is nothing to anchor a signature to",
            );
            return Err(Error::malformed(message));
        }
        let expected: Expectation = Expectation::Slot(slot_rva);
        let mut message = "could not build a unique signature for the slot at 0x".to_owned();
        message.append(capital_hex_text(slot_rva as u128).as_str());
        message.append(" within ");
        message.append(decimal_text(MAX_SIGNATURE_BYTES as i128).as_str());
        message.append(" bytes");
        let mut last_error: Error = Error::malformed(message);
        let mut best: Option<GeneratedSignature> = None;
        let count: usize = if candidates.len() < MAX_CANDIDATES {
            candidates.len()
        } else {
            MAX_CANDIDATES
        };
        let ghost tried = candidates@.take(count as int);
        let mut k: usize = 0;
        while k < count
            invariant
                k <= count <= candidates@.len(),
                tried == candidates@.take(count as int),
                expected == Expectation::Slot(slot_rva),
                forall|i: int|
                    0 <= i < candidates@.len() ==> lies_in(#[trigger] candidates@[i], self@),
                best matches Some(signature) ==> trustworthy(self@, signature@, expected),
                shortest_from(
                    self@,
                    slot_rva,
                    tried,
                    k as int,
                    best_view(best),
                    last_error@,
                ) == slot_signature(self@, slot_rva),
            decreases count - k,
        {
            assert(tried[k as int] == candidates@[k as int]);
            let grown_here = self.grow(&candidates[k], expected);
            match grown_here {
                Ok(signature) => {
                    let length: usize = signature.pattern.len();
                    let better = match &best {
                        Some(current) => length < current.pattern.len(),
                        None => true,
                    };
                    if better {
                        best = Some(signature);
                    }
                    // A short unique signature is as good as this gets; stop
                    // rather than disassembling another twenty candidates.
                    let short = match &best {
                        Some(found) => found.pattern.len() <= SHORT_SIGNATURE_BYTES,
                        None => false,
                    };
                    if short {
                        match best {
                            Some(found) => {
                                return Ok(found);
                            },
                            None => {},
                        }
                    }
                },
                Err(error) => {
                    last_error = error;
                },
            }
            k += 1;
        }
        match best {
            Some(signature) => Ok(signature),
            None => Err(last_error),
        }
    }

    /// Builds a signature over a 32-bit literal inside a known method.
    ///
    /// This is how the broadcast-version pattern is produced. It cannot be
    /// anchored on a type-info slot -- there is no metadata object involved,
    /// only a number the compiler baked into the code -- but the method that
    /// returns it does have an address, and `dump.cs` reports it.
    /// `Constants.GetBroadcastVersion` compiles to `mov eax, <version>; ret` on
    /// both architectures, so the literal is one byte into the method.
    ///
    /// Such a method is tiny and followed by alignment padding, so the pattern
    /// almost always has to grow backwards into whatever precedes it.
    pub fn generate_immediate(&self, method_rva: u64) -> (r: Result<GeneratedSignature>)
        ensures
            agrees_in_view(r, literal_signature(self@, method_rva)),
            r is Ok ==> r->Ok_0.resolves_to is Immediate && trustworthy(
                self@,
                r->Ok_0@,
                Expectation::Immediate(r->Ok_0.resolves_to->Immediate_0),
            ),
    {
        let mapped = self.image.mapped();
        let limit: usize = mapped.len();
        if method_rva < limit as u64 {
            let mut cursor: usize = method_rva as usize;
            let mut steps: usize = 8;
            while steps > 0
                invariant
                    mapped@ == self@.mapped,
                    limit == mapped@.len(),
                    literal_signature_from(self@, method_rva, cursor as int, steps as nat)
                        == literal_signature(self@, method_rva),
                ensures
                    literal_signature(self@, method_rva) == literal_signature_from(
                        self@,
                        method_rva,
                        0,
                        0,
                    ),
                decreases steps,
            {
                let instruction: Instruction = match self.decode_at(cursor) {
                    Some(instruction) => instruction,
                    None => {
                        break;
                    },
                };
                let length: usize = instruction.length;
                if length == 0 {
                    break;
                }
                if let Some(value) = immediate32(&instruction) {
                    let bytes = slice_subrange(mapped, cursor, cursor + length);
                    if let Some(field_offset) = find_immediate_field(bytes, length, value) {
                        let anchor = Anchor { start: cursor, length, field_offset, quality: 0 };
                        return self.grow(&anchor, Expectation::Immediate(value));
                    }
                }
                cursor += length;
                steps -= 1;
            }
        }
        let mut message = "the method at 0x".to_owned();
        message.append(capital_hex_text(method_rva as u128).as_str());
        message.append(
            " does not start with an instruction carrying a 32-bit literal, so there is nothing to anchor a signature on",
        );
        Err(Error::malformed(message))
    }
}

fn ambiguous(target: &String, expected: Ghost<Expectation>, count: usize) -> (r: Error)
    requires
        target@ == expectation_text(expected@),
    ensures
        r@ == still_ambiguous(expected@, count as int),
{
    let mut message = "signature for ".to_owned();
    message.append(target.as_str());
    message.append(" was still ambiguous after ");
    message.append(decimal_text(MAX_SIGNATURE_BYTES as i128).as_str());
    message.append(" bytes (");
    message.append(decimal_text(count as i128).as_str());
    message.append(" candidate sites remained)");
    Error::malformed(message)
}

proof fn lemma_no_fields(image: ImageView, slot: u64, start: int, a: int, b: int)
    requires
        a <= start,
        b <= start,
    ensures
        anchors_between(image, slot, start, a) == anchors_between(image, slot, start, b),
{
}

proof fn lemma_placed_members(row: Seq<Anchor>, anchor: Anchor, good: spec_fn(Anchor) -> bool)
    requires
        good(anchor),
        forall|i: int| 0 <= i < row.len() ==> good(#[trigger] row[i]),
    ensures
        forall|i: int| 0 <= i < placed(row, anchor).len() ==> good(#[trigger] placed(row, anchor)[i]),
    decreases row.len(),
{
    if row.len() > 0 && ranks_before(anchor, row.last()) {
        assert forall|i: int| 0 <= i < row.drop_last().len() implies good(
            #[trigger] row.drop_last()[i],
        ) by {
            assert(row.drop_last()[i] == row[i]);
        }
        lemma_placed_members(row.drop_last(), anchor, good);
        assert(good(row[row.len() - 1]));
        let shorter = placed(row.drop_last(), anchor);
        assert forall|i: int| 0 <= i < placed(row, anchor).len() implies good(
            #[trigger] placed(row, anchor)[i],
        ) by {
            if i < shorter.len() {
                assert(good(shorter[i]));
            }
        }
    } else {
        assert forall|i: int| 0 <= i < placed(row, anchor).len() implies good(
            #[trigger] placed(row, anchor)[i],
        ) by {
            if i < row.len() {
                assert(good(row[i]));
            }
        }
    }
}

proof fn lemma_ranked_members(anchors: Seq<Anchor>, good: spec_fn(Anchor) -> bool)
    requires
        forall|i: int| 0 <= i < anchors.len() ==> good(#[trigger] anchors[i]),
    ensures
        forall|i: int| 0 <= i < ranked(anchors).len() ==> good(#[trigger] ranked(anchors)[i]),
    decreases anchors.len(),
{
    if anchors.len() > 0 {
        assert forall|i: int| 0 <= i < anchors.drop_last().len() implies good(
            #[trigger] anchors.drop_last()[i],
        ) by {
            assert(anchors.drop_last()[i] == anchors[i]);
        }
        lemma_ranked_members(anchors.drop_last(), good);
        assert(good(anchors[anchors.len() - 1]));
        lemma_placed_members(ranked(anchors.drop_last()), anchors.last(), good);
    }
}

/// A ranked row is in order, and holds what was ranked.
pub proof fn ranking_sorts(anchors: Seq<Anchor>)
    ensures
        ranked(anchors).to_multiset() == anchors.to_multiset(),
        forall|i: int, j: int|
            0 <= i < j < ranked(anchors).len() ==> !ranks_before(
                #[trigger] ranked(anchors)[j],
                #[trigger] ranked(anchors)[i],
            ),
    decreases anchors.len(),
{
    broadcast use vstd::seq_lib::group_to_multiset_ensures;

    if anchors.len() > 0 {
        ranking_sorts(anchors.drop_last());
        lemma_placed_in_order(ranked(anchors.drop_last()), anchors.last());
        assert(anchors =~= anchors.drop_last().push(anchors.last()));
    } else {
        assert(ranked(anchors) =~= anchors);
    }
}

/// No anchor that was tried gives a shorter signature than the one that is
/// taken, unless that one is short enough to end the search.
pub proof fn the_shortest_signature_is_taken(
    image: ImageView,
    slot: u64,
    anchors: Seq<Anchor>,
    k: int,
    best: Option<SignatureView>,
    last_error: ErrorView,
)
    requires
        0 <= k,
    ensures
        match shortest_from(image, slot, anchors, k, best, last_error) {
            Ok(taken) => taken.pattern.len() <= SHORT_SIGNATURE_BYTES || {
                &&& best matches Some(other) ==> taken.pattern.len() <= other.pattern.len()
                &&& forall|j: int|
                    k <= j < anchors.len() ==> match #[trigger] signature_from(
                        image,
                        anchors[j],
                        Expectation::Slot(slot),
                    ) {
                        Ok(other) => taken.pattern.len() <= other.pattern.len(),
                        Err(_) => true,
                    }
            },
            Err(_) => best is None && forall|j: int|
                k <= j < anchors.len() ==> #[trigger] signature_from(
                    image,
                    anchors[j],
                    Expectation::Slot(slot),
                ) is Err,
        },
    decreases anchors.len() - k,
{
    if k < anchors.len() {
        match signature_from(image, anchors[k], Expectation::Slot(slot)) {
            Ok(signature) => {
                let better = if best is None || signature.pattern.len() < best->0.pattern.len() {
                    signature
                } else {
                    best->0
                };
                if better.pattern.len() > SHORT_SIGNATURE_BYTES {
                    the_shortest_signature_is_taken(
                        image,
                        slot,
                        anchors,
                        k + 1,
                        Some(better),
                        last_error,
                    );
                }
            },
            Err(error) => {
                the_shortest_signature_is_taken(image, slot, anchors, k + 1, best, error);
            },
        }
    }
}

proof fn lemma_placed_in_order(row: Seq<Anchor>, anchor: Anchor)
    requires
        forall|i: int, j: int|
            0 <= i < j < row.len() ==> !ranks_before(#[trigger] row[j], #[trigger] row[i]),
    ensures
        placed(row, anchor).to_multiset() == row.to_multiset().insert(anchor),
        forall|i: int, j: int|
            0 <= i < j < placed(row, anchor).len() ==> !ranks_before(
                #[trigger] placed(row, anchor)[j],
                #[trigger] placed(row, anchor)[i],
            ),
    decreases row.len(),
{
    broadcast use vstd::seq_lib::group_to_multiset_ensures;

    if row.len() > 0 && ranks_before(anchor, row.last()) {
        let shorter = row.drop_last();
        lemma_placed_in_order(shorter, anchor);
        assert(row =~= shorter.push(row.last()));
        assert(placed(row, anchor).to_multiset() =~= row.to_multiset().insert(anchor));
        lemma_placed_members(
            shorter,
            anchor,
            |a: Anchor| !ranks_before(row.last(), a),
        );
    }
}

} // verus!
