//! What a signature is anchored on, said of the instructions in the image, and
//! what the client makes of a match, said of its bytes.

use vstd::prelude::*;

use crate::decode::{decoded, Instruction, IMMEDIATE_32, MEMORY, REGISTER};
use crate::error::ErrorView;
use crate::masking::signed_number;
use crate::numbers::{capital_hex, decimal};
use crate::pe::{le32, least, Arch, ImageView, SectionView};
use crate::siggen::{
    anchors_between, anchors_for, anchors_in, client_immediate, client_resolution, fields_end,
    immediate_field_from, instruction_at, literal_of, literal_operands, literal_signature,
    literal_signature_from, owner, owner_from, owns, points_at, quality, ranking_sorts,
    ranks_before, signature_from, signed64, slot_signature, the_shortest_signature_is_taken, Anchor,
    Expectation, MAX_ANCHORS, MAX_SIGNATURE_BYTES,
};

verus! {

/// The unsigned number of four bytes at a place, lowest byte first.
pub open spec fn unsigned_number(bytes: Seq<u8>, at: int) -> int {
    bytes[at] + 0x100 * bytes[at + 1] + 0x1_0000 * bytes[at + 2] + 0x100_0000 * bytes[at + 3]
}

/// What the client resolves a match to: on x64 the four bytes of the field are
/// added, as a signed number, to their own place and what completes the
/// instruction; on x86 they are an address, from which the module's base is
/// taken. It resolves to nothing where the field or the result is outside the
/// module.
pub proof fn the_client_resolves_a_field_by_its_bytes(
    image: ImageView,
    match_start: int,
    pattern_offset: int,
    address_offset: int,
    rva: u64,
)
    ensures
        client_resolution(image, match_start, pattern_offset, address_offset) == Ok::<
            u64,
            ErrorView,
        >(rva) <==> {
            let at = match_start + pattern_offset;
            &&& 0 <= at
            &&& at + 4 <= image.mapped.len()
            &&& rva < image.size_of_image
            &&& match image.arch {
                Arch::X64 => rva == at + address_offset + signed_number(image.mapped, at, 4),
                Arch::X86 => image.image_base + rva == unsigned_number(image.mapped, at),
            }
        },
{
}

/// What the client reads for a literal: the four bytes at the match and both
/// offsets, as a signed number.
pub proof fn the_client_reads_a_literal_by_its_bytes(
    image: ImageView,
    match_start: int,
    pattern_offset: int,
    address_offset: int,
    value: i32,
)
    ensures
        client_immediate(image, match_start, pattern_offset, address_offset) == Ok::<
            i32,
            ErrorView,
        >(value) <==> {
            let at = match_start + pattern_offset + address_offset;
            &&& 0 <= at
            &&& at + 4 <= image.mapped.len()
            &&& value == signed_number(image.mapped, at, 4)
        },
{
}

/// The instruction at `start` loads from the slot, by an address that is its last
/// four bytes. On x86 the loader has to rewrite that address; on x64 it is
/// relative to the end of the instruction.
pub open spec fn loads(image: ImageView, start: int, slot: u64, i: Instruction) -> bool {
    let field = i.next_ip - 4;
    &&& instruction_at(image, start) == Some(i)
    &&& 0 <= field
    &&& field + 4 <= image.mapped.len()
    &&& match image.arch {
        Arch::X86 => i.base_free && i.index_free && i.displacement == image.image_base + slot
            && unsigned_number(image.mapped, field) == image.image_base + slot
            && image.rewritten(field),
        Arch::X64 => i.ip_relative && i.ip_target == slot && field + 4 + signed_number(
            image.mapped,
            field,
            4,
        ) == signed64(slot),
    }
}

/// An anchor is an instruction that loads from the slot, with its field where
/// the address is.
pub open spec fn is_anchor(image: ImageView, slot: u64, anchor: Anchor) -> bool {
    instruction_at(image, anchor.start as int) matches Some(i) && loads(
        image,
        anchor.start as int,
        slot,
        i,
    ) && anchor.length == i.length && anchor.start + anchor.field_offset + 4 == i.next_ip
        && anchor.quality == quality(i)
}

proof fn lemma_owns(image: ImageView, start: int, field: int, slot: u64)
    requires
        points_at(image, field, slot),
    ensures
        owns(image, start, field, slot) <==> (instruction_at(image, start) matches Some(i) && loads(
            image,
            start,
            slot,
            i,
        ) && i.next_ip == field + 4),
{
}

proof fn lemma_owner_from(image: ImageView, field: int, slot: u64, earliest: int, start: int)
    requires
        points_at(image, field, slot),
        image.mapped.len() <= usize::MAX,
        0 <= earliest,
        start < field,
    ensures
        owner_from(image, field, slot, earliest, start) matches Some(anchor) ==> is_anchor(
            image,
            slot,
            anchor,
        ) && anchor.start + anchor.field_offset == field,
        owner_from(image, field, slot, earliest, start) is None ==> forall|s: int|
            earliest <= s <= start ==> !#[trigger] owns(image, s, field, slot),
    decreases start - earliest + 1,
{
    if start >= earliest {
        lemma_owns(image, start, field, slot);
        if !owns(image, start, field, slot) {
            lemma_owner_from(image, field, slot, earliest, start - 1);
        }
    }
}

proof fn lemma_between(image: ImageView, slot: u64, start: int, end: int)
    requires
        0 <= start,
        image.mapped.len() <= usize::MAX,
    ensures
        forall|k: int|
            0 <= k < anchors_between(image, slot, start, end).len() ==> is_anchor(
                image,
                slot,
                #[trigger] anchors_between(image, slot, start, end)[k],
            ),
        forall|field: int|
            start <= field < end && points_at(image, field, slot) && #[trigger] owner(
                image,
                field,
                slot,
            ) is Some ==> anchors_between(image, slot, start, end).contains(
                owner(image, field, slot)->0,
            ),
    decreases end - start,
{
    if start < end {
        let all = anchors_between(image, slot, start, end);
        let before = anchors_between(image, slot, start, end - 1);
        lemma_between(image, slot, start, end - 1);
        if points_at(image, end - 1, slot) {
            let earliest = if end - 1 < 15 {
                0
            } else {
                end - 1 - 15
            };
            lemma_owner_from(image, end - 1, slot, earliest, end - 2);
        }
        assert forall|k: int| 0 <= k < all.len() implies is_anchor(
            image,
            slot,
            #[trigger] all[k],
        ) by {
            if k < before.len() {
                assert(all[k] == before[k]);
            }
        }
        assert forall|field: int|
            start <= field < end && points_at(image, field, slot) && #[trigger] owner(
                image,
                field,
                slot,
            ) is Some implies all.contains(owner(image, field, slot)->0) by {
            if field < end - 1 {
                assert(before.contains(owner(image, field, slot)->0));
                let k = choose|k: int|
                    0 <= k < before.len() && before[k] == owner(image, field, slot)->0;
                assert(all[k] == before[k]);
            } else {
                assert(all[all.len() - 1] == owner(image, field, slot)->0);
            }
        }
    }
}

proof fn lemma_in(image: ImageView, slot: u64, sections: Seq<SectionView>)
    requires
        image.mapped.len() <= usize::MAX,
    ensures
        forall|k: int|
            0 <= k < anchors_in(image, slot, sections).len() ==> is_anchor(
                image,
                slot,
                #[trigger] anchors_in(image, slot, sections)[k],
            ),
        forall|s: int, field: int|
            #![trigger sections[s], owner(image, field, slot)]
            0 <= s < sections.len() && sections[s].virtual_address <= field < fields_end(
                image,
                sections[s],
            ) && points_at(image, field, slot) && owner(image, field, slot) is Some ==> anchors_in(
                image,
                slot,
                sections,
            ).contains(owner(image, field, slot)->0),
    decreases sections.len(),
{
    if sections.len() > 0 {
        let last = sections.len() - 1;
        let shorter = sections.drop_last();
        let all = anchors_in(image, slot, sections);
        let before = anchors_in(image, slot, shorter);
        let va = sections[last].virtual_address as int;
        let end = fields_end(image, sections[last]);
        let here = anchors_between(image, slot, va, end);
        lemma_in(image, slot, shorter);
        lemma_between(image, slot, va, end);
        assert forall|k: int| 0 <= k < all.len() implies is_anchor(
            image,
            slot,
            #[trigger] all[k],
        ) by {
            if k < before.len() {
                assert(all[k] == before[k]);
            } else {
                assert(all[k] == here[k - before.len()]);
            }
        }
        assert forall|s: int, field: int|
            #![trigger sections[s], owner(image, field, slot)]
            0 <= s < sections.len() && sections[s].virtual_address <= field < fields_end(
                image,
                sections[s],
            ) && points_at(image, field, slot) && owner(
                image,
                field,
                slot,
            ) is Some implies all.contains(owner(image, field, slot)->0) by {
            let found = owner(image, field, slot)->0;
            if s < last {
                assert(shorter[s] == sections[s]);
                assert(before.contains(found));
                let k = choose|k: int| 0 <= k < before.len() && before[k] == found;
                assert(all[k] == found);
            } else {
                assert(here.contains(found));
                let k = choose|k: int| 0 <= k < here.len() && here[k] == found;
                assert(all[before.len() + k] == found);
            }
        }
    }
}

/// The address of this instruction lies in a code section, before the last four
/// bytes of it that are in the image.
pub open spec fn in_code(image: ImageView, field: int) -> bool {
    exists|s: int|
        0 <= s < image.code().len() && (#[trigger] image.code()[s]).virtual_address <= field
            && field + 4 < image.code()[s].virtual_address + image.code()[s].virtual_size && field
            + 4 < image.mapped.len()
}

/// Every anchor that is considered is an instruction that loads from the slot,
/// the better ones first; and where any instruction in a code section loads from
/// the slot, there is an anchor.
pub proof fn anchors_are_the_instructions_that_load_the_slot(image: ImageView, slot: u64)
    requires
        image.mapped.len() <= usize::MAX,
    ensures
        forall|k: int|
            0 <= k < anchors_for(image, slot).len() ==> is_anchor(
                image,
                slot,
                #[trigger] anchors_for(image, slot)[k],
            ),
        forall|j: int, k: int|
            0 <= j < k < anchors_for(image, slot).len() ==> {
                let a = #[trigger] anchors_for(image, slot)[j];
                let b = #[trigger] anchors_for(image, slot)[k];
                a.quality < b.quality || (a.quality == b.quality && a.start <= b.start)
            },
        anchors_for(image, slot).len() == 0 ==> forall|start: int, i: Instruction|
            #[trigger] loads(image, start, slot, i) && start < i.next_ip - 4 <= start + 15
                ==> !in_code(image, i.next_ip - 4),
{
    broadcast use vstd::seq_lib::group_to_multiset_ensures;

    let code = image.code();
    let all = anchors_in(image, slot, code);
    let kept = if all.len() <= MAX_ANCHORS {
        all
    } else {
        all.take(MAX_ANCHORS as int)
    };
    let row = anchors_for(image, slot);
    lemma_in(image, slot, code);
    ranking_sorts(kept);
    assert forall|k: int| 0 <= k < row.len() implies is_anchor(image, slot, #[trigger] row[k]) by {
        assert(row.to_multiset().contains(row[k]));
        assert(kept.contains(row[k]));
        let n = choose|n: int| 0 <= n < kept.len() && kept[n] == row[k];
        assert(kept[n] == all[n]);
    }
    assert forall|j: int, k: int| 0 <= j < k < row.len() implies {
        let a = #[trigger] row[j];
        let b = #[trigger] row[k];
        a.quality < b.quality || (a.quality == b.quality && a.start <= b.start)
    } by {
        assert(!ranks_before(row[k], row[j]));
    }
    if row.len() == 0 {
        assert(kept.len() == 0) by {
            if kept.len() > 0 {
                assert(kept.to_multiset().contains(kept[0]));
                assert(row.contains(kept[0]));
            }
        }
        assert(all.len() == 0);
        assert forall|start: int, i: Instruction|
            #[trigger] loads(image, start, slot, i) && start < i.next_ip - 4 <= start
                + 15 implies !in_code(image, i.next_ip - 4) by {
            let field = i.next_ip - 4;
            if in_code(image, field) {
                let s = choose|s: int|
                    0 <= s < code.len() && (#[trigger] code[s]).virtual_address <= field && field
                        + 4 < code[s].virtual_address + code[s].virtual_size && field + 4
                        < image.mapped.len();
                assert(points_at(image, field, slot));
                let earliest = if field < 15 {
                    0
                } else {
                    field - 15
                };
                lemma_owner_from(image, field, slot, earliest, field - 1);
                lemma_owns(image, start, field, slot);
                assert(owns(image, start, field, slot));
                assert(0 <= start);
                assert(owner(image, field, slot) is Some);
                assert(all.contains(owner(image, field, slot)->0));
            }
        }
    }
}

/// The instruction loads a register from memory.
pub open spec fn loads_register(i: Instruction) -> bool {
    i.op_count == 2 && i.operands[0] == REGISTER && i.operands[1] == MEMORY
}

/// A plain register load by `mov` is the best anchor, then any other load of a
/// register, then any other `mov`.
pub proof fn plain_loads_are_preferred(a: Instruction, b: Instruction)
    ensures
        a.is_mov && loads_register(a) && !(b.is_mov && loads_register(b)) ==> quality(a) < quality(
            b,
        ),
        loads_register(a) && !loads_register(b) ==> quality(a) < quality(b),
        a.is_mov && !b.is_mov && loads_register(a) == loads_register(b) ==> quality(a) < quality(
            b,
        ),
        a.is_mov == b.is_mov && loads_register(a) == loads_register(b) ==> quality(a) == quality(
            b,
        ),
{
}

/// Operand `k` is a 32-bit literal.
pub open spec fn is_literal(i: Instruction, k: int) -> bool {
    0 <= k < i.op_count && i.operands[k] == IMMEDIATE_32
}

/// Operand `k` is the only 32-bit literal.
pub open spec fn is_only_literal(i: Instruction, k: int) -> bool {
    is_literal(i, k) && forall|j: int| #[trigger] is_literal(i, j) ==> j == k
}

/// Whether operand `k` counts as a literal.
spec fn counted(i: Instruction, k: int) -> int {
    if is_literal(i, k) {
        1
    } else {
        0
    }
}

proof fn lemma_count(i: Instruction, n: nat)
    requires
        n <= i.op_count <= 5,
    ensures
        literal_operands(i, n) == (if n == 0 {
            0
        } else {
            literal_operands(i, (n - 1) as nat) + counted(i, n - 1)
        }),
{
}

proof fn lemma_count_all(i: Instruction)
    requires
        i.op_count <= 5,
    ensures
        literal_operands(i, i.op_count as nat) == counted(i, 0) + counted(i, 1) + counted(i, 2)
            + counted(i, 3) + counted(i, 4),
{
    let n = i.op_count;
    lemma_count(i, 0);
    if n >= 1 {
        lemma_count(i, 1);
    }
    if n >= 2 {
        lemma_count(i, 2);
    }
    if n >= 3 {
        lemma_count(i, 3);
    }
    if n >= 4 {
        lemma_count(i, 4);
    }
    if n >= 5 {
        lemma_count(i, 5);
    }
}

/// An instruction carries a literal if and only if exactly one of its operands is
/// a 32-bit literal; it is that number, read as a signed one.
pub proof fn a_literal_is_the_only_one(i: Instruction)
    requires
        i.op_count <= 5,
    ensures
        literal_of(i) is Some <==> exists|k: int| #[trigger] is_only_literal(i, k),
        literal_of(i) matches Some(value) ==> value as int == (if i.immediate32 < 0x8000_0000 {
            i.immediate32 as int
        } else {
            i.immediate32 - 0x1_0000_0000
        }),
{
    lemma_count_all(i);
    if literal_of(i) is Some {
        let k: int = if is_literal(i, 0) {
            0
        } else if is_literal(i, 1) {
            1
        } else if is_literal(i, 2) {
            2
        } else if is_literal(i, 3) {
            3
        } else {
            4
        };
        assert forall|j: int| #[trigger] is_literal(i, j) implies j == k by {
            assert(j == 0 || j == 1 || j == 2 || j == 3 || j == 4);
        }
        assert(is_only_literal(i, k));
    }
    if exists|k: int| #[trigger] is_only_literal(i, k) {
        let k = choose|k: int| #[trigger] is_only_literal(i, k);
        assert(k == 0 || k == 1 || k == 2 || k == 3 || k == 4);
        assert(counted(i, 0) + counted(i, 1) + counted(i, 2) + counted(i, 3) + counted(i, 4) == 1);
    }
}

proof fn lemma_immediate_field(image: ImageView, at: int, length: int, value: i32, offset: int)
    requires
        0 <= at,
        at + length <= image.mapped.len(),
        offset + 4 <= length,
        length <= usize::MAX,
    ensures
        match immediate_field_from(image.mapped.subrange(at, at + length), value, offset) {
            Some(found) => 0 <= found <= offset && signed_number(image.mapped, at + found, 4)
                == value && forall|later: int|
                found < later <= offset ==> #[trigger] signed_number(image.mapped, at + later, 4)
                    != value,
            None => forall|o: int|
                0 <= o <= offset ==> #[trigger] signed_number(image.mapped, at + o, 4) != value,
        },
    decreases offset + 1,
{
    let bytes = image.mapped.subrange(at, at + length);
    if offset >= 0 {
        assert(bytes[offset] == image.mapped[at + offset]);
        assert(bytes[offset + 1] == image.mapped[at + offset + 1]);
        assert(bytes[offset + 2] == image.mapped[at + offset + 2]);
        assert(bytes[offset + 3] == image.mapped[at + offset + 3]);
        if crate::pe::signed32(le32(bytes, offset)) != value {
            lemma_immediate_field(image, at, length, value, offset - 1);
        }
    }
}

/// A literal is looked for in the bytes of its instruction from the back.
pub proof fn a_literal_is_found_from_the_back(
    image: ImageView,
    at: int,
    length: int,
    value: i32,
)
    requires
        0 <= at,
        at + length <= image.mapped.len(),
        length <= usize::MAX,
    ensures
        match immediate_field_from(image.mapped.subrange(at, at + length), value, length - 4) {
            Some(found) => 0 <= found && found + 4 <= length && signed_number(
                image.mapped,
                at + found,
                4,
            ) == value && forall|later: int|
                found < later && later + 4 <= length ==> #[trigger] signed_number(
                    image.mapped,
                    at + later,
                    4,
                ) != value,
            None => forall|o: int|
                0 <= o && o + 4 <= length ==> #[trigger] signed_number(image.mapped, at + o, 4)
                    != value,
        },
{
    lemma_immediate_field(image, at, length, value, length - 4);
}

/// Instructions follow one another from the first of these places to the last.
pub open spec fn steps_through(image: ImageView, cuts: Seq<int>) -> bool {
    &&& cuts.len() > 0
    &&& forall|k: int|
        0 <= k < cuts.len() - 1 ==> (instruction_at(image, #[trigger] cuts[k]) matches Some(i)
            && i.length > 0 && cuts[k] + i.length <= image.mapped.len() && cuts[k + 1] == cuts[k]
            + i.length)
}

/// The instruction carries this literal in the four bytes at `offset`, the last
/// that hold it.
pub open spec fn carries(image: ImageView, at: int, value: i32, offset: int) -> bool {
    instruction_at(image, at) matches Some(i) && {
        &&& literal_of(i) == Some(value)
        &&& 0 <= offset
        &&& offset + 4 <= i.length
        &&& at + i.length <= image.mapped.len()
        &&& signed_number(image.mapped, at + offset, 4) == value
        &&& forall|later: int|
            offset < later && later + 4 <= i.length ==> #[trigger] signed_number(
                image.mapped,
                at + later,
                4,
            ) != value
    }
}

/// The instruction carries no literal in four bytes of its own.
pub open spec fn carries_none(image: ImageView, at: int) -> bool {
    instruction_at(image, at) matches Some(i) && (literal_of(i) matches Some(value) ==> forall|
        o: int,
    |
        0 <= o && o + 4 <= i.length ==> #[trigger] signed_number(image.mapped, at + o, 4) != value)
}

proof fn lemma_first_literal(
    image: ImageView,
    method_rva: u64,
    cuts: Seq<int>,
    value: i32,
    offset: usize,
    k: int,
    steps: nat,
)
    requires
        steps_through(image, cuts),
        0 <= k < cuts.len(),
        cuts.len() - k <= steps,
        0 <= cuts[k],
        forall|j: int| 0 <= j < cuts.len() - 1 ==> carries_none(image, #[trigger] cuts[j]),
        carries(image, cuts.last(), value, offset as int),
        image.mapped.len() <= usize::MAX,
    ensures
        literal_signature_from(image, method_rva, cuts[k], steps) == signature_from(
            image,
            Anchor {
                start: cuts.last() as usize,
                length: instruction_at(image, cuts.last())->0.length,
                field_offset: offset,
                quality: 0,
            },
            Expectation::Immediate(value),
        ),
    decreases cuts.len() - k,
{
    let at = cuts[k];
    let i = instruction_at(image, at)->0;
    let length = i.length as int;
    let bytes = image.mapped.subrange(at, at + length);
    if k < cuts.len() - 1 {
        assert(carries_none(image, cuts[k]));
        assert(cuts[k + 1] == cuts[k] + i.length);
        if let Some(other) = literal_of(i) {
            a_literal_is_found_from_the_back(image, at, length, other);
            if let Some(found) = immediate_field_from(bytes, other, length - 4) {
                assert(signed_number(image.mapped, at + found as int, 4) == other);
            }
        }
        lemma_first_literal(image, method_rva, cuts, value, offset, k + 1, (steps - 1) as nat);
    } else {
        a_literal_is_found_from_the_back(image, at, length, value);
        assert(signed_number(image.mapped, at + offset as int, 4) == value);
        match immediate_field_from(bytes, value, length - 4) {
            Some(found) => {
                if found < offset {
                    assert(signed_number(image.mapped, at + offset as int, 4) != value);
                }
                if offset < found {
                    assert(signed_number(image.mapped, at + found as int, 4) != value);
                }
            },
            None => {},
        }
    }
}

/// A method's literal is that of the first of its first eight instructions that
/// carries one, and the signature grows from there.
pub proof fn the_first_literal_of_a_method_is_taken(
    image: ImageView,
    method_rva: u64,
    cuts: Seq<int>,
    value: i32,
    offset: usize,
)
    requires
        steps_through(image, cuts),
        cuts[0] == method_rva,
        cuts.len() <= 8,
        forall|j: int| 0 <= j < cuts.len() - 1 ==> carries_none(image, #[trigger] cuts[j]),
        carries(image, cuts.last(), value, offset as int),
        image.mapped.len() <= usize::MAX,
    ensures
        literal_signature(image, method_rva) == signature_from(
            image,
            Anchor {
                start: cuts.last() as usize,
                length: instruction_at(image, cuts.last())->0.length,
                field_offset: offset,
                quality: 0,
            },
            Expectation::Immediate(value),
        ),
{
    lemma_first_literal(image, method_rva, cuts, value, offset, 0, 8);
}

/// A slot has a signature if one of the first twenty-four anchors gives one; no
/// other of those gives a shorter one, unless the one that is taken has at most
/// twenty-four bytes.
pub proof fn a_slot_has_the_best_signature_of_its_anchors(image: ImageView, slot: u64, k: int)
    requires
        0 <= k < anchors_for(image, slot).len(),
        k < 24,
        signature_from(image, anchors_for(image, slot)[k], Expectation::Slot(slot)) is Ok,
    ensures
        slot_signature(image, slot) is Ok,
        slot_signature(image, slot)->Ok_0.pattern.len() <= 24 || slot_signature(
            image,
            slot,
        )->Ok_0.pattern.len() <= signature_from(
            image,
            anchors_for(image, slot)[k],
            Expectation::Slot(slot),
        )->Ok_0.pattern.len(),
{
    let all = anchors_for(image, slot);
    let tried = all.take(least(24, all.len() as int));
    assert(tried[k] == all[k]);
    the_shortest_signature_is_taken(
        image,
        slot,
        tried,
        0,
        None,
        ErrorView::Malformed(
            "could not build a unique signature for the slot at 0x"@ + capital_hex(slot as nat)
                + " within "@ + decimal(MAX_SIGNATURE_BYTES as int) + " bytes"@,
        ),
    );
    assert(signature_from(image, tried[k], Expectation::Slot(slot)) is Ok);
}

/// Without an instruction that loads from it, a slot has no signature.
pub proof fn a_slot_that_nothing_loads_has_no_signature(image: ImageView, slot: u64)
    requires
        anchors_for(image, slot).len() == 0,
    ensures
        slot_signature(image, slot) is Err,
{
}

/// An instruction is what the disassembler reads from up to sixteen bytes at its
/// address, in the mode of the module.
pub proof fn an_instruction_is_read_where_it_stands(image: ImageView, rva: int, i: Instruction)
    ensures
        instruction_at(image, rva) == Some(i) <==> {
            let end = if rva + 16 <= image.mapped.len() {
                rva + 16
            } else {
                image.mapped.len() as int
            };
            let bits = if image.arch == Arch::X64 {
                64u32
            } else {
                32u32
            };
            &&& 0 <= rva < image.mapped.len()
            &&& i == decoded(bits, image.mapped.subrange(rva, end), rva as u64)
            &&& !i.invalid
        },
{
}

/// Up to ninety-six anchors are considered, and all of them where there are no
/// more.
pub proof fn no_anchor_is_passed_over(image: ImageView, slot: u64)
    ensures
        anchors_in(image, slot, image.code()).len() <= 96 ==> anchors_for(
            image,
            slot,
        ).to_multiset() == anchors_in(image, slot, image.code()).to_multiset(),
        anchors_in(image, slot, image.code()).len() > 96 ==> anchors_for(image, slot).to_multiset()
            == anchors_in(image, slot, image.code()).take(96).to_multiset(),
{
    let all = anchors_in(image, slot, image.code());
    if all.len() <= 96 {
        ranking_sorts(all);
    } else {
        ranking_sorts(all.take(96));
    }
}

proof fn lemma_no_literal(
    image: ImageView,
    method_rva: u64,
    cuts: Seq<int>,
    k: int,
    steps: nat,
)
    requires
        steps_through(image, cuts),
        0 <= k < cuts.len(),
        steps == cuts.len() - 1 - k,
        0 <= cuts[k],
        forall|j: int| 0 <= j < cuts.len() - 1 ==> carries_none(image, #[trigger] cuts[j]),
        image.mapped.len() <= usize::MAX,
    ensures
        literal_signature_from(image, method_rva, cuts[k], steps) is Err,
    decreases steps,
{
    if steps > 0 {
        let at = cuts[k];
        let i = instruction_at(image, at)->0;
        let length = i.length as int;
        let bytes = image.mapped.subrange(at, at + length);
        assert(carries_none(image, cuts[k]));
        assert(cuts[k + 1] == cuts[k] + i.length);
        if let Some(other) = literal_of(i) {
            a_literal_is_found_from_the_back(image, at, length, other);
            if let Some(found) = immediate_field_from(bytes, other, length - 4) {
                assert(signed_number(image.mapped, at + found as int, 4) == other);
            }
        }
        lemma_no_literal(image, method_rva, cuts, k + 1, (steps - 1) as nat);
    }
}

/// A method whose first eight instructions carry no literal has no signature.
pub proof fn a_method_without_a_literal_has_no_signature(
    image: ImageView,
    method_rva: u64,
    cuts: Seq<int>,
)
    requires
        steps_through(image, cuts),
        cuts[0] == method_rva,
        cuts.len() == 9,
        forall|j: int| 0 <= j < cuts.len() - 1 ==> carries_none(image, #[trigger] cuts[j]),
        image.mapped.len() <= usize::MAX,
    ensures
        literal_signature(image, method_rva) is Err,
{
    lemma_no_literal(image, method_rva, cuts, 0, 8);
}

} // verus!
