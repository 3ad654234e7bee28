//! Which bytes of a signature are wildcards, said of the instructions it is made
//! of: those that the loader rewrites, the four that the client reads, and the
//! displacements and branch targets that the linker settles. All else is spelled
//! out.

use vstd::prelude::*;

use crate::decode::{Instruction, NEAR_BRANCH_16, NEAR_BRANCH_32, NEAR_BRANCH_64};
use crate::error::ErrorView;
use crate::pattern::{all_matches, fits, lemma_listed, lemma_only_match};
use crate::pe::{Arch, ImageView};
use crate::siggen::{
    all_blanked, backward_step, blanked, client_resolution, extended_backward, extended_forward, grown,
    instruction_at, lemma_forward_grows, lies_in, masked, masked_instruction, relative_field,
    relative_field_from, relative_value, seed, signature_from, signed64, sites, variable, Anchor, Expectation,
    Growth, SignatureView, MAX_SIGNATURE_BYTES,
};

verus! {

/// The signed number of one, two or four bytes at a place, in two's complement,
/// lowest byte first.
pub open spec fn signed_number(bytes: Seq<u8>, at: int, width: int) -> int {
    let (number, modulus) = if width == 1 {
        (bytes[at] as int, 0x100int)
    } else if width == 2 {
        (bytes[at] + 0x100 * bytes[at + 1], 0x1_0000int)
    } else {
        (
            bytes[at] + 0x100 * bytes[at + 1] + 0x1_0000 * bytes[at + 2] + 0x100_0000 * bytes[at
                + 3],
            0x1_0000_0000int,
        )
    };
    if 2 * number < modulus {
        number
    } else {
        number - modulus
    }
}

/// The `width` bytes at `offset` in the instruction at `start`, added to the end
/// of the instruction, give `target`.
pub open spec fn leads_to(
    image: ImageView,
    start: int,
    length: int,
    width: int,
    target: int,
    offset: int,
) -> bool {
    &&& 0 <= offset
    &&& offset + width <= length
    &&& start + length + signed_number(image.mapped, start + offset, width) == target
}

/// The last such bytes of the instruction: displacements and branch targets stand
/// late in an instruction.
pub open spec fn field_at(
    image: ImageView,
    start: int,
    length: int,
    width: int,
    target: int,
    offset: int,
) -> bool {
    &&& leads_to(image, start, length, width, target, offset)
    &&& forall|later: int|
        later > offset ==> !#[trigger] leads_to(image, start, length, width, target, later)
}

/// The instruction has such bytes.
pub open spec fn has_field(
    image: ImageView,
    start: int,
    length: int,
    width: int,
    target: int,
) -> bool {
    exists|offset: int| #[trigger] leads_to(image, start, length, width, target, offset)
}

/// Byte `j` of the instruction is one of those bytes.
pub open spec fn in_field(
    image: ImageView,
    start: int,
    length: int,
    width: int,
    target: int,
    j: int,
) -> bool {
    exists|offset: int|
        #[trigger] field_at(image, start, length, width, target, offset) && offset <= j < offset
            + width
}

/// Byte `j` of the instruction at `start` is settled by the linker: it is part of
/// a displacement that is relative to the instruction pointer, or of the target
/// of a near branch or call, which is four bytes wide, or else two, or else one.
pub open spec fn linked(image: ImageView, start: int, i: Instruction, j: int) -> bool {
    let length = i.length as int;
    let branches = i.operands[0] == NEAR_BRANCH_16 || i.operands[0] == NEAR_BRANCH_32
        || i.operands[0] == NEAR_BRANCH_64;
    let target = signed64(i.branch_target);
    ||| i.ip_relative && in_field(image, start, length, 4, signed64(i.ip_target), j)
    ||| branches && in_field(image, start, length, 4, target, j)
    ||| branches && !has_field(image, start, length, 4, target) && in_field(
        image,
        start,
        length,
        2,
        target,
        j,
    )
    ||| branches && !has_field(image, start, length, 4, target) && !has_field(
        image,
        start,
        length,
        2,
        target,
    ) && in_field(image, start, length, 1, target, j)
}

/// One instruction follows the other at these places, from the first to the last.
pub open spec fn instructions_at(image: ImageView, cuts: Seq<int>) -> bool {
    &&& cuts.len() >= 2
    &&& forall|k: int|
        0 <= k < cuts.len() - 1 ==> (instruction_at(image, #[trigger] cuts[k]) matches Some(i)
            && i.length > 0 && cuts[k + 1] == cuts[k] + i.length)
}

/// A byte of a pattern that starts at `start` is a wildcard if and only if the
/// loader rewrites it, the client reads its field there, or the linker settles
/// it.
pub open spec fn masks(
    image: ImageView,
    pattern: Seq<Option<u8>>,
    start: int,
    field: int,
    cuts: Seq<int>,
) -> bool {
    &&& start <= cuts[0]
    &&& cuts.last() == start + pattern.len()
    &&& cuts[0] <= start + field
    &&& start + field + 4 <= cuts[1]
    &&& forall|at: int|
        start <= at < cuts[0] ==> (#[trigger] pattern[at - start] is None <==> image.rewritten(at))
    &&& forall|k: int, j: int|
        0 <= k < cuts.len() - 1 && 0 <= j < cuts[k + 1] - cuts[k] ==> (
        #[trigger] pattern[cuts[k] + j - start] is None <==> image.rewritten(cuts[k] + j) || (start
            + field <= cuts[k] + j < start + field + 4) || linked(
            image,
            cuts[k],
            instruction_at(image, cuts[k])->0,
            j,
        ))
}

/// Cut off behind any instruction but its last, the pattern matches at more than
/// one place.
pub open spec fn no_longer_than_needed(
    image: ImageView,
    pattern: Seq<Option<u8>>,
    start: int,
    cuts: Seq<int>,
) -> bool {
    forall|k: int|
        1 <= k < cuts.len() - 1 ==> sites(image, pattern.take(#[trigger] cuts[k] - start)) > 1
}

/// A signature that matches at `start` is made of the instructions at these
/// places, from its anchor on. One for a slot starts at its anchor, and has no
/// more instructions than it takes to match at one place only; one for a literal
/// may have bytes before its anchor.
pub open spec fn made_of(
    image: ImageView,
    signature: SignatureView,
    expected: Expectation,
    start: int,
    cuts: Seq<int>,
) -> bool {
    &&& instructions_at(image, cuts)
    &&& cuts[0] == signature.anchor_rva
    &&& masks(image, signature.pattern, start, signature.pattern_offset as int, cuts)
    &&& expected is Slot ==> start == signature.anchor_rva && no_longer_than_needed(
        image,
        signature.pattern,
        start,
        cuts,
    )
}

proof fn lemma_number(image: ImageView, start: int, length: int, offset: int, width: int)
    requires
        0 <= offset,
        offset + width <= length,
        width == 1 || width == 2 || width == 4,
        0 <= start,
        start + length <= image.mapped.len(),
    ensures
        relative_value(image.mapped.subrange(start, start + length), offset, width)
            == signed_number(image.mapped, start + offset, width),
{
    let bytes = image.mapped.subrange(start, start + length);
    assert(bytes[offset] == image.mapped[start + offset]);
    if width >= 2 {
        assert(bytes[offset + 1] == image.mapped[start + offset + 1]);
    }
    if width == 4 {
        assert(bytes[offset + 2] == image.mapped[start + offset + 2]);
        assert(bytes[offset + 3] == image.mapped[start + offset + 3]);
    }
}

proof fn lemma_field_from(
    image: ImageView,
    start: int,
    length: usize,
    width: int,
    target: int,
    offset: int,
)
    requires
        width == 1 || width == 2 || width == 4,
        offset + width <= length,
        0 <= start,
        start + length <= image.mapped.len(),
        forall|later: int|
            later > offset ==> !#[trigger] leads_to(
                image,
                start,
                length as int,
                width,
                target,
                later,
            ),
    ensures
        ({
            let bytes = image.mapped.subrange(start, start + length);
            match relative_field_from(bytes, width, start + length, target, offset) {
                Some(found) => field_at(image, start, length as int, width, target, found as int),
                None => !has_field(image, start, length as int, width, target),
            }
        }),
    decreases offset + 1,
{
    let bytes = image.mapped.subrange(start, start + length);
    if offset >= 0 {
        lemma_number(image, start, length as int, offset, width);
        assert(leads_to(image, start, length as int, width, target, offset) <==> start + length
            + relative_value(bytes, offset, width) == target);
        if start + length + relative_value(bytes, offset, width) != target {
            assert forall|later: int| later > offset - 1 implies !#[trigger] leads_to(
                image,
                start,
                length as int,
                width,
                target,
                later,
            ) by {
                if later > offset {
                }
            }
            lemma_field_from(image, start, length, width, target, offset - 1);
        }
    } else {
        assert forall|at: int| !#[trigger] leads_to(
            image,
            start,
            length as int,
            width,
            target,
            at,
        ) by {
            if at > offset {
            }
        }
    }
}

proof fn lemma_field(image: ImageView, start: int, length: usize, width: int, target: int)
    requires
        width == 1 || width == 2 || width == 4,
        0 <= start,
        start + length <= image.mapped.len(),
    ensures
        ({
            let bytes = image.mapped.subrange(start, start + length);
            match relative_field(bytes, length as int, width, start + length, target) {
                Some(found) => has_field(image, start, length as int, width, target) && forall|
                    j: int,
                |
                    #[trigger] in_field(image, start, length as int, width, target, j) <==> found
                        <= j < found + width,
                None => !has_field(image, start, length as int, width, target) && forall|j: int|
                    !#[trigger] in_field(image, start, length as int, width, target, j),
            }
        }),
{
    let n = length as int;
    let bytes = image.mapped.subrange(start, start + length);
    lemma_field_from(image, start, length, width, target, n - width);
    match relative_field(bytes, n, width, start + length, target) {
        Some(found) => {
            assert(leads_to(image, start, n, width, target, found as int));
            assert forall|j: int| #[trigger] in_field(image, start, n, width, target, j) <==> found
                <= j < found + width by {
                if in_field(image, start, n, width, target, j) {
                    let offset = choose|offset: int|
                        #[trigger] field_at(image, start, n, width, target, offset) && offset <= j
                            < offset + width;
                    if offset < found {
                        assert(leads_to(image, start, n, width, target, found as int));
                    }
                    if found < offset {
                        assert(leads_to(image, start, n, width, target, offset));
                    }
                }
                if found <= j < found + width {
                    assert(field_at(image, start, n, width, target, found as int));
                }
            }
        },
        None => {
            assert forall|j: int| !#[trigger] in_field(image, start, n, width, target, j) by {
                if in_field(image, start, n, width, target, j) {
                    let offset = choose|offset: int|
                        #[trigger] field_at(image, start, n, width, target, offset) && offset <= j
                            < offset + width;
                    assert(leads_to(image, start, n, width, target, offset));
                }
            }
        },
    }
}

/// One of these fields covers the byte.
spec fn blanks(fields: Seq<(usize, usize)>, j: int) -> bool {
    exists|f: int| 0 <= f < fields.len() && (#[trigger] fields[f]).0 <= j < fields[f].0 + fields[f].1
}

proof fn lemma_blanked(bytes: Seq<Option<u8>>, fields: Seq<(usize, usize)>, j: int)
    requires
        0 <= j < bytes.len(),
    ensures
        all_blanked(bytes, fields).len() == bytes.len(),
        all_blanked(bytes, fields)[j] is None <==> bytes[j] is None || blanks(fields, j),
    decreases fields.len(),
{
    if fields.len() > 0 {
        let fewer = fields.drop_last();
        let last = fields.len() - 1;
        lemma_blanked(bytes, fewer, j);
        if blanks(fewer, j) {
            let f = choose|f: int|
                0 <= f < fewer.len() && (#[trigger] fewer[f]).0 <= j < fewer[f].0 + fewer[f].1;
            assert(fields[f].0 <= j < fields[f].0 + fields[f].1);
        }
        if blanks(fields, j) {
            let f = choose|f: int|
                0 <= f < fields.len() && (#[trigger] fields[f]).0 <= j < fields[f].0 + fields[f].1;
            if f < last {
                assert(fewer[f].0 <= j < fewer[f].0 + fewer[f].1);
            }
        }
        if fields[last].0 <= j < fields[last].0 + fields[last].1 {
            assert(blanks(fields, j));
        }
    }
}

proof fn lemma_variable(image: ImageView, start: int, i: Instruction, j: int)
    requires
        0 <= start,
        start + i.length <= image.mapped.len(),
    ensures
        blanks(
            variable(i, image.mapped.subrange(start, start + i.length), start),
            j,
        ) <==> linked(image, start, i, j),
{
    let length = i.length;
    let fields = variable(i, image.mapped.subrange(start, start + length), start);
    let target = signed64(i.branch_target);
    let bytes = image.mapped.subrange(start, start + length);
    let end = start + length;
    lemma_field(image, start, length, 4, signed64(i.ip_target));
    lemma_field(image, start, length, 4, target);
    lemma_field(image, start, length, 2, target);
    lemma_field(image, start, length, 1, target);
    if blanks(fields, j) {
        let f = choose|f: int|
            0 <= f < fields.len() && (#[trigger] fields[f]).0 <= j < fields[f].0 + fields[f].1;
        assert(f == 0 || f == 1);
    }
    if linked(image, start, i, j) {
        let n = length as int;
        if i.ip_relative && in_field(image, start, n, 4, signed64(i.ip_target), j) {
            assert(fields[0].1 == 4);
        } else {
            let f = fields.len() - 1;
            assert(fields[f].0 <= j < fields[f].0 + fields[f].1);
        }
    }
}

/// Which bytes of a masked instruction are wildcards.
proof fn lemma_masked(image: ImageView, start: int, forced: Option<usize>, j: int)
    requires
        instruction_at(image, start) is Some,
        start + instruction_at(image, start)->0.length <= image.mapped.len(),
        0 <= j < instruction_at(image, start)->0.length,
    ensures
        ({
            let i = instruction_at(image, start)->0;
            let pattern = masked_instruction(image, start, i.length as int, forced);
            &&& pattern.len() == i.length
            &&& pattern[j] is None <==> image.rewritten(start + j) || (forced is Some && forced->0
                <= j < forced->0 + 4) || linked(image, start, i, j)
        }),
{
    let i = instruction_at(image, start)->0;
    let bytes = match forced {
        Some(offset) => blanked(masked(image, start, i.length as int), offset as int, 4),
        None => masked(image, start, i.length as int),
    };
    let fields = variable(i, image.mapped.subrange(start, start + i.length), start);
    lemma_blanked(bytes, fields, j);
    lemma_variable(image, start, i, j);
}

/// What growing keeps of a signature, with the places where its instructions
/// start.
pub open spec fn well_cut(
    image: ImageView,
    anchor_start: int,
    expected: Expectation,
    g: Growth,
    cuts: Seq<int>,
) -> bool {
    &&& instructions_at(image, cuts)
    &&& cuts[0] == anchor_start
    &&& masks(image, g.pattern, g.start, g.field_offset, cuts)
    &&& expected is Slot ==> g.start == anchor_start && no_longer_than_needed(
        image,
        g.pattern,
        g.start,
        cuts,
    )
}

proof fn lemma_seed_cut(image: ImageView, anchor: Anchor, expected: Expectation)
    requires
        lies_in(anchor, image),
    ensures
        well_cut(
            image,
            anchor.start as int,
            expected,
            seed(image, anchor),
            seq![anchor.start as int, anchor.start + anchor.length],
        ),
{
    let g = seed(image, anchor);
    let start = anchor.start as int;
    let cuts = seq![start, start + anchor.length];
    lemma_masked(image, start, Some(anchor.field_offset), 0);
    assert forall|k: int, j: int| 0 <= k < cuts.len() - 1 && 0 <= j < cuts[k + 1] - cuts[k] implies (
    #[trigger] g.pattern[cuts[k] + j - g.start] is None <==> image.rewritten(cuts[k] + j) || (
    g.start + g.field_offset <= cuts[k] + j < g.start + g.field_offset + 4) || linked(
        image,
        cuts[k],
        instruction_at(image, cuts[k])->0,
        j,
    )) by {
        lemma_masked(image, start, Some(anchor.field_offset), j);
    }
}

proof fn lemma_forward_cut(
    image: ImageView,
    anchor_start: int,
    expected: Expectation,
    g: Growth,
    cuts: Seq<int>,
)
    requires
        well_cut(image, anchor_start, expected, g, cuts),
        extended_forward(image, g) is Some,
        sites(image, g.pattern) > 1,
    ensures
        well_cut(
            image,
            anchor_start,
            expected,
            extended_forward(image, g)->0,
            cuts.push(
                g.start + g.pattern.len() + instruction_at(
                    image,
                    g.start + g.pattern.len(),
                )->0.length,
            ),
        ),
{
    let cursor = g.start + g.pattern.len();
    let next = instruction_at(image, cursor)->0;
    let more = masked_instruction(image, cursor, next.length as int, None);
    let ahead = extended_forward(image, g)->0;
    let longer = cuts.push(cursor + next.length);
    let n = cuts.len() - 1;
    lemma_masked(image, cursor, None, 0);
    assert(cuts[n] == cursor);
    assert forall|k: int| 0 <= k < longer.len() - 1 implies (instruction_at(
        image,
        #[trigger] longer[k],
    ) matches Some(i) && i.length > 0 && longer[k + 1] == longer[k] + i.length) by {
        if k < n {
            assert(longer[k] == cuts[k] && longer[k + 1] == cuts[k + 1]);
        }
    }
    assert forall|at: int| g.start <= at < longer[0] implies (
    #[trigger] ahead.pattern[at - g.start] is None <==> image.rewritten(at)) by {
        lemma_rising(image, cuts, 0, n);
        assert(ahead.pattern[at - g.start] == g.pattern[at - g.start]);
    }
    assert forall|k: int, j: int|
        0 <= k < longer.len() - 1 && 0 <= j < longer[k + 1] - longer[k] implies (
    #[trigger] ahead.pattern[longer[k] + j - g.start] is None <==> image.rewritten(longer[k] + j)
        || (g.start + g.field_offset <= longer[k] + j < g.start + g.field_offset + 4) || linked(
        image,
        longer[k],
        instruction_at(image, longer[k])->0,
        j,
    )) by {
        if k < n {
            assert(longer[k] == cuts[k] && longer[k + 1] == cuts[k + 1]);
            lemma_rising(image, cuts, k + 1, n);
            lemma_rising(image, cuts, 0, k);
            assert(ahead.pattern[cuts[k] + j - g.start] == g.pattern[cuts[k] + j - g.start]);
        } else {
            lemma_rising(image, cuts, 1, n);
            lemma_masked(image, cursor, None, j);
            assert(ahead.pattern[cursor + j - g.start] == more[j]);
        }
    }
    if expected is Slot {
        assert forall|k: int| 1 <= k < longer.len() - 1 implies sites(
            image,
            ahead.pattern.take(#[trigger] longer[k] - g.start),
        ) > 1 by {
            lemma_rising(image, cuts, k, n);
            lemma_rising(image, cuts, 0, k);
            if k < n {
                assert(ahead.pattern.take(longer[k] - g.start) =~= g.pattern.take(
                    cuts[k] - g.start,
                ));
            } else {
                assert(ahead.pattern.take(longer[k] - g.start) =~= g.pattern);
            }
        }
    }
}

/// The places of instructions rise.
proof fn lemma_rising(image: ImageView, cuts: Seq<int>, a: int, b: int)
    requires
        instructions_at(image, cuts),
        0 <= a <= b < cuts.len(),
    ensures
        cuts[a] <= cuts[b],
        a < b ==> cuts[a] < cuts[b],
    decreases b - a,
{
    if a < b {
        lemma_rising(image, cuts, a, b - 1);
        assert(cuts[b - 1] < cuts[b]);
    }
}

proof fn lemma_backward_cut(
    image: ImageView,
    anchor_start: int,
    expected: Expectation,
    g: Growth,
    cuts: Seq<int>,
)
    requires
        well_cut(image, anchor_start, expected, g, cuts),
        !(expected is Slot),
        backward_step(g) >= 0,
    ensures
        well_cut(image, anchor_start, expected, extended_backward(image, g), cuts),
{
    let step = backward_step(g);
    let front = masked(image, g.start - step, step);
    let whole = extended_backward(image, g);
    assert forall|at: int| whole.start <= at < cuts[0] implies (
    #[trigger] whole.pattern[at - whole.start] is None <==> image.rewritten(at)) by {
        if at < g.start {
            assert(whole.pattern[at - whole.start] == front[at - whole.start]);
        } else {
            lemma_rising(image, cuts, 0, cuts.len() - 1);
            assert(whole.pattern[at - whole.start] == g.pattern[at - g.start]);
        }
    }
    assert forall|k: int, j: int|
        0 <= k < cuts.len() - 1 && 0 <= j < cuts[k + 1] - cuts[k] implies (
    #[trigger] whole.pattern[cuts[k] + j - whole.start] is None <==> image.rewritten(cuts[k] + j)
        || (whole.start + whole.field_offset <= cuts[k] + j < whole.start + whole.field_offset + 4)
        || linked(image, cuts[k], instruction_at(image, cuts[k])->0, j)) by {
        lemma_rising(image, cuts, 0, k);
        lemma_rising(image, cuts, k + 1, cuts.len() - 1);
        assert(whole.pattern[cuts[k] + j - whole.start] == g.pattern[cuts[k] + j - g.start]);
    }
}

/// Growing keeps a signature well cut.
proof fn lemma_grown_cut(
    image: ImageView,
    anchor_start: int,
    expected: Expectation,
    g: Growth,
    cuts: Seq<int>,
) -> (all: Seq<int>)
    requires
        well_cut(image, anchor_start, expected, g, cuts),
    ensures
        grown(image, anchor_start, expected, g) is Ok ==> well_cut(
            image,
            anchor_start,
            expected,
            grown(image, anchor_start, expected, g)->Ok_0,
            all,
        ),
    decreases MAX_SIGNATURE_BYTES - g.pattern.len(),
{
    let count = sites(image, g.pattern);
    if count > 1 && g.pattern.len() < MAX_SIGNATURE_BYTES {
        lemma_forward_grows(image, g);
        let cursor = g.start + g.pattern.len();
        let next = instruction_at(image, cursor)->0;
        let longer = cuts.push(cursor + next.length);
        let ahead = extended_forward(image, g);
        if ahead is Some {
            lemma_forward_cut(image, anchor_start, expected, g, cuts);
        }
        let stuck = if ahead is Some {
            ahead->0
        } else {
            g
        };
        let places = if ahead is Some {
            longer
        } else {
            cuts
        };
        if ahead is Some && sites(image, ahead->0.pattern) < count {
            lemma_grown_cut(image, anchor_start, expected, ahead->0, longer)
        } else if !(expected is Slot) && stuck.start > 0 && stuck.pattern.len()
            < MAX_SIGNATURE_BYTES {
            lemma_backward_cut(image, anchor_start, expected, stuck, places);
            lemma_grown_cut(
                image,
                anchor_start,
                expected,
                extended_backward(image, stuck),
                places,
            )
        } else {
            cuts
        }
    } else {
        cuts
    }
}

/// What an anchor grows into is well cut.
pub proof fn lemma_grown_from_anchor(
    image: ImageView,
    anchor: Anchor,
    expected: Expectation,
) -> (all: Seq<int>)
    requires
        lies_in(anchor, image),
    ensures
        ({
            let done = grown(image, anchor.start as int, expected, seed(image, anchor));
            done is Ok ==> well_cut(image, anchor.start as int, expected, done->Ok_0, all)
        }),
{
    lemma_seed_cut(image, anchor, expected);
    lemma_grown_cut(
        image,
        anchor.start as int,
        expected,
        seed(image, anchor),
        seq![anchor.start as int, anchor.start + anchor.length],
    )
}

/// The pattern spells out the bytes that stand there.
pub open spec fn spells(image: ImageView, pattern: Seq<Option<u8>>, start: int) -> bool {
    &&& 0 <= start
    &&& start + pattern.len() <= image.mapped.len()
    &&& forall|i: int|
        0 <= i < pattern.len() ==> (#[trigger] pattern[i] matches Some(byte) ==> byte
            == image.mapped[start + i])
}

/// Every byte of a pattern stands in one of its instructions.
proof fn lemma_cut_of(image: ImageView, cuts: Seq<int>, at: int) -> (k: int)
    requires
        instructions_at(image, cuts),
        cuts[0] <= at < cuts.last(),
    ensures
        0 <= k < cuts.len() - 1,
        cuts[k] <= at < cuts[k + 1],
    decreases cuts.len(),
{
    lemma_cut_below(image, cuts, at, cuts.len() - 1)
}

proof fn lemma_cut_below(image: ImageView, cuts: Seq<int>, at: int, n: int) -> (k: int)
    requires
        instructions_at(image, cuts),
        0 < n < cuts.len(),
        cuts[0] <= at < cuts[n],
    ensures
        0 <= k < n,
        cuts[k] <= at < cuts[k + 1],
    decreases n,
{
    if cuts[n - 1] <= at {
        n - 1
    } else {
        lemma_cut_below(image, cuts, at, n - 1)
    }
}

/// The instructions, the field and the bytes leave only one pattern.
proof fn lemma_one_pattern(
    image: ImageView,
    a: Seq<Option<u8>>,
    b: Seq<Option<u8>>,
    start: int,
    field: int,
    cuts: Seq<int>,
)
    requires
        instructions_at(image, cuts),
        masks(image, a, start, field, cuts),
        masks(image, b, start, field, cuts),
        spells(image, a, start),
        spells(image, b, start),
    ensures
        a == b,
{
    assert forall|i: int| 0 <= i < a.len() implies a[i] == b[i] by {
        let at = start + i;
        if at < cuts[0] {
            assert(a[at - start] is None <==> image.rewritten(at));
            assert(b[at - start] is None <==> image.rewritten(at));
        } else {
            let k = lemma_cut_of(image, cuts, at);
            let j = at - cuts[k];
            assert(a[cuts[k] + j - start] is None <==> b[cuts[k] + j - start] is None);
        }
    }
    assert(a =~= b);
}

/// What is cut off behind an instruction is masked as the whole is.
proof fn lemma_take(
    image: ImageView,
    pattern: Seq<Option<u8>>,
    start: int,
    field: int,
    cuts: Seq<int>,
    n: int,
)
    requires
        instructions_at(image, cuts),
        masks(image, pattern, start, field, cuts),
        spells(image, pattern, start),
        1 <= n < cuts.len(),
    ensures
        instructions_at(image, cuts.take(n + 1)),
        masks(image, pattern.take(cuts[n] - start), start, field, cuts.take(n + 1)),
        spells(image, pattern.take(cuts[n] - start), start),
        0 <= cuts[n] - start <= pattern.len(),
{
    let fewer = cuts.take(n + 1);
    lemma_rising(image, cuts, n, cuts.len() - 1);
    lemma_rising(image, cuts, 0, n);
    lemma_rising(image, cuts, 1, n);
    let part = pattern.take(cuts[n] - start);
    assert forall|k: int| 0 <= k < fewer.len() - 1 implies (instruction_at(
        image,
        #[trigger] fewer[k],
    ) matches Some(i) && i.length > 0 && fewer[k + 1] == fewer[k] + i.length) by {
        assert(fewer[k] == cuts[k] && fewer[k + 1] == cuts[k + 1]);
    }
    assert forall|at: int| start <= at < fewer[0] implies (
    #[trigger] part[at - start] is None <==> image.rewritten(at)) by {
        assert(part[at - start] == pattern[at - start]);
    }
    assert forall|k: int, j: int| 0 <= k < fewer.len() - 1 && 0 <= j < fewer[k + 1]
        - fewer[k] implies (#[trigger] part[fewer[k] + j - start] is None <==> image.rewritten(
        fewer[k] + j,
    ) || (start + field <= fewer[k] + j < start + field + 4) || linked(
        image,
        fewer[k],
        instruction_at(image, fewer[k])->0,
        j,
    )) by {
        assert(fewer[k] == cuts[k] && fewer[k + 1] == cuts[k + 1]);
        lemma_rising(image, cuts, 0, k);
        lemma_rising(image, cuts, k + 1, n);
        assert(part[cuts[k] + j - start] == pattern[cuts[k] + j - start]);
    }
    assert forall|i: int| 0 <= i < part.len() implies (#[trigger] part[i] matches Some(byte)
        ==> byte == image.mapped[start + i]) by {
        assert(part[i] == pattern[i]);
    }
}

/// What growing made of the first `n` instructions is the pattern cut off there.
proof fn lemma_grows_to(
    image: ImageView,
    anchor: Anchor,
    slot: u64,
    pattern: Seq<Option<u8>>,
    cuts: Seq<int>,
    n: int,
)
    requires
        lies_in(anchor, image),
        instructions_at(image, cuts),
        cuts[0] == anchor.start,
        masks(image, pattern, anchor.start as int, anchor.field_offset as int, cuts),
        spells(image, pattern, anchor.start as int),
        pattern.len() <= MAX_SIGNATURE_BYTES,
        1 <= n < cuts.len(),
        forall|k: int|
            1 <= k < cuts.len() - 1 ==> sites(
                image,
                pattern.take(#[trigger] cuts[k + 1] - anchor.start),
            ) < sites(image, pattern.take(cuts[k] - anchor.start)),
        sites(image, pattern) == 1,
    ensures
        grown(
            image,
            anchor.start as int,
            Expectation::Slot(slot),
            Growth {
                pattern: pattern.take(cuts[n] - anchor.start),
                start: anchor.start as int,
                field_offset: anchor.field_offset as int,
            },
        ) == Ok::<Growth, ErrorView>(
            Growth {
                pattern,
                start: anchor.start as int,
                field_offset: anchor.field_offset as int,
            },
        ),
    decreases cuts.len() - n,
{
    let start = anchor.start as int;
    let field = anchor.field_offset as int;
    let last = cuts.len() - 1;
    let part = pattern.take(cuts[n] - start);
    if n == last {
        assert(part =~= pattern);
    } else {
        lemma_falling(image, pattern, start, cuts, n);
        lemma_step(image, start, field, pattern, cuts, n);
        assert(sites(image, pattern.take(cuts[n + 1] - start)) < sites(image, part));
        lemma_rising(image, cuts, n, n + 1);
        lemma_rising(image, cuts, n + 1, last);
        lemma_forward_grows(image, Growth { pattern: part, start, field_offset: field });
        lemma_grows_to(image, anchor, slot, pattern, cuts, n + 1);
    }
}

/// Going on from the first `n` instructions gives the first `n + 1`.
proof fn lemma_step(
    image: ImageView,
    start: int,
    field: int,
    pattern: Seq<Option<u8>>,
    cuts: Seq<int>,
    n: int,
)
    requires
        instructions_at(image, cuts),
        cuts[0] == start,
        masks(image, pattern, start, field, cuts),
        spells(image, pattern, start),
        pattern.len() <= MAX_SIGNATURE_BYTES,
        1 <= n < cuts.len() - 1,
        sites(image, pattern.take(cuts[n] - start)) > 1,
    ensures
        extended_forward(
            image,
            Growth { pattern: pattern.take(cuts[n] - start), start, field_offset: field },
        ) == Some(
            Growth { pattern: pattern.take(cuts[n + 1] - start), start, field_offset: field },
        ),
{
    let last = cuts.len() - 1;
    let part = pattern.take(cuts[n] - start);
    let g = Growth { pattern: part, start, field_offset: field };
    let i = instruction_at(image, cuts[n])->0;
    let next = pattern.take(cuts[n + 1] - start);
    lemma_take(image, pattern, start, field, cuts, n);
    lemma_take(image, pattern, start, field, cuts, n + 1);
    assert(cuts[n + 1] == cuts[n] + i.length);
    lemma_rising(image, cuts, n + 1, last);
    lemma_rising(image, cuts, 0, n);
    let ahead = extended_forward(image, g)->0;
    let expected = Expectation::Immediate(0);
    assert(well_cut(image, start, expected, g, cuts.take(n + 1)));
    lemma_forward_cut(image, start, expected, g, cuts.take(n + 1));
    assert(cuts.take(n + 1).push(cuts[n + 1]) =~= cuts.take(n + 2));
    lemma_forward_true(image, g);
    lemma_one_pattern(image, ahead.pattern, next, start, field, cuts.take(n + 2));
}

/// A masked instruction spells out its own bytes.
proof fn lemma_masked_spells(image: ImageView, start: int, j: int)
    requires
        instruction_at(image, start) is Some,
        start + instruction_at(image, start)->0.length <= image.mapped.len(),
        0 <= j < instruction_at(image, start)->0.length,
    ensures
        masked_instruction(
            image,
            start,
            instruction_at(image, start)->0.length as int,
            None,
        )[j] matches Some(byte) ==> byte == image.mapped[start + j],
{
    let i = instruction_at(image, start)->0;
    let bytes = masked(image, start, i.length as int);
    let fields = variable(i, image.mapped.subrange(start, start + i.length), start);
    lemma_blanked(bytes, fields, j);
    lemma_kept(bytes, fields, j);
}

proof fn lemma_kept(bytes: Seq<Option<u8>>, fields: Seq<(usize, usize)>, j: int)
    requires
        0 <= j < bytes.len(),
    ensures
        all_blanked(bytes, fields)[j] is Some ==> all_blanked(bytes, fields)[j] == bytes[j],
    decreases fields.len(),
{
    if fields.len() > 0 {
        lemma_kept(bytes, fields.drop_last(), j);
        lemma_blanked(bytes, fields.drop_last(), j);
    }
}

/// With each instruction fewer places are left, so before the last there is more
/// than one.
proof fn lemma_falling(
    image: ImageView,
    pattern: Seq<Option<u8>>,
    start: int,
    cuts: Seq<int>,
    n: int,
)
    requires
        instructions_at(image, cuts),
        cuts.last() == start + pattern.len(),
        1 <= n < cuts.len() - 1,
        forall|k: int|
            1 <= k < cuts.len() - 1 ==> sites(
                image,
                pattern.take(#[trigger] cuts[k + 1] - start),
            ) < sites(image, pattern.take(cuts[k] - start)),
        sites(image, pattern) == 1,
    ensures
        sites(image, pattern.take(cuts[n] - start)) > 1,
        n < cuts.len() - 1,
    decreases cuts.len() - n,
{
    assert(sites(image, pattern.take(cuts[n + 1] - start)) < sites(
        image,
        pattern.take(cuts[n] - start),
    ));
    if n + 1 < cuts.len() - 1 {
        lemma_falling(image, pattern, start, cuts, n + 1);
    } else {
        assert(pattern.take(cuts[n + 1] - start) =~= pattern);
    }
}

/// A signature is owed: where whole instructions from an anchor on, masked as
/// they have to be, leave fewer places with each of them, and one in the end,
/// within the longest that is allowed, and the client resolves it to the slot,
/// the anchor gives that signature.
pub proof fn an_anchor_gives_a_signature_if_it_can(
    image: ImageView,
    anchor: Anchor,
    slot: u64,
    pattern: Seq<Option<u8>>,
    cuts: Seq<int>,
)
    requires
        lies_in(anchor, image),
        image.mapped.len() <= usize::MAX,
        instructions_at(image, cuts),
        cuts[0] == anchor.start,
        masks(image, pattern, anchor.start as int, anchor.field_offset as int, cuts),
        spells(image, pattern, anchor.start as int),
        pattern.len() <= 96,
        forall|k: int|
            1 <= k < cuts.len() - 1 ==> sites(
                image,
                pattern.take(#[trigger] cuts[k + 1] - anchor.start),
            ) < sites(image, pattern.take(cuts[k] - anchor.start)),
        sites(image, pattern) == 1,
        sites(image, pattern.take(cuts[1] - anchor.start)) < 2_000_000,
        client_resolution(
            image,
            anchor.start as int,
            anchor.field_offset as int,
            if image.arch == Arch::X64 {
                4
            } else {
                0
            },
        ) == Ok::<u64, ErrorView>(slot),
    ensures
        signature_from(image, anchor, Expectation::Slot(slot)) matches Ok(signature)
            && signature.pattern == pattern && signature.pattern_offset == anchor.field_offset
            && signature.anchor_rva == anchor.start,
{
    let start = anchor.start as int;
    let field = anchor.field_offset as int;
    let g = seed(image, anchor);
    let first = pattern.take(cuts[1] - start);
    lemma_seed_cut(image, anchor, Expectation::Slot(slot));
    lemma_take(image, pattern, start, field, cuts, 1);
    assert(cuts.take(2) =~= seq![start, start + anchor.length]);
    assert forall|p: int| 0 <= p < g.pattern.len() implies (
    #[trigger] g.pattern[p] matches Some(byte) ==> byte == image.mapped[start + p]) by {
        lemma_seed_spells(image, anchor, p);
    }
    lemma_one_pattern(image, g.pattern, first, start, field, cuts.take(2));
    lemma_grows_to(image, anchor, slot, pattern, cuts, 1);
    assert(fits(pattern, image.mapped, start)) by {
        assert forall|i: int| 0 <= i < pattern.len() implies (#[trigger] pattern[i] is None
            || pattern[i] == Some(image.mapped[start + i])) by {}
    }
    lemma_only_match(pattern, image.mapped, start);
}

proof fn lemma_seed_spells(image: ImageView, anchor: Anchor, j: int)
    requires
        lies_in(anchor, image),
        0 <= j < anchor.length,
    ensures
        seed(image, anchor).pattern[j] matches Some(byte) ==> byte == image.mapped[anchor.start
            + j],
{
    let start = anchor.start as int;
    let i = instruction_at(image, start)->0;
    let bytes = blanked(masked(image, start, i.length as int), anchor.field_offset as int, 4);
    let fields = variable(i, image.mapped.subrange(start, start + i.length), start);
    lemma_blanked(bytes, fields, j);
    lemma_kept(bytes, fields, j);
}

/// The pattern of a signature that is being grown spells out its own bytes, so it
/// matches where it was taken from.
spec fn grows_true(image: ImageView, g: Growth) -> bool {
    spells(image, g.pattern, g.start)
}

proof fn lemma_matches_itself(image: ImageView, g: Growth)
    requires
        grows_true(image, g),
        image.mapped.len() <= usize::MAX,
    ensures
        sites(image, g.pattern) > 0,
{
    let n = image.mapped.len() as int;
    assert(fits(g.pattern, image.mapped, g.start)) by {
        assert forall|i: int| 0 <= i < g.pattern.len() implies (#[trigger] g.pattern[i] is None
            || g.pattern[i] == Some(image.mapped[g.start + i])) by {}
    }
    lemma_listed(g.pattern, image.mapped, n + 1);
    assert(all_matches(g.pattern, image.mapped).contains(g.start as usize));
}

proof fn lemma_forward_true(image: ImageView, g: Growth)
    requires
        grows_true(image, g),
        extended_forward(image, g) is Some,
    ensures
        grows_true(image, extended_forward(image, g)->0),
{
    let cursor = g.start + g.pattern.len();
    let ahead = extended_forward(image, g)->0;
    let next = instruction_at(image, cursor)->0;
    let more = masked_instruction(image, cursor, next.length as int, None);
    lemma_masked(image, cursor, None, 0);
    assert forall|p: int| 0 <= p < ahead.pattern.len() implies (
    #[trigger] ahead.pattern[p] matches Some(byte) ==> byte == image.mapped[g.start + p]) by {
        if p < g.pattern.len() {
            assert(ahead.pattern[p] == g.pattern[p]);
        } else {
            lemma_masked_spells(image, cursor, p - g.pattern.len());
            assert(ahead.pattern[p] == more[p - g.pattern.len()]);
        }
    }
}

proof fn lemma_backward_true(image: ImageView, g: Growth)
    requires
        grows_true(image, g),
        0 <= backward_step(g) <= g.start,
    ensures
        grows_true(image, extended_backward(image, g)),
{
    let step = backward_step(g);
    let whole = extended_backward(image, g);
    let front = masked(image, g.start - step, step);
    assert forall|p: int| 0 <= p < whole.pattern.len() implies (
    #[trigger] whole.pattern[p] matches Some(byte) ==> byte == image.mapped[whole.start + p]) by {
        if p < step {
            assert(whole.pattern[p] == front[p]);
        } else {
            assert(whole.pattern[p] == g.pattern[p - step]);
        }
    }
}

proof fn lemma_literal_grows(image: ImageView, anchor_start: int, value: i32, g: Growth) -> (r:
    Growth)
    requires
        grows_true(image, g),
        image.mapped.len() <= usize::MAX,
        g.pattern.len() <= MAX_SIGNATURE_BYTES,
    ensures
        grown(image, anchor_start, Expectation::Immediate(value), g) is Err ==> {
            &&& spells(image, r.pattern, r.start)
            &&& r.start == 0 || r.pattern.len() == MAX_SIGNATURE_BYTES
            &&& sites(image, r.pattern) > 1
            &&& r.start <= g.start
            &&& r.start + r.pattern.len() >= g.start + g.pattern.len()
        },
    decreases MAX_SIGNATURE_BYTES - g.pattern.len(),
{
    let expected = Expectation::Immediate(value);
    lemma_matches_itself(image, g);
    let count = sites(image, g.pattern);
    if count > 1 && g.pattern.len() < MAX_SIGNATURE_BYTES {
        lemma_forward_grows(image, g);
        let ahead = extended_forward(image, g);
        if ahead is Some {
            lemma_forward_true(image, g);
            lemma_matches_itself(image, ahead->0);
        }
        let stuck = if ahead is Some {
            ahead->0
        } else {
            g
        };
        if ahead is Some && sites(image, ahead->0.pattern) < count {
            lemma_literal_grows(image, anchor_start, value, ahead->0)
        } else if stuck.start > 0 && stuck.pattern.len() < MAX_SIGNATURE_BYTES {
            lemma_backward_true(image, stuck);
            lemma_literal_grows(image, anchor_start, value, extended_backward(image, stuck))
        } else {
            if ahead is Some {
                lemma_no_more_places(image, g, ahead->0);
            }
            stuck
        }
    } else {
        g
    }
}

/// Appending never leaves more places, and here not fewer.
proof fn lemma_no_more_places(image: ImageView, g: Growth, ahead: Growth)
    requires
        sites(image, ahead.pattern) >= sites(image, g.pattern),
        sites(image, g.pattern) > 1,
    ensures
        sites(image, ahead.pattern) > 1,
{
}

/// A literal is given up only when its signature, grown in both directions, still
/// matches at several places although it has reached the start of the image or
/// the longest that is allowed.
pub proof fn a_literal_is_given_up_only_at_the_limit(
    image: ImageView,
    anchor: Anchor,
    value: i32,
) -> (r: Growth)
    requires
        lies_in(anchor, image),
        image.mapped.len() <= usize::MAX,
        sites(image, seed(image, anchor).pattern) < 2_000_000,
        signed_number(image.mapped, anchor.start + anchor.field_offset, 4) == value,
    ensures
        signature_from(image, anchor, Expectation::Immediate(value)) is Err ==> {
            &&& spells(image, r.pattern, r.start)
            &&& r.start == 0 || r.pattern.len() == 96
            &&& sites(image, r.pattern) > 1
            &&& r.start <= anchor.start
            &&& r.start + r.pattern.len() >= anchor.start + anchor.length
        },
{
    let g = seed(image, anchor);
    let expected = Expectation::Immediate(value);
    lemma_masked(image, anchor.start as int, Some(anchor.field_offset), 0);
    assert forall|p: int| 0 <= p < g.pattern.len() implies (
    #[trigger] g.pattern[p] matches Some(byte) ==> byte == image.mapped[anchor.start + p]) by {
        lemma_seed_spells(image, anchor, p);
    }
    let cuts = lemma_grown_from_anchor(image, anchor, expected);
    let done = grown(image, anchor.start as int, expected, g);
    if done is Ok {
        lemma_grown_true(image, anchor.start as int, expected, g);
        let last = done->Ok_0;
        assert(fits(last.pattern, image.mapped, last.start)) by {
            assert forall|i: int| 0 <= i < last.pattern.len() implies (
            #[trigger] last.pattern[i] is None || last.pattern[i] == Some(
                image.mapped[last.start + i],
            )) by {}
        }
        lemma_only_match(last.pattern, image.mapped, last.start);
    }
    lemma_literal_grows(image, anchor.start as int, value, g)
}

/// Growing keeps the pattern true to its bytes, the field where it is, and ends
/// with one place.
proof fn lemma_grown_true(image: ImageView, anchor_start: int, expected: Expectation, g: Growth)
    requires
        grows_true(image, g),
    ensures
        grown(image, anchor_start, expected, g) matches Ok(done) ==> {
            &&& grows_true(image, done)
            &&& done.start + done.field_offset == g.start + g.field_offset
            &&& sites(image, done.pattern) == 1
        },
    decreases MAX_SIGNATURE_BYTES - g.pattern.len(),
{
    let count = sites(image, g.pattern);
    if count > 1 && g.pattern.len() < MAX_SIGNATURE_BYTES {
        lemma_forward_grows(image, g);
        let ahead = extended_forward(image, g);
        if ahead is Some {
            lemma_forward_true(image, g);
        }
        let stuck = if ahead is Some {
            ahead->0
        } else {
            g
        };
        if ahead is Some && sites(image, ahead->0.pattern) < count {
            lemma_grown_true(image, anchor_start, expected, ahead->0);
        } else if !(expected is Slot) && stuck.start > 0 && stuck.pattern.len()
            < MAX_SIGNATURE_BYTES {
            lemma_backward_true(image, stuck);
            lemma_grown_true(image, anchor_start, expected, extended_backward(image, stuck));
        }
    }
}

} // verus!
