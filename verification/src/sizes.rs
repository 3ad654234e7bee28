//! How types of a C header are laid out in memory, said of their sizes and
//! alignments, and how the header is read into structs.

use vstd::prelude::*;

use crate::il2cpph::{
    after_lines, aligned, closed_structs, declared_member, declared_struct, plain_name, scalar_size,
    structs_of, HeaderView, Layout, Members, NESTING,
};
use crate::pe::Arch;
use crate::text::{
    contains, is_white, lemma_absent, lemma_nothing_to_trim, lines, occurs_at, trim, trim_end,
    trim_end_char, trim_start,
};

verus! {

/// `place` is the first multiple of `align` from `end` on.
pub open spec fn is_next(place: int, end: int, align: int) -> bool {
    end <= place < end + align && place % align == 0
}

/// Aligning moves on to the next multiple, and no further.
pub proof fn aligning_moves_to_the_next_multiple(value: int, align: int)
    requires
        0 <= value,
        0 < align,
    ensures
        is_next(aligned(value, align), value, align),
{
    if align > 1 {
        let q = (value + align - 1) / align;
        let r = (value + align - 1) % align;
        vstd::arithmetic::div_mod::lemma_fundamental_div_mod(value + align - 1, align);
        assert(0 <= r < align) by {
            vstd::arithmetic::div_mod::lemma_mod_bound(value + align - 1, align);
        }
        assert(q * align == align * q) by (nonlinear_arith);
        assert(q * align == value + align - 1 - r);
        vstd::arithmetic::div_mod::lemma_mod_multiples_basic(q, align);
    }
}

/// Two places cannot both be the next one.
pub proof fn lemma_next_is_one(a: int, b: int, end: int, align: int)
    requires
        0 < align,
        is_next(a, end, align),
        is_next(b, end, align),
    ensures
        a == b,
{
    if a < b {
        lemma_apart(a, b, align);
    }
    if b < a {
        lemma_apart(b, a, align);
    }
}

proof fn lemma_apart(a: int, b: int, align: int)
    requires
        0 < align,
        a < b,
        a % align == 0,
        b % align == 0,
    ensures
        a + align <= b,
{
    vstd::arithmetic::div_mod::lemma_fundamental_div_mod(a, align);
    vstd::arithmetic::div_mod::lemma_fundamental_div_mod(b, align);
    let p = a / align;
    let q = b / align;
    assert(p < q) by (nonlinear_arith)
        requires
            align * p < align * q,
            0 < align,
    ;
    assert(align * p + align <= align * q) by (nonlinear_arith)
        requires
            p + 1 <= q,
            0 < align,
    ;
}

/// The types that have a size of their own, in bytes.
pub open spec fn known_size(name: Seq<char>, arch: Arch) -> Option<int> {
    let word = if arch == Arch::X64 {
        8int
    } else {
        4int
    };
    let one = seq!["uint8_t"@, "int8_t"@, "char"@, "bool"@, "unsigned char"@];
    let two = seq!["uint16_t"@, "int16_t"@, "short"@, "unsigned short"@];
    let four = seq!["uint32_t"@, "int32_t"@, "int"@, "unsigned int"@, "float"@];
    let eight = seq!["uint64_t"@, "int64_t"@, "double"@, "long long"@, "unsigned long long"@];
    let pointer = seq!["size_t"@, "intptr_t"@, "uintptr_t"@];
    if one.contains(name) {
        Some(1)
    } else if two.contains(name) {
        Some(2)
    } else if four.contains(name) {
        Some(4)
    } else if eight.contains(name) {
        Some(8)
    } else if pointer.contains(name) {
        Some(word)
    } else {
        None
    }
}

proof fn lemma_known(name: Seq<char>, arch: Arch)
    ensures
        scalar_size(name, arch.pointer()) == known_size(name, arch),
{
    let one = seq!["uint8_t"@, "int8_t"@, "char"@, "bool"@, "unsigned char"@];
    let two = seq!["uint16_t"@, "int16_t"@, "short"@, "unsigned short"@];
    let four = seq!["uint32_t"@, "int32_t"@, "int"@, "unsigned int"@, "float"@];
    let eight = seq!["uint64_t"@, "int64_t"@, "double"@, "long long"@, "unsigned long long"@];
    let pointer = seq!["size_t"@, "intptr_t"@, "uintptr_t"@];
    assert(one[0] == "uint8_t"@ && one[1] == "int8_t"@ && one[2] == "char"@ && one[3] == "bool"@
        && one[4] == "unsigned char"@);
    assert(two[0] == "uint16_t"@ && two[1] == "int16_t"@ && two[2] == "short"@ && two[3]
        == "unsigned short"@);
    assert(four[0] == "uint32_t"@ && four[1] == "int32_t"@ && four[2] == "int"@ && four[3]
        == "unsigned int"@ && four[4] == "float"@);
    assert(eight[0] == "uint64_t"@ && eight[1] == "int64_t"@ && eight[2] == "double"@ && eight[3]
        == "long long"@ && eight[4] == "unsigned long long"@);
    assert(pointer[0] == "size_t"@ && pointer[1] == "intptr_t"@ && pointer[2] == "uintptr_t"@);
}

/// A pointer takes a word, whatever it points to; a scalar takes its own size;
/// each is aligned to its size.
pub proof fn pointers_and_scalars_have_their_own_size(
    header: HeaderView,
    name: Seq<char>,
    levels: nat,
)
    requires
        levels > 0,
    ensures
        trim(name).len() > 0 && trim(name).last() == '*' ==> header.layout(name, levels) == Some(
            if header.arch == Arch::X64 {
                Layout { size: 8, align: 8 }
            } else {
                Layout { size: 4, align: 4 }
            },
        ),
        !(trim(name).len() > 0 && trim(name).last() == '*') ==> (known_size(
            trim(name),
            header.arch,
        ) matches Some(size) ==> header.layout(name, levels) == Some(
            Layout { size: size as u64, align: size as u64 },
        )),
        !(trim(name).len() > 0 && trim(name).last() == '*') && known_size(trim(name), header.arch)
            is None && !header.structs.contains_key(trim(name)) ==> header.layout(name, levels)
            is None,
{
    lemma_known(trim(name), header.arch);
}

/// Member `k` stands at the next multiple of its alignment behind the one before
/// it.
pub open spec fn follows_on(layouts: Seq<Layout>, places: Seq<int>, k: int) -> bool {
    is_next(
        places[k],
        if k == 0 {
            0
        } else {
            places[k - 1] + layouts[k - 1].size
        },
        layouts[k].align as int,
    )
}

/// These members, of these layouts, stand at these places: each at the next
/// multiple of its alignment behind the one before it.
pub open spec fn stand_at(layouts: Seq<Layout>, places: Seq<int>) -> bool {
    &&& places.len() == layouts.len()
    &&& forall|k: int| 0 <= k < places.len() ==> #[trigger] follows_on(layouts, places, k)
}

/// Each member has this layout.
pub open spec fn have_layouts(
    header: HeaderView,
    members: Members,
    levels: nat,
    layouts: Seq<Layout>,
) -> bool {
    &&& layouts.len() <= members.len()
    &&& forall|k: int|
        0 <= k < layouts.len() ==> header.layout(members[k].0, levels) == Some(
            #[trigger] layouts[k],
        )
}

/// The alignment is the strictest of these, or one.
pub open spec fn strictest(layouts: Seq<Layout>, align: int) -> bool {
    &&& forall|k: int| 0 <= k < layouts.len() ==> (#[trigger] layouts[k]).align <= align
    &&& align == 1 || exists|k: int|
        0 <= k < layouts.len() && (#[trigger] layouts[k]).align == align
}

pub proof fn lemma_align_positive(header: HeaderView, name: Seq<char>, levels: nat)
    ensures
        header.layout(name, levels) matches Some(l) ==> l.align > 0,
    decreases levels, 0nat,
{
    if levels > 0 && header.structs.contains_key(trim(name)) {
        let members = header.structs[trim(name)];
        lemma_members_align_positive(header, members, members.len(), (levels - 1) as nat);
    }
    lemma_known(trim(name), header.arch);
}

proof fn lemma_members_align_positive(
    header: HeaderView,
    members: Members,
    count: nat,
    levels: nat,
)
    ensures
        header.members_layout(members, count, levels) matches Some(l) ==> l.align > 0,
    decreases levels, 1 + count,
{
    if 0 < count <= members.len() {
        lemma_members_align_positive(header, members, (count - 1) as nat, levels);
        lemma_align_positive(header, members[count - 1].0, levels);
    }
}

/// One more member behind the others.
proof fn lemma_one_more(
    header: HeaderView,
    members: Members,
    levels: nat,
    layouts: Seq<Layout>,
    places: Seq<int>,
    one: Layout,
    place: int,
)
    requires
        layouts.len() < members.len(),
        have_layouts(header, members, levels, layouts),
        stand_at(layouts, places),
        header.layout(members[layouts.len() as int].0, levels) == Some(one),
        is_next(
            place,
            if layouts.len() == 0 {
                0
            } else {
                places.last() + layouts.last().size
            },
            one.align as int,
        ),
    ensures
        have_layouts(header, members, levels, layouts.push(one)),
        stand_at(layouts.push(one), places.push(place)),
{
    let all_layouts = layouts.push(one);
    let all_places = places.push(place);
    let n = layouts.len() as int;
    assert forall|k: int| 0 <= k < all_layouts.len() implies header.layout(members[k].0, levels)
        == Some(#[trigger] all_layouts[k]) by {
        if k < n {
            assert(all_layouts[k] == layouts[k]);
        }
    }
    assert forall|k: int| 0 <= k < all_places.len() implies #[trigger] follows_on(
        all_layouts,
        all_places,
        k,
    ) by {
        if k < n {
            assert(follows_on(layouts, places, k));
        }
    }
}

proof fn lemma_members(header: HeaderView, members: Members, count: nat, levels: nat) -> (r: (
    Seq<Layout>,
    Seq<int>,
))
    requires
        count <= members.len(),
    ensures
        header.members_layout(members, count, levels) matches Some(all) ==> {
            &&& r.0.len() == count
            &&& have_layouts(header, members, levels, r.0)
            &&& stand_at(r.0, r.1)
            &&& strictest(r.0, all.align as int)
            &&& all.size == (if count == 0 {
                0
            } else {
                r.1[count - 1] + r.0[count - 1].size
            })
        },
    decreases count,
{
    if count == 0 {
        (Seq::empty(), Seq::empty())
    } else {
        let (layouts, places) = lemma_members(header, members, (count - 1) as nat, levels);
        match (
            header.members_layout(members, (count - 1) as nat, levels),
            header.layout(members[count - 1].0, levels),
        ) {
            (Some(so_far), Some(one)) => {
                lemma_align_positive(header, members[count - 1].0, levels);
                aligning_moves_to_the_next_multiple(so_far.size as int, one.align as int);
                let place = aligned(so_far.size as int, one.align as int);
                let all_layouts = layouts.push(one);
                let all_places = places.push(place);
                if let Some(all) = header.members_layout(members, count, levels) {
                    assert(strictest(all_layouts, all.align as int)) by {
                        assert forall|k: int| 0 <= k < all_layouts.len() implies (
                        #[trigger] all_layouts[k]).align <= all.align by {
                            if k < count - 1 {
                                assert(layouts[k].align <= so_far.align);
                            }
                        }
                        if all.align == one.align {
                            assert(all_layouts[count - 1].align == all.align);
                        } else if so_far.align != 1 {
                            let k = choose|k: int|
                                0 <= k < layouts.len() && (#[trigger] layouts[k]).align
                                    == so_far.align;
                            assert(all_layouts[k].align == all.align);
                        }
                    }
                    lemma_one_more(header, members, levels, layouts, places, one, place);
                }
                (all_layouts, all_places)
            },
            _ => (layouts, places),
        }
    }
}

/// A struct's members stand one behind the other, each at the next multiple of
/// its alignment; the struct is aligned to the strictest of them, and its size
/// is the next multiple of that alignment behind the last.
pub proof fn a_struct_is_laid_out_member_by_member(
    header: HeaderView,
    name: Seq<char>,
    levels: nat,
) -> (r: (Seq<Layout>, Seq<int>))
    requires
        levels > 0,
        header.structs.contains_key(trim(name)),
        known_size(trim(name), header.arch) is None,
        !(trim(name).len() > 0 && trim(name).last() == '*'),
        header.layout(name, levels) is Some,
    ensures
        ({
            let members = header.structs[trim(name)];
            let whole = header.layout(name, levels)->0;
            let n = members.len() as int;
            &&& r.0.len() == n
            &&& have_layouts(header, members, (levels - 1) as nat, r.0)
            &&& stand_at(r.0, r.1)
            &&& strictest(r.0, whole.align as int)
            &&& is_next(
                whole.size as int,
                if n == 0 {
                    0
                } else {
                    r.1[n - 1] + r.0[n - 1].size
                },
                whole.align as int,
            )
        }),
{
    lemma_known(trim(name), header.arch);
    let members = header.structs[trim(name)];
    let inner = (levels - 1) as nat;
    lemma_members_align_positive(header, members, members.len(), inner);
    let all = header.members_layout(members, members.len(), inner)->0;
    aligning_moves_to_the_next_multiple(all.size as int, all.align as int);
    lemma_members(header, members, members.len(), inner)
}

proof fn lemma_offset_from(
    header: HeaderView,
    members: Members,
    name: Seq<char>,
    k: int,
    end: u64,
    layouts: Seq<Layout>,
    places: Seq<int>,
) -> (r: (int, Seq<Layout>, Seq<int>))
    requires
        0 <= k <= members.len(),
        layouts.len() == k,
        have_layouts(header, members, NESTING as nat, layouts),
        stand_at(layouts, places),
        end == (if k == 0 {
            0
        } else {
            places[k - 1] + layouts[k - 1].size
        }),
        forall|i: int| 0 <= i < k ==> (#[trigger] members[i]).1 != name,
    ensures
        header.offset_from(members, name, k, end) matches Some(offset) ==> {
            &&& 0 <= r.0 < members.len()
            &&& members[r.0].1 == name
            &&& forall|i: int| 0 <= i < r.0 ==> (#[trigger] members[i]).1 != name
            &&& r.1.len() == r.0 + 1
            &&& have_layouts(header, members, NESTING as nat, r.1)
            &&& stand_at(r.1, r.2)
            &&& offset == r.2[r.0]
        },
    decreases members.len() - k,
{
    if k < members.len() {
        match header.layout(members[k].0, NESTING as nat) {
            Some(one) => {
                lemma_align_positive(header, members[k].0, NESTING as nat);
                aligning_moves_to_the_next_multiple(end as int, one.align as int);
                let start = aligned(end as int, one.align as int);
                let all_layouts = layouts.push(one);
                let all_places = places.push(start);
                lemma_one_more(header, members, NESTING as nat, layouts, places, one, start);
                if members[k].1 != name && start + one.size <= u64::MAX {
                    lemma_offset_from(
                        header,
                        members,
                        name,
                        k + 1,
                        (start + one.size) as u64,
                        all_layouts,
                        all_places,
                    )
                } else {
                    (k, all_layouts, all_places)
                }
            },
            None => (k, layouts, places),
        }
    } else {
        (k, layouts, places)
    }
}

/// The offset of a member is where it stands behind the members before it, each
/// at the next multiple of its alignment.
pub proof fn a_member_stands_behind_those_before_it(
    header: HeaderView,
    of: Seq<char>,
    name: Seq<char>,
) -> (r: (int, Seq<Layout>, Seq<int>))
    requires
        header.offset(of, name) is Some,
    ensures
        ({
            let members = header.structs[of];
            &&& header.structs.contains_key(of)
            &&& 0 <= r.0 < members.len()
            &&& members[r.0].1 == name
            &&& forall|i: int| 0 <= i < r.0 ==> (#[trigger] members[i]).1 != name
            &&& r.1.len() == r.0 + 1
            &&& have_layouts(header, members, 9, r.1)
            &&& stand_at(r.1, r.2)
            &&& header.offset(of, name)->0 == r.2[r.0]
        }),
{
    lemma_offset_from(
        header,
        header.structs[of],
        name,
        0,
        0,
        Seq::empty(),
        Seq::empty(),
    )
}

/// The offset of `Il2CppClass::static_fields` is given if and only if the header
/// has it and it lies between ten and forty pointers.
pub proof fn static_fields_lies_where_it_is_believed(header: HeaderView)
    ensures
        ({
            let word = if header.arch == Arch::X64 {
                8int
            } else {
                4int
            };
            let offset = header.offset("Il2CppClass"@, "static_fields"@);
            &&& header.static_fields() is Ok <==> offset is Some && 10 * word <= offset->0 <= 40
                * word
            &&& header.static_fields() is Ok ==> header.static_fields()->Ok_0 == offset->0
            &&& header.static_fields() is Err ==> header.static_fields()->Err_0 is Malformed
        }),
{
}

/// A struct's or union's header names it, with or without the brace that opens
/// it.
pub proof fn a_header_names_its_struct(keyword: Seq<char>, name: Seq<char>, brace: Seq<char>)
    requires
        keyword == "struct "@ || keyword == "union "@,
        plain_name(name),
        brace.len() == 0 || brace == " {"@ || brace == "{"@,
    ensures
        declared_struct(keyword + name + brace) == Some((name, true)),
{
    reveal_strlit("struct ");
    reveal_strlit("union ");
    reveal_strlit(" {");
    reveal_strlit("{");
    reveal_strlit(" ");
    let line = keyword + name + brace;
    let rest = name + brace;
    let n = keyword.len() as int;
    assert(line.subrange(0, n) =~= keyword);
    assert(line.skip(n) =~= rest);
    if keyword == "union "@ && occurs_at(line, "struct "@, 0) {
        assert(line.subrange(0, 7)[0] == line[0]);
        assert("struct "@[0] == 's');
    }
    assert(name.last() == name[name.len() - 1]);
    lemma_nothing_to_trim(name);
    lemma_absent(name, " "@);
    assert(trim_end_char(name, '{') == name);
    assert(trim_end_char(name, ';') == name);
    if brace.len() == 0 {
        assert(rest =~= name);
        assert(line.last() == name.last());
    } else if brace == "{"@ {
        assert(rest.drop_last() =~= name);
        assert(rest.last() == '{');
        assert(line.last() == '{');
    } else {
        let spaced = name.push(' ');
        assert(rest.drop_last() =~= spaced);
        assert(rest.last() == '{');
        assert(trim_end_char(spaced, '{') == spaced);
        assert(trim_end_char(rest, '{') == spaced);
        assert(spaced[0] == name[0]);
        assert(trim_start(spaced) == spaced);
        assert(spaced.drop_last() =~= name);
        assert(trim_end(name) == name);
        assert(line.last() == '{');
    }
}

/// Functions, arrays and bodies on one line are no members.
pub proof fn functions_and_arrays_are_no_members(declaration: Seq<char>)
    requires
        declaration.len() > 0,
        !is_white(declaration[0]),
        forall|i: int| 0 <= i < declaration.len() ==> #[trigger] declaration[i] != '/',
        contains(declaration, "("@) || contains(declaration, "["@) || contains(declaration, "{"@),
    ensures
        declared_member(declaration + ";"@) is None,
{
    reveal_strlit("//");
    reveal_strlit(";");
    let line = declaration + ";"@;
    assert forall|i: int| 0 <= i < line.len() implies #[trigger] line[i] != '/' by {
        if i < declaration.len() {
            assert(line[i] == declaration[i]);
        }
    }
    lemma_absent(line, "//"@);
    assert(line[0] == declaration[0]);
    lemma_nothing_to_trim(line);
    assert(line.subrange(line.len() - 1, line.len() as int) =~= ";"@);
    assert(line.take(line.len() - 1) =~= declaration);
}

/// The members that these lines declare, in order.
pub open spec fn declared_in(all: Seq<Seq<char>>, from: int, to: int) -> Members
    decreases to - from,
{
    if to <= from {
        Seq::empty()
    } else {
        match declared_member(trim(all[to - 1])) {
            Some(member) => declared_in(all, from, to - 1).push(member),
            None => declared_in(all, from, to - 1),
        }
    }
}

/// The lines from `opening` to before `end` are the body of a struct: the first
/// names it, and none of the others names one or ends it.
pub open spec fn body_of(all: Seq<Seq<char>>, name: Seq<char>, opening: int, end: int) -> bool {
    &&& 0 <= opening < end <= all.len()
    &&& declared_struct(trim(all[opening])) == Some((name, true))
    &&& forall|i: int|
        opening < i < end ==> declared_struct(trim(#[trigger] all[i])) is None && trim(all[i])
            != "};"@
}

proof fn lemma_body(all: Seq<Seq<char>>, name: Seq<char>, opening: int, k: int)
    requires
        body_of(all, name, opening, k),
    ensures
        after_lines(all.take(k)).current == Some((name, declared_in(all, opening + 1, k))),
    decreases k - opening,
{
    assert(all.take(k).drop_last() =~= all.take(k - 1));
    assert(all.take(k).last() == all[k - 1]);
    if opening + 1 < k {
        lemma_body(all, name, opening, k - 1);
    }
}

proof fn lemma_kept(all: Seq<Seq<char>>, name: Seq<char>, end: int, k: int, members: Members)
    requires
        0 <= end < k <= all.len(),
        trim(all[end]) == "};"@ && declared_struct(trim(all[end])) is None,
        after_lines(all.take(end)).current == Some((name, members)),
        forall|i: int|
            end <= i < all.len() ==> (declared_struct(trim(#[trigger] all[i])) matches Some(other)
                ==> other.0 != name || !other.1),
    ensures
        closed_structs(after_lines(all.take(k))).contains_key(name),
        closed_structs(after_lines(all.take(k)))[name] == members,
        after_lines(all.take(k)).current matches Some((other, _)) ==> other != name,
        after_lines(all.take(k)).structs.contains_key(name),
        after_lines(all.take(k)).structs[name] == members,
    decreases k - end,
{
    assert(all.take(k).drop_last() =~= all.take(k - 1));
    assert(all.take(k).last() == all[k - 1]);
    if end + 1 < k {
        lemma_kept(all, name, end, k - 1, members);
    }
}

/// A struct has the members that the lines between its header and its `};`
/// declare, in order, as long as no later line opens a struct of its name.
pub proof fn a_struct_has_the_members_of_its_body(
    text: Seq<char>,
    name: Seq<char>,
    opening: int,
    end: int,
)
    requires
        body_of(lines(text), name, opening, end),
        end < lines(text).len(),
        trim(lines(text)[end]) == "};"@,
        forall|i: int|
            end <= i < lines(text).len() ==> (declared_struct(
                trim(#[trigger] lines(text)[i]),
            ) matches Some(other) ==> other.0 != name || !other.1),
    ensures
        structs_of(text).contains_key(name),
        structs_of(text)[name] == declared_in(lines(text), opening + 1, end),
{
    reveal_strlit("};");
    reveal_strlit("struct ");
    reveal_strlit("union ");
    let all = lines(text);
    lemma_body(all, name, opening, end);
    assert(declared_struct("};"@) is None);
    lemma_kept(all, name, end, all.len() as int, declared_in(all, opening + 1, end));
    assert(all.take(all.len() as int) =~= all);
}

} // verus!
